use host_config::addr::{IpAddr, SocketAddr};
use host_config::diag::InvalidType;
use host_config::parse::{
    ends_with_newline, format_record, parse_step, split_lines, ParseConfig,
};

fn ip(a: u8, b: u8, c: u8, d: u8) -> IpAddr {
    IpAddr { a, b, c, d }
}

/// Parses a text that contains no import directives.
fn parse_text(text: &str) -> ParseConfig {
    let lines = split_lines(text);
    let mut parse = ParseConfig::new();
    let r = parse_step(&mut parse, &lines, 0);
    assert!(r.is_none(), "unexpected import directive");
    parse
}

#[test]
fn splits_lines_like_a_text_editor() {
    let lines = split_lines("a\r\nb\nc");
    assert_eq!(lines, vec!["a".to_string(), "b".to_string(), "c".to_string()]);
    assert_eq!(split_lines(""), Vec::<String>::new());
    assert_eq!(split_lines("a\n"), vec!["a".to_string()]);
    assert_eq!(split_lines("a\n\n"), vec!["a".to_string(), "".to_string()]);
    // a carriage return is only dropped directly before a newline
    assert_eq!(split_lines("a\rb"), vec!["a\rb".to_string()]);
}

#[test]
fn blank_and_comment_lines_do_nothing() {
    let parse = parse_text("# a comment line\n\n   \n   # indented comment\n");
    assert!(parse.bind.is_empty());
    assert!(parse.proxy.is_empty());
    assert_eq!(parse.hosts.len(), 0);
    assert!(parse.timeout.is_none());
    assert!(parse.invalid.is_empty());
}

#[test]
fn wrong_token_count_yields_one_other_diagnostic() {
    let parse = parse_text("one\nthis has three tokens\n");
    assert!(parse.bind.is_empty());
    assert!(parse.proxy.is_empty());
    assert_eq!(parse.hosts.len(), 0);
    assert!(parse.timeout.is_none());
    assert_eq!(parse.invalid.len(), 2);
    assert_eq!(parse.invalid[0].line, 1);
    assert_eq!(parse.invalid[0].source, "one");
    assert_eq!(parse.invalid[0].kind, InvalidType::Other);
    assert_eq!(parse.invalid[1].line, 2);
    assert_eq!(parse.invalid[1].source, "this has three tokens");
    assert_eq!(parse.invalid[1].kind, InvalidType::Other);
}

#[test]
fn bind_and_proxy_directives_append_in_order() {
    let parse = parse_text("bind 0.0.0.0:53\nproxy 1.2.3.4:53\nbind 127.0.0.1:5353\n");
    assert_eq!(
        parse.bind,
        vec![
            SocketAddr { ip: ip(0, 0, 0, 0), port: 53 },
            SocketAddr { ip: ip(127, 0, 0, 1), port: 5353 },
        ]
    );
    assert_eq!(parse.proxy, vec![SocketAddr { ip: ip(1, 2, 3, 4), port: 53 }]);
    assert!(parse.invalid.is_empty());
}

#[test]
fn bad_bind_leaves_bind_unchanged() {
    let parse = parse_text("bind not-an-address\n");
    assert!(parse.bind.is_empty());
    assert_eq!(parse.invalid.len(), 1);
    assert_eq!(parse.invalid[0].kind, InvalidType::SocketAddr);
    assert_eq!(parse.invalid[0].source, "bind not-an-address");
}

#[test]
fn last_timeout_wins_within_one_file() {
    let parse = parse_text("timeout 10\ntimeout 20\n");
    assert_eq!(parse.timeout, Some(20));
    assert!(parse.invalid.is_empty());
}

#[test]
fn timeout_accepts_plus_sign_and_leading_zeros() {
    let parse = parse_text("timeout +15\n");
    assert_eq!(parse.timeout, Some(15));
    let parse = parse_text("timeout 030\n");
    assert_eq!(parse.timeout, Some(30));
    let parse = parse_text("timeout +\n");
    assert!(parse.timeout.is_none());
    assert_eq!(parse.invalid.len(), 1);
    assert_eq!(parse.invalid[0].kind, InvalidType::Timeout);
}

#[test]
fn bad_timeout_yields_timeout_diagnostic() {
    let parse = parse_text("timeout abc\ntimeout 18446744073709551616\n");
    assert!(parse.timeout.is_none());
    assert_eq!(parse.invalid.len(), 2);
    assert_eq!(parse.invalid[0].kind, InvalidType::Timeout);
    assert_eq!(parse.invalid[1].kind, InvalidType::Timeout);
    let parse = parse_text("timeout 18446744073709551615\n");
    assert_eq!(parse.timeout, Some(u64::MAX));
}

#[test]
fn host_records_accept_either_token_order() {
    let parse = parse_text("example.com 10.0.0.1\n10.0.0.2 example.org\n");
    assert!(parse.invalid.is_empty());
    assert_eq!(parse.hosts.len(), 2);
    assert_eq!(parse.hosts.get("example.com"), Some(&ip(10, 0, 0, 1)));
    assert_eq!(parse.hosts.get("example.org"), Some(&ip(10, 0, 0, 2)));
}

#[test]
fn host_record_without_address_yields_ip_diagnostic() {
    let parse = parse_text("foo bar\n");
    assert_eq!(parse.hosts.len(), 0);
    assert_eq!(parse.invalid.len(), 1);
    assert_eq!(parse.invalid[0].kind, InvalidType::IpAddr);
}

#[test]
fn host_record_with_bad_pattern_yields_regex_diagnostic() {
    let parse = parse_text("10.0.0.1 (\n");
    assert_eq!(parse.hosts.len(), 0);
    assert_eq!(parse.invalid.len(), 1);
    assert_eq!(parse.invalid[0].kind, InvalidType::Regex);
}

#[test]
fn comments_are_stripped_before_tokenizing() {
    let parse = parse_text("example.com 10.0.0.1 # the intranet mirror\n");
    assert_eq!(parse.hosts.len(), 1);
    assert_eq!(parse.hosts.get("example.com"), Some(&ip(10, 0, 0, 1)));
    // a hash inside an intended value truncates it
    let parse = parse_text("bind 1.2.3.4:53#x\n");
    assert!(parse.invalid.is_empty());
    assert_eq!(parse.bind, vec![SocketAddr { ip: ip(1, 2, 3, 4), port: 53 }]);
}

#[test]
fn import_suspends_the_scan_and_merges_in_place() {
    // file A imports B at line 3; A's later lines land after B's contribution
    let lines_a = split_lines("first.com 10.0.0.1\ntimeout 10\nimport ./extra.conf\nlast.com 10.0.0.4\n");
    let lines_b = split_lines("second.com 10.0.0.2\ntimeout 20\n");

    let mut parse = ParseConfig::new();
    let stop = parse_step(&mut parse, &lines_a, 0).expect("the import line must suspend the scan");
    assert_eq!(stop.0, 2);
    assert_eq!(stop.1, "./extra.conf");

    let mut nested = ParseConfig::new();
    assert!(parse_step(&mut nested, &lines_b, 0).is_none());
    parse.extend(nested);
    assert!(parse_step(&mut parse, &lines_a, stop.0 + 1).is_none());

    assert_eq!(parse.hosts.len(), 3);
    assert_eq!(parse.hosts.index(0).0.as_str(), "first.com");
    assert_eq!(parse.hosts.index(1).0.as_str(), "second.com");
    assert_eq!(parse.hosts.index(2).0.as_str(), "last.com");
    // a timeout set via an import overwrites an earlier direct one
    assert_eq!(parse.timeout, Some(20));
    assert!(parse.invalid.is_empty());
}

#[test]
fn merge_keeps_current_timeout_when_import_sets_none() {
    let mut parse = parse_text("timeout 30\n");
    let nested = parse_text("example.com 10.0.0.1\n");
    parse.extend(nested);
    assert_eq!(parse.timeout, Some(30));
    assert_eq!(parse.hosts.len(), 1);
}

#[test]
fn diagnostic_descriptions_are_fixed() {
    assert_eq!(InvalidType::SocketAddr.text(), "Cannot parse socket address");
    assert_eq!(InvalidType::IpAddr.text(), "Cannot parse ip address");
    assert_eq!(InvalidType::Regex.text(), "Cannot parse regular expression");
    assert_eq!(InvalidType::Timeout.text(), "Cannot parse timeout");
    assert_eq!(InvalidType::Other.text(), "Invalid line");
}

#[test]
fn added_records_are_formatted_as_two_token_lines() {
    assert_eq!(format_record("example.com", "10.0.0.1", true), "example.com  10.0.0.1");
    assert_eq!(format_record("example.com", "10.0.0.1", false), "\nexample.com  10.0.0.1");
    assert!(ends_with_newline("a\n"));
    assert!(!ends_with_newline("a"));
    assert!(!ends_with_newline(""));
}
