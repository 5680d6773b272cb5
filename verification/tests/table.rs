use host_config::addr::IpAddr;
use host_config::host::Host;
use host_config::table::Hosts;

fn ip(a: u8, b: u8, c: u8, d: u8) -> IpAddr {
    IpAddr { a, b, c, d }
}

#[test]
fn lookup_returns_first_inserted_match() {
    let mut hosts = Hosts::new();
    hosts.push((Host::new("*.example.com").unwrap(), ip(10, 0, 0, 1)));
    hosts.push((Host::new("test.example.com").unwrap(), ip(10, 0, 0, 2)));
    hosts.push((Host::new("^.*$").unwrap(), ip(10, 0, 0, 3)));
    // all three match, the first inserted wins
    assert_eq!(hosts.get("test.example.com"), Some(&ip(10, 0, 0, 1)));
    // the literal never matches, the catch-all pattern is reached last
    assert_eq!(hosts.get("example.org"), Some(&ip(10, 0, 0, 3)));
}

#[test]
fn lookup_misses_when_nothing_matches() {
    let mut hosts = Hosts::new();
    hosts.push((Host::new("example.com").unwrap(), ip(10, 0, 0, 1)));
    assert_eq!(hosts.get("example.org"), None);
    assert_eq!(Hosts::new().get("example.com"), None);
}

#[test]
fn extend_appends_after_current_entries() {
    let mut first = Hosts::new();
    first.push((Host::new("example.com").unwrap(), ip(10, 0, 0, 1)));
    let mut second = Hosts::new();
    second.push((Host::new("example.com").unwrap(), ip(10, 0, 0, 2)));
    second.push((Host::new("example.org").unwrap(), ip(10, 0, 0, 3)));
    first.extend(second);
    assert_eq!(first.len(), 3);
    // the earlier table's entry still shadows the merged one
    assert_eq!(first.get("example.com"), Some(&ip(10, 0, 0, 1)));
    assert_eq!(first.get("example.org"), Some(&ip(10, 0, 0, 3)));
    assert_eq!(first.index(1).1, ip(10, 0, 0, 2));
}
