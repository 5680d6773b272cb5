//! The line-oriented directive parser. Each line is stripped of its comment,
//! tokenized, and classified into one action: a `bind`, `proxy`, `timeout`
//! or `import` directive, a host record, a silent skip, or a diagnostic.
//! Actions are applied in document order to an accumulator; an `import`
//! suspends the scan so the caller can parse the imported file and merge its
//! result in place before resuming.

use vstd::prelude::*;
use vstd::string::{StrSliceExecFns, StringExecFns};

use crate::addr::{parse_ipv4, parse_socket_addr, spec_parse_socket, valid_ipv4, ipv4_of, IpAddr,
    SocketAddr};
use crate::diag::{Invalid, InvalidModel, InvalidType};
use crate::host::{host_model_of, Host, HostModel};
use crate::table::Hosts;
use crate::text::{find_char, find_nonspace, find_space, lemma_scan_to_char_shift, parse_u64,
    push_char, scan_to_char, scan_to_nonspace, scan_to_space, spec_parse_u64, str_eq};

verus! {

/// Mathematical model of an aggregate parse result.
#[verifier::ext_equal]
pub struct ParseModel {
    pub bind: Seq<SocketAddr>,
    pub proxy: Seq<SocketAddr>,
    pub hosts: Seq<(HostModel, IpAddr)>,
    pub timeout: Option<u64>,
    pub invalid: Seq<InvalidModel>,
}

/// The aggregate result of parsing a file: listen and upstream endpoints,
/// the host table, the most recent timeout, and per-line diagnostics.
#[derive(Debug)]
pub struct ParseConfig {
    pub bind: Vec<SocketAddr>,
    pub proxy: Vec<SocketAddr>,
    pub hosts: Hosts,
    pub timeout: Option<u64>,
    pub invalid: Vec<Invalid>,
}

impl View for ParseConfig {
    type V = ParseModel;

    open spec fn view(&self) -> ParseModel {
        ParseModel {
            bind: self.bind@,
            proxy: self.proxy@,
            hosts: self.hosts@,
            timeout: self.timeout,
            invalid: self.invalid@.map(|i: int, inv: Invalid| inv@),
        }
    }
}

/// The model of an empty result.
pub open spec fn empty_model() -> ParseModel {
    ParseModel {
        bind: Seq::empty(),
        proxy: Seq::empty(),
        hosts: Seq::empty(),
        timeout: None,
        invalid: Seq::empty(),
    }
}

/// Merging `b` after `a`: sequences are appended in order; a timeout set in
/// `b` overwrites one set in `a` (last-writer-wins).
pub open spec fn merge(a: ParseModel, b: ParseModel) -> ParseModel {
    ParseModel {
        bind: a.bind + b.bind,
        proxy: a.proxy + b.proxy,
        hosts: a.hosts + b.hosts,
        timeout: if b.timeout is Some {
            b.timeout
        } else {
            a.timeout
        },
        invalid: a.invalid + b.invalid,
    }
}

/// The comment-stripped text of a line: everything before the first `#`.
pub open spec fn stripped_of(line: Seq<char>) -> Seq<char> {
    line.subrange(0, scan_to_char(line, 0, '#'))
}

/// Start of the first token of a stripped line.
pub open spec fn tok1_start(s: Seq<char>) -> int {
    scan_to_nonspace(s, 0)
}

/// End of the first token.
pub open spec fn tok1_end(s: Seq<char>) -> int {
    scan_to_space(s, tok1_start(s))
}

/// Start of the second token.
pub open spec fn tok2_start(s: Seq<char>) -> int {
    scan_to_nonspace(s, tok1_end(s))
}

/// End of the second token.
pub open spec fn tok2_end(s: Seq<char>) -> int {
    scan_to_space(s, tok2_start(s))
}

/// A stripped line is blank: only whitespace (or nothing) before the comment.
pub open spec fn is_blank(s: Seq<char>) -> bool {
    tok1_start(s) == s.len()
}

/// Exactly two whitespace-separated tokens.
pub open spec fn has_two_tokens(s: Seq<char>) -> bool {
    &&& tok1_start(s) < s.len()
    &&& tok2_start(s) < s.len()
    &&& scan_to_nonspace(s, tok2_end(s)) == s.len()
}

pub open spec fn token1(s: Seq<char>) -> Seq<char> {
    s.subrange(tok1_start(s), tok1_end(s))
}

pub open spec fn token2(s: Seq<char>) -> Seq<char> {
    s.subrange(tok2_start(s), tok2_end(s))
}

/// What one line asks of the parser.
pub enum Action {
    /// Blank or comment-only line: nothing at all.
    Skip,
    /// A listen endpoint to append.
    Bind(SocketAddr),
    /// An upstream endpoint to append.
    Proxy(SocketAddr),
    /// A timeout to overwrite the current one with.
    SetTimeout(u64),
    /// A file to parse and merge in place, by the path given.
    Import(Seq<char>),
    /// A host record to append to the table.
    AddHost(HostModel, IpAddr),
    /// A diagnostic to record: the category and the stripped line text.
    Report(InvalidType, Seq<char>),
}

/// The action of a host-record line with tokens `k` and `v`: whichever token
/// parses as an address is the address, the other is the pattern; ip-first
/// takes precedence.
pub open spec fn host_action(k: Seq<char>, v: Seq<char>, s: Seq<char>) -> Action {
    if valid_ipv4(k) {
        match host_model_of(v) {
            Some(m) => Action::AddHost(m, ipv4_of(k)),
            None => Action::Report(InvalidType::Regex, s),
        }
    } else if valid_ipv4(v) {
        match host_model_of(k) {
            Some(m) => Action::AddHost(m, ipv4_of(v)),
            None => Action::Report(InvalidType::Regex, s),
        }
    } else {
        Action::Report(InvalidType::IpAddr, s)
    }
}

/// The action of one raw line.
pub open spec fn action_of(line: Seq<char>) -> Action {
    let s = stripped_of(line);
    if is_blank(s) {
        Action::Skip
    } else if !has_two_tokens(s) {
        Action::Report(InvalidType::Other, s)
    } else {
        let k = token1(s);
        let v = token2(s);
        if k == "bind"@ {
            match spec_parse_socket(v) {
                Some(a) => Action::Bind(a),
                None => Action::Report(InvalidType::SocketAddr, s),
            }
        } else if k == "proxy"@ {
            match spec_parse_socket(v) {
                Some(a) => Action::Proxy(a),
                None => Action::Report(InvalidType::SocketAddr, s),
            }
        } else if k == "timeout"@ {
            match spec_parse_u64(v) {
                Some(t) => Action::SetTimeout(t),
                None => Action::Report(InvalidType::Timeout, s),
            }
        } else if k == "import"@ {
            Action::Import(v)
        } else {
            host_action(k, v, s)
        }
    }
}

/// Applying one action to a result model; `n` is the 1-based line number.
/// An import applies nothing by itself: the caller merges the imported
/// file's result at that point.
pub open spec fn apply_action(m: ParseModel, n: int, a: Action) -> ParseModel {
    match a {
        Action::Skip => m,
        Action::Import(_) => m,
        Action::Bind(addr) => ParseModel { bind: m.bind.push(addr), ..m },
        Action::Proxy(addr) => ParseModel { proxy: m.proxy.push(addr), ..m },
        Action::SetTimeout(t) => ParseModel { timeout: Some(t), ..m },
        Action::AddHost(h, ip) => ParseModel { hosts: m.hosts.push((h, ip)), ..m },
        Action::Report(kind, source) => ParseModel {
            invalid: m.invalid.push(InvalidModel { line: n, source, kind }),
            ..m
        },
    }
}

/// The exec form of one classified line.
pub enum LineStep {
    Skip,
    Bind(SocketAddr),
    Proxy(SocketAddr),
    SetTimeout(u64),
    Import(String),
    AddHost(Host, IpAddr),
    Report(InvalidType, String),
}

impl View for LineStep {
    type V = Action;

    open spec fn view(&self) -> Action {
        match self {
            LineStep::Skip => Action::Skip,
            LineStep::Bind(a) => Action::Bind(*a),
            LineStep::Proxy(a) => Action::Proxy(*a),
            LineStep::SetTimeout(t) => Action::SetTimeout(*t),
            LineStep::Import(p) => Action::Import(p@),
            LineStep::AddHost(h, ip) => Action::AddHost(h@, *ip),
            LineStep::Report(k, s) => Action::Report(*k, s@),
        }
    }
}

/// Strips the comment, tokenizes, and classifies one line.
pub fn classify_line(line: &str) -> (r: LineStep)
    ensures
        r@ == action_of(line@),
{
    let hash = find_char(line, 0, '#');
    let s = line.substring_char(0, hash);
    let n = s.unicode_len();
    let t1s = find_nonspace(s, 0);
    if t1s == n {
        return LineStep::Skip;
    }
    let t1e = find_space(s, t1s);
    let t2s = find_nonspace(s, t1e);
    if t2s == n {
        return LineStep::Report(InvalidType::Other, String::from_str(s));
    }
    let t2e = find_space(s, t2s);
    let after = find_nonspace(s, t2e);
    if after != n {
        return LineStep::Report(InvalidType::Other, String::from_str(s));
    }
    let key = s.substring_char(t1s, t1e);
    let val = s.substring_char(t2s, t2e);
    if str_eq(key, "bind") {
        match parse_socket_addr(val) {
            Some(a) => LineStep::Bind(a),
            None => LineStep::Report(InvalidType::SocketAddr, String::from_str(s)),
        }
    } else if str_eq(key, "proxy") {
        match parse_socket_addr(val) {
            Some(a) => LineStep::Proxy(a),
            None => LineStep::Report(InvalidType::SocketAddr, String::from_str(s)),
        }
    } else if str_eq(key, "timeout") {
        match parse_u64(val) {
            Some(t) => LineStep::SetTimeout(t),
            None => LineStep::Report(InvalidType::Timeout, String::from_str(s)),
        }
    } else if str_eq(key, "import") {
        LineStep::Import(String::from_str(val))
    } else {
        match parse_ipv4(key) {
            Some(ip) => match Host::new(val) {
                Some(h) => LineStep::AddHost(h, ip),
                None => LineStep::Report(InvalidType::Regex, String::from_str(s)),
            },
            None => match parse_ipv4(val) {
                Some(ip) => match Host::new(key) {
                    Some(h) => LineStep::AddHost(h, ip),
                    None => LineStep::Report(InvalidType::Regex, String::from_str(s)),
                },
                None => LineStep::Report(InvalidType::IpAddr, String::from_str(s)),
            },
        }
    }
}

impl ParseConfig {
    /// An empty result.
    pub fn new() -> (r: ParseConfig)
        ensures
            r@ == empty_model(),
    {
        let r = ParseConfig {
            bind: Vec::new(),
            proxy: Vec::new(),
            hosts: Hosts::new(),
            timeout: None,
            invalid: Vec::new(),
        };
        proof {
            assert(r@ =~= empty_model());
        }
        r
    }

    /// Merges `other` into this result at the current point: its sequences
    /// are appended after the current ones, and its timeout, if set,
    /// overwrites the current one.
    pub fn extend(&mut self, other: ParseConfig)
        ensures
            final(self)@ == merge(old(self)@, other@),
    {
        let ghost om = other@;
        let mut other = other;
        self.bind.append(&mut other.bind);
        self.proxy.append(&mut other.proxy);
        self.hosts.extend(other.hosts);
        if other.timeout.is_some() {
            self.timeout = other.timeout;
        }
        self.invalid.append(&mut other.invalid);
        proof {
            assert(self@.invalid =~= old(self)@.invalid + om.invalid);
            assert(self@ =~= merge(old(self)@, om));
        }
    }

    /// Applies one classified line; `n` is its 1-based line number.
    pub fn apply(&mut self, n: usize, step: LineStep)
        ensures
            final(self)@ == apply_action(old(self)@, n as int, step@),
    {
        match step {
            LineStep::Skip => {
                proof {
                    assert(self@ =~= apply_action(old(self)@, n as int, LineStep::Skip@));
                }
            },
            LineStep::Import(_) => {
                proof {
                    assert(self@ =~= apply_action(old(self)@, n as int, step@));
                }
            },
            LineStep::Bind(a) => {
                self.bind.push(a);
                proof {
                    assert(self@ =~= apply_action(old(self)@, n as int, step@));
                }
            },
            LineStep::Proxy(a) => {
                self.proxy.push(a);
                proof {
                    assert(self@ =~= apply_action(old(self)@, n as int, step@));
                }
            },
            LineStep::SetTimeout(t) => {
                self.timeout = Some(t);
                proof {
                    assert(self@ =~= apply_action(old(self)@, n as int, step@));
                }
            },
            LineStep::AddHost(h, ip) => {
                self.hosts.push((h, ip));
                proof {
                    assert(self@ =~= apply_action(old(self)@, n as int, step@));
                }
            },
            LineStep::Report(kind, source) => {
                let ghost src = source@;
                self.invalid.push(Invalid { line: n, source, kind });
                proof {
                    assert(self@.invalid =~= old(self)@.invalid.push(
                        InvalidModel { line: n as int, source: src, kind },
                    ));
                    assert(self@ =~= apply_action(old(self)@, n as int, step@));
                }
            },
        }
    }
}

/// The result of applying lines `from..to` (0-based indices, actions applied
/// with 1-based line numbers) to a model. Import lines apply nothing here.
pub open spec fn run_upto(m: ParseModel, lines: Seq<Seq<char>>, from: int, to: int) -> ParseModel
    decreases to - from,
{
    if from >= to {
        m
    } else {
        run_upto(apply_action(m, from + 1, action_of(lines[from])), lines, from + 1, to)
    }
}

/// Index of the first import line at or after `from`; the number of lines if
/// there is none.
pub open spec fn next_import(lines: Seq<Seq<char>>, from: int) -> int
    decreases lines.len() - from,
{
    if from < 0 || from >= lines.len() {
        lines.len() as int
    } else if action_of(lines[from]) is Import {
        from
    } else {
        next_import(lines, from + 1)
    }
}

pub proof fn lemma_run_upto_snoc(m: ParseModel, lines: Seq<Seq<char>>, from: int, to: int)
    requires
        from <= to,
    ensures
        run_upto(m, lines, from, to + 1) == apply_action(
            run_upto(m, lines, from, to),
            to + 1,
            action_of(lines[to]),
        ),
    decreases to - from,
{
    if from < to {
        lemma_run_upto_snoc(
            apply_action(m, from + 1, action_of(lines[from])),
            lines,
            from + 1,
            to,
        );
    } else {
        let stepped = apply_action(m, to + 1, action_of(lines[to]));
        assert(run_upto(m, lines, to, to + 1) == run_upto(stepped, lines, to + 1, to + 1));
        assert(run_upto(stepped, lines, to + 1, to + 1) == stepped);
    }
}

/// Scanning a range of lines splits at any midpoint: the lines after the
/// midpoint are still processed, on top of whatever came before.
pub proof fn lemma_run_upto_split(
    m: ParseModel,
    lines: Seq<Seq<char>>,
    a: int,
    b: int,
    c: int,
)
    requires
        a <= b <= c,
    ensures
        run_upto(m, lines, a, c) == run_upto(run_upto(m, lines, a, b), lines, b, c),
    decreases b - a,
{
    if a < b {
        lemma_run_upto_split(apply_action(m, a + 1, action_of(lines[a])), lines, a + 1, b, c);
    }
}

/// A comment-only or blank line does nothing: its action is a skip, and a
/// skip leaves every accumulator field unchanged.
pub proof fn lemma_blank_line_no_effect(m: ParseModel, n: int, line: Seq<char>)
    requires
        is_blank(stripped_of(line)),
    ensures
        action_of(line) == Action::Skip,
        apply_action(m, n, action_of(line)) == m,
{
}

/// A non-blank line with other than two tokens yields exactly one `Other`
/// diagnostic carrying the stripped text, and changes nothing else.
pub proof fn lemma_bad_token_count(m: ParseModel, n: int, line: Seq<char>)
    requires
        !is_blank(stripped_of(line)),
        !has_two_tokens(stripped_of(line)),
    ensures
        action_of(line) == Action::Report(InvalidType::Other, stripped_of(line)),
        apply_action(m, n, action_of(line)).invalid == m.invalid.push(
            InvalidModel { line: n, source: stripped_of(line), kind: InvalidType::Other },
        ),
        apply_action(m, n, action_of(line)).bind == m.bind,
        apply_action(m, n, action_of(line)).proxy == m.proxy,
        apply_action(m, n, action_of(line)).hosts == m.hosts,
        apply_action(m, n, action_of(line)).timeout == m.timeout,
{
}

/// The most recently applied timeout wins: a timeout directive overwrites
/// whatever was there, and a merged import's timeout, when set, overwrites
/// the current one — whether the later write is direct or via an import.
pub proof fn lemma_timeout_last_writer(m: ParseModel, n: int, t: u64, other: ParseModel)
    ensures
        apply_action(m, n, Action::SetTimeout(t)).timeout == Some(t),
        other.timeout is Some ==> merge(m, other).timeout == other.timeout,
        other.timeout is None ==> merge(m, other).timeout == m.timeout,
{
}

/// Scans `lines[from..]`, applying each line to `parse`, and stops at the
/// first import line: returns its index and the import path, or `None` when
/// the lines are exhausted. The caller parses the imported file, merges it,
/// and resumes at the line after the import.
pub fn parse_step(parse: &mut ParseConfig, lines: &Vec<String>, from: usize) -> (r: Option<
    (usize, String),
>)
    requires
        from <= lines@.len(),
    ensures
        ({
            let ls = lines.deep_view();
            let j = next_import(ls, from as int);
            &&& (r is Some <==> j < ls.len())
            &&& final(parse)@ == run_upto(old(parse)@, ls, from as int, j)
            &&& (r matches Some(p) ==> p.0 == j && p.1@ == action_of(ls[j])->Import_0)
        }),
{
    let ghost ls = lines.deep_view();
    let n = lines.len();
    let mut i = from;
    while i < n
        invariant
            from <= i <= n,
            n == lines@.len(),
            ls == lines.deep_view(),
            ls.len() == n,
            parse@ == run_upto(old(parse)@, ls, from as int, i as int),
            next_import(ls, from as int) == next_import(ls, i as int),
        decreases n - i,
    {
        proof {
            assert(ls[i as int] == lines@[i as int]@);
        }
        let step = classify_line(lines[i].as_str());
        let ghost act = step@;
        if let LineStep::Import(path) = step {
            proof {
                assert(next_import(ls, i as int) == i);
            }
            return Some((i, path));
        }
        proof {
            assert(!(act is Import));
            assert(next_import(ls, i as int) == next_import(ls, i + 1));
        }
        parse.apply(i + 1, step);
        proof {
            lemma_run_upto_snoc(old(parse)@, ls, from as int, i as int);
        }
        i = i + 1;
    }
    proof {
        assert(next_import(ls, n as int) == n);
    }
    None
}

/// One line of a text with a carriage return before the newline removed.
pub open spec fn strip_cr(s: Seq<char>) -> Seq<char> {
    if s.len() > 0 && s.last() == '\r' {
        s.drop_last()
    } else {
        s
    }
}

/// The lines of a text: split at each newline, a carriage return directly
/// before a newline dropped, and a final newline ending the last line
/// rather than opening an empty one.
pub open spec fn lines_of(s: Seq<char>) -> Seq<Seq<char>>
    decreases s.len(),
{
    if s.len() == 0 {
        Seq::empty()
    } else {
        let e = scan_to_char(s, 0, '\n');
        if 0 <= e && e < s.len() {
            seq![strip_cr(s.subrange(0, e))] + lines_of(s.subrange(e + 1, s.len() as int))
        } else {
            seq![s]
        }
    }
}

/// Splits a file's text into its lines.
pub fn split_lines(s: &str) -> (r: Vec<String>)
    ensures
        r.deep_view() == lines_of(s@),
{
    let n = s.unicode_len();
    let mut out: Vec<String> = Vec::new();
    let mut pos: usize = 0;
    proof {
        assert(s@.skip(0) =~= s@);
        assert(out.deep_view() =~~= Seq::<Seq<char>>::empty());
        assert(out.deep_view() + lines_of(s@) =~~= lines_of(s@));
    }
    while pos < n
        invariant
            0 <= pos <= n,
            n == s@.len(),
            lines_of(s@) =~~= out.deep_view() + lines_of(s@.skip(pos as int)),
        decreases n - pos,
    {
        let e = find_char(s, pos, '\n');
        let line_end = if e < n && e > pos && s.get_char(e - 1) == '\r' {
            e - 1
        } else {
            e
        };
        let ghost prev = out.deep_view();
        let piece = String::from_str(s.substring_char(pos, line_end));
        out.push(piece);
        proof {
            lemma_scan_to_char_shift(s@, pos as int, 0, '\n');
            let rest = s@.skip(pos as int);
            let e0 = scan_to_char(rest, 0, '\n');
            assert(e0 == e - pos);
            assert(out.deep_view() =~~= prev.push(piece@));
            if e < n {
                assert(rest.subrange(0, e0) =~= s@.subrange(pos as int, e as int));
                assert(rest.subrange(e0 + 1, rest.len() as int) =~= s@.skip(e + 1));
                assert(strip_cr(rest.subrange(0, e0)) =~= s@.subrange(
                    pos as int,
                    line_end as int,
                ));
                assert(lines_of(rest) =~~= seq![piece@] + lines_of(s@.skip(e + 1)));
                assert(lines_of(s@) =~~= out.deep_view() + lines_of(s@.skip(e + 1)));
            } else {
                assert(e == n);
                assert(rest =~= s@.subrange(pos as int, n as int));
                assert(piece@ == rest);
                assert(lines_of(rest) =~~= seq![piece@]);
                assert(s@.skip(n as int) =~= Seq::<char>::empty());
                assert(lines_of(s@) =~~= out.deep_view() + lines_of(s@.skip(n as int)));
            }
        }
        if e == n {
            pos = n;
        } else {
            pos = e + 1;
        }
    }
    proof {
        assert(s@.skip(n as int) =~= Seq::<char>::empty());
        assert(lines_of(s@) =~~= out.deep_view());
    }
    out
}

/// The text appended for one added host record: the two tokens separated by
/// two spaces, preceded by a newline unless the file already ends with one.
pub open spec fn record_line(domain: Seq<char>, ip: Seq<char>, ends_nl: bool) -> Seq<char> {
    (if ends_nl {
        Seq::empty()
    } else {
        seq!['\n']
    }) + domain + "  "@ + ip
}

/// Whether a file's text already ends with a newline.
pub fn ends_with_newline(s: &str) -> (r: bool)
    ensures
        r == (s@.len() > 0 && s@.last() == '\n'),
{
    let n = s.unicode_len();
    if n == 0 {
        false
    } else {
        s.get_char(n - 1) == '\n'
    }
}

/// Formats the line appended for one added host record.
pub fn format_record(domain: &str, ip: &str, ends_nl: bool) -> (r: String)
    ensures
        r@ == record_line(domain@, ip@, ends_nl),
{
    let mut out = String::new();
    if !ends_nl {
        push_char(&mut out, '\n');
    }
    out.append(domain);
    out.append("  ");
    out.append(ip);
    proof {
        assert(out@ =~= record_line(domain@, ip@, ends_nl));
    }
    out
}

} // verus!
