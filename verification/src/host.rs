//! Domain-pattern matchers. A raw pattern string is classified by its
//! character set: plain domain text is matched literally; text with `*` is
//! translated to an anchored regular expression where `*` stands for one or
//! more non-dot characters; anything else is compiled verbatim as an
//! unanchored regular expression.

use vstd::prelude::*;
use vstd::string::{StrSliceExecFns, StringExecFns};

use crate::text::{is_digit, push_char};

verus! {

/// Whether a regular-expression pattern compiles. Names the success of
/// `regex::Regex::new`, which depends on the pattern text alone.
pub uninterp spec fn regex_valid(pattern: Seq<char>) -> bool;

/// Whether a compiled regular expression finds a match anywhere in a text.
/// Names the result of `regex::Regex::is_match`, which depends on the
/// pattern and the haystack alone.
pub uninterp spec fn regex_matches(pattern: Seq<char>, text: Seq<char>) -> bool;

#[verifier::external_type_specification]
#[verifier::external_body]
pub struct ExRegex(regex::Regex);

/// A compiled matcher paired with the pattern text it was compiled from.
/// `compile` is the only constructor, so `re` always stems from `text`.
#[derive(Debug)]
struct CompiledPattern {
    text: String,
    re: regex::Regex,
}

/// Relies on regex::Regex::new: compilation succeeds or fails on the pattern
/// text alone (`regex_valid`); on success the compiled value is paired with
/// exactly that text.
#[verifier::external_body]
fn compile(text: String) -> (r: Option<CompiledPattern>)
    ensures
        r is Some <==> regex_valid(text@),
        r is Some ==> r->0.text@ == text@,
{
    match regex::Regex::new(&text) {
        Ok(re) => Some(CompiledPattern { text, re }),
        Err(_) => None,
    }
}

/// Relies on regex::Regex::is_match: whether the expression compiled from
/// `c.text` matches anywhere in `domain` depends on those two texts alone
/// (`regex_matches`).
#[verifier::external_body]
fn compiled_is_match(c: &CompiledPattern, domain: &str) -> (r: bool)
    ensures
        r == regex_matches(c.text@, domain@),
{
    c.re.is_match(domain)
}

/// A character allowed in a literal domain pattern: ASCII lowercase letters,
/// digits, hyphen and dot.
pub open spec fn literal_char(c: char) -> bool {
    (97 <= c as u32 && c as u32 <= 122) || is_digit(c) || c == '-' || c == '.'
}

/// Every character is allowed in a literal pattern.
pub open spec fn is_literal_pattern(s: Seq<char>) -> bool {
    forall|i: int| 0 <= i < s.len() ==> literal_char(#[trigger] s[i])
}

/// Every character is allowed in a wildcard pattern: the literal set plus `*`.
pub open spec fn is_wildcard_pattern(s: Seq<char>) -> bool {
    forall|i: int| 0 <= i < s.len() ==> literal_char(#[trigger] s[i]) || s[i] == '*'
}

/// The regular-expression text one wildcard-pattern character turns into:
/// a dot is escaped, a star becomes "one or more non-dot characters".
pub open spec fn wildcard_char(c: char) -> Seq<char> {
    if c == '.' {
        seq!['\\', '.']
    } else if c == '*' {
        seq!['[', '^', '.', ']', '+']
    } else {
        seq![c]
    }
}

pub open spec fn wildcard_body(p: Seq<char>) -> Seq<char>
    decreases p.len(),
{
    if p.len() == 0 {
        Seq::empty()
    } else {
        wildcard_char(p[0]) + wildcard_body(p.drop_first())
    }
}

/// The anchored regular-expression text a wildcard pattern compiles to.
pub open spec fn wildcard_regex(p: Seq<char>) -> Seq<char> {
    seq!['^'] + wildcard_body(p) + seq!['$']
}

proof fn lemma_wildcard_body_snoc(p: Seq<char>, i: int)
    requires
        0 <= i < p.len(),
    ensures
        wildcard_body(p.take(i + 1)) == wildcard_body(p.take(i)) + wildcard_char(p[i]),
    decreases i,
{
    if i == 0 {
        assert(p.take(1).drop_first() =~= p.take(0));
        assert(wildcard_body(p.take(0)) == Seq::<char>::empty());
        assert(wildcard_body(p.take(1)) =~= wildcard_char(p[0]) + Seq::<char>::empty());
        assert(wildcard_body(p.take(0)) + wildcard_char(p[0]) =~= wildcard_char(p[0])
            + Seq::<char>::empty());
    } else {
        let q = p.drop_first();
        lemma_wildcard_body_snoc(q, i - 1);
        assert(p.take(i + 1).drop_first() =~= q.take(i));
        assert(p.take(i).drop_first() =~= q.take(i - 1));
        assert(wildcard_body(p.take(i + 1)) == wildcard_char(p[0]) + wildcard_body(q.take(i)));
        assert(wildcard_body(p.take(i)) == wildcard_char(p[0]) + wildcard_body(q.take(i - 1)));
        assert(q[i - 1] == p[i]);
        assert(wildcard_char(p[0]) + (wildcard_body(q.take(i - 1)) + wildcard_char(p[i]))
            =~= (wildcard_char(p[0]) + wildcard_body(q.take(i - 1))) + wildcard_char(p[i]));
    }
}

/// The matcher a raw pattern string denotes: its classification and, for the
/// two compiled forms, the regular-expression text actually compiled.
pub enum HostModel {
    Literal { text: Seq<char> },
    Compiled { pattern: Seq<char> },
}

/// Whether a matcher accepts a candidate domain.
pub open spec fn host_matches(m: HostModel, domain: Seq<char>) -> bool {
    match m {
        HostModel::Literal { text } => text == domain,
        HostModel::Compiled { pattern } => regex_matches(pattern, domain),
    }
}

/// The matcher a raw pattern compiles to, if compilation succeeds.
pub open spec fn host_model_of(p: Seq<char>) -> Option<HostModel> {
    if is_literal_pattern(p) {
        Some(HostModel::Literal { text: p })
    } else if is_wildcard_pattern(p) {
        if regex_valid(wildcard_regex(p)) {
            Some(HostModel::Compiled { pattern: wildcard_regex(p) })
        } else {
            None
        }
    } else if regex_valid(p) {
        Some(HostModel::Compiled { pattern: p })
    } else {
        None
    }
}

/// A literal matcher accepts exactly its own text, and a pattern made only
/// of literal characters always compiles to such a matcher.
pub proof fn lemma_literal_matches_exact(p: Seq<char>, domain: Seq<char>)
    requires
        is_literal_pattern(p),
    ensures
        host_model_of(p) == Some(HostModel::Literal { text: p }),
        host_matches(HostModel::Literal { text: p }, domain) <==> p == domain,
{
}

/// A domain-pattern matcher.
#[derive(Debug)]
pub struct Host {
    mode: MatchMode,
}

#[derive(Debug)]
enum MatchMode {
    Text(String),
    Compiled(CompiledPattern),
}

impl View for Host {
    type V = HostModel;

    closed spec fn view(&self) -> HostModel {
        match self.mode {
            MatchMode::Text(t) => HostModel::Literal { text: t@ },
            MatchMode::Compiled(c) => HostModel::Compiled { pattern: c.text@ },
        }
    }
}

/// Tests whether every character of `s` is allowed in a literal pattern.
fn check_literal(s: &str) -> (r: bool)
    ensures
        r == is_literal_pattern(s@),
{
    let n = s.unicode_len();
    let mut i: usize = 0;
    while i < n
        invariant
            0 <= i <= n,
            n == s@.len(),
            forall|j: int| 0 <= j < i ==> literal_char(#[trigger] s@[j]),
        decreases n - i,
    {
        let c = s.get_char(i);
        let cu = c as u32;
        if !((cu >= 97 && cu <= 122) || (cu >= 48 && cu <= 57) || c == '-' || c == '.') {
            return false;
        }
        i = i + 1;
    }
    true
}

/// Tests whether every character of `s` is allowed in a wildcard pattern.
fn check_wildcard(s: &str) -> (r: bool)
    ensures
        r == is_wildcard_pattern(s@),
{
    let n = s.unicode_len();
    let mut i: usize = 0;
    while i < n
        invariant
            0 <= i <= n,
            n == s@.len(),
            forall|j: int| 0 <= j < i ==> literal_char(#[trigger] s@[j]) || s@[j] == '*',
        decreases n - i,
    {
        let c = s.get_char(i);
        let cu = c as u32;
        if !((cu >= 97 && cu <= 122) || (cu >= 48 && cu <= 57) || c == '-' || c == '.' || c == '*')
        {
            return false;
        }
        i = i + 1;
    }
    true
}

/// Builds the anchored regular-expression text of a wildcard pattern.
fn build_wildcard_regex(p: &str) -> (r: String)
    ensures
        r@ == wildcard_regex(p@),
{
    let mut out = String::new();
    push_char(&mut out, '^');
    let n = p.unicode_len();
    let mut i: usize = 0;
    while i < n
        invariant
            0 <= i <= n,
            n == p@.len(),
            out@ == seq!['^'] + wildcard_body(p@.take(i as int)),
        decreases n - i,
    {
        let c = p.get_char(i);
        if c == '.' {
            push_char(&mut out, '\\');
            push_char(&mut out, '.');
        } else if c == '*' {
            push_char(&mut out, '[');
            push_char(&mut out, '^');
            push_char(&mut out, '.');
            push_char(&mut out, ']');
            push_char(&mut out, '+');
        } else {
            push_char(&mut out, c);
        }
        proof {
            lemma_wildcard_body_snoc(p@, i as int);
            assert(out@ =~= seq!['^'] + wildcard_body(p@.take(i + 1)));
        }
        i = i + 1;
    }
    proof {
        assert(p@.take(n as int) =~= p@);
    }
    push_char(&mut out, '$');
    proof {
        assert(out@ =~= wildcard_regex(p@));
    }
    out
}

impl Host {
    /// Compiles a raw pattern string into a matcher, classifying it as a
    /// literal, a wildcard, or a raw regular expression.
    pub fn new(domain: &str) -> (r: Option<Host>)
        ensures
            r is Some <==> host_model_of(domain@) is Some,
            r is Some ==> r->0@ == host_model_of(domain@)->0,
    {
        if check_literal(domain) {
            return Some(Host { mode: MatchMode::Text(String::from_str(domain)) });
        }
        if check_wildcard(domain) {
            let pattern = build_wildcard_regex(domain);
            return match compile(pattern) {
                Some(c) => Some(Host { mode: MatchMode::Compiled(c) }),
                None => None,
            };
        }
        match compile(String::from_str(domain)) {
            Some(c) => Some(Host { mode: MatchMode::Compiled(c) }),
            None => None,
        }
    }

    /// Tests a candidate domain against the matcher. A literal matcher
    /// compares for exact equality; a compiled matcher applies its regular
    /// expression (anchored for wildcards, unanchored for raw patterns,
    /// since the anchoring sits in the pattern text itself).
    pub fn is_match(&self, domain: &str) -> (r: bool)
        ensures
            r == host_matches(self@, domain@),
    {
        match &self.mode {
            MatchMode::Text(text) => crate::text::str_eq(text.as_str(), domain),
            MatchMode::Compiled(c) => compiled_is_match(c, domain),
        }
    }

    /// The pattern text: the original string for a literal matcher, the
    /// compiled regular-expression text for the other two forms.
    pub fn as_str(&self) -> (r: &str)
        ensures
            r@ == (match self@ {
                HostModel::Literal { text } => text,
                HostModel::Compiled { pattern } => pattern,
            }),
    {
        match &self.mode {
            MatchMode::Text(text) => text.as_str(),
            MatchMode::Compiled(c) => c.text.as_str(),
        }
    }
}

} // verus!
