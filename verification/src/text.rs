//! Character-level scanning over strings: whitespace and digit classes,
//! first-occurrence scans, string equality, and decimal values. These are
//! the primitives the directive grammar is stated with.

use vstd::prelude::*;
use vstd::string::StrSliceExecFns;

verus! {

/// ASCII whitespace, as the directive grammar understands it.
pub open spec fn is_space(c: char) -> bool {
    c == ' ' || c == '\t' || c == '\n' || c == '\x0c' || c == '\r'
}

/// ASCII decimal digit.
pub open spec fn is_digit(c: char) -> bool {
    48 <= c as u32 && c as u32 <= 57
}

/// Numeric value of a decimal digit.
pub open spec fn digit_val(c: char) -> int {
    c as u32 - 48
}

/// Index of the first occurrence of `c` in `s` at or after `i`;
/// `s.len()` if there is none.
pub open spec fn scan_to_char(s: Seq<char>, i: int, c: char) -> int
    decreases s.len() - i,
{
    if i < 0 || i >= s.len() {
        s.len() as int
    } else if s[i] == c {
        i
    } else {
        scan_to_char(s, i + 1, c)
    }
}

/// Index of the first whitespace character in `s` at or after `i`;
/// `s.len()` if there is none.
pub open spec fn scan_to_space(s: Seq<char>, i: int) -> int
    decreases s.len() - i,
{
    if i < 0 || i >= s.len() {
        s.len() as int
    } else if is_space(s[i]) {
        i
    } else {
        scan_to_space(s, i + 1)
    }
}

/// Index of the first non-whitespace character in `s` at or after `i`;
/// `s.len()` if there is none.
pub open spec fn scan_to_nonspace(s: Seq<char>, i: int) -> int
    decreases s.len() - i,
{
    if i < 0 || i >= s.len() {
        s.len() as int
    } else if !is_space(s[i]) {
        i
    } else {
        scan_to_nonspace(s, i + 1)
    }
}

/// Scanning a suffix finds the same position, shifted.
pub proof fn lemma_scan_to_char_shift(s: Seq<char>, i: int, j: int, c: char)
    requires
        0 <= i,
        0 <= j,
        i + j <= s.len(),
    ensures
        scan_to_char(s.skip(i), j, c) == scan_to_char(s, i + j, c) - i,
    decreases s.len() - i - j,
{
    if i + j < s.len() && s[i + j] != c {
        lemma_scan_to_char_shift(s, i, j + 1, c);
    }
}

/// First index of `c` in `s` at or after `from`, or the length if absent.
pub fn find_char(s: &str, from: usize, c: char) -> (r: usize)
    requires
        from <= s@.len(),
    ensures
        r == scan_to_char(s@, from as int, c),
        from <= r <= s@.len(),
{
    let n = s.unicode_len();
    let mut i = from;
    while i < n
        invariant
            from <= i <= n,
            n == s@.len(),
            scan_to_char(s@, from as int, c) == scan_to_char(s@, i as int, c),
        decreases n - i,
    {
        if s.get_char(i) == c {
            return i;
        }
        i = i + 1;
    }
    i
}

/// First index of a whitespace character at or after `from`, or the length.
pub fn find_space(s: &str, from: usize) -> (r: usize)
    requires
        from <= s@.len(),
    ensures
        r == scan_to_space(s@, from as int),
        from <= r <= s@.len(),
{
    let n = s.unicode_len();
    let mut i = from;
    while i < n
        invariant
            from <= i <= n,
            n == s@.len(),
            scan_to_space(s@, from as int) == scan_to_space(s@, i as int),
        decreases n - i,
    {
        let ch = s.get_char(i);
        if ch == ' ' || ch == '\t' || ch == '\n' || ch == '\x0c' || ch == '\r' {
            return i;
        }
        i = i + 1;
    }
    i
}

/// First index of a non-whitespace character at or after `from`, or the length.
pub fn find_nonspace(s: &str, from: usize) -> (r: usize)
    requires
        from <= s@.len(),
    ensures
        r == scan_to_nonspace(s@, from as int),
        from <= r <= s@.len(),
{
    let n = s.unicode_len();
    let mut i = from;
    while i < n
        invariant
            from <= i <= n,
            n == s@.len(),
            scan_to_nonspace(s@, from as int) == scan_to_nonspace(s@, i as int),
        decreases n - i,
    {
        let ch = s.get_char(i);
        if !(ch == ' ' || ch == '\t' || ch == '\n' || ch == '\x0c' || ch == '\r') {
            return i;
        }
        i = i + 1;
    }
    i
}

/// Character-for-character string equality.
pub fn str_eq(a: &str, b: &str) -> (r: bool)
    ensures
        r == (a@ == b@),
{
    let na = a.unicode_len();
    let nb = b.unicode_len();
    if na != nb {
        return false;
    }
    let mut i: usize = 0;
    while i < na
        invariant
            0 <= i <= na,
            na == a@.len(),
            na == b@.len(),
            forall|j: int| 0 <= j < i ==> a@[j] == b@[j],
        decreases na - i,
    {
        if a.get_char(i) != b.get_char(i) {
            return false;
        }
        i = i + 1;
    }
    proof {
        assert(a@ =~= b@);
    }
    true
}

/// Relies on String::push: appends the given character to the string.
#[verifier::external_body]
pub fn push_char(s: &mut String, c: char)
    ensures
        final(s)@ == old(s)@ + seq![c],
{
    s.push(c);
}

/// All characters of `s` are decimal digits.
pub open spec fn all_digits(s: Seq<char>) -> bool {
    forall|i: int| 0 <= i < s.len() ==> is_digit(#[trigger] s[i])
}

/// Value of a digit string read in base 10.
pub open spec fn dec_val(s: Seq<char>) -> int
    decreases s.len(),
{
    if s.len() == 0 {
        0
    } else {
        dec_val(s.drop_last()) * 10 + digit_val(s.last())
    }
}

pub proof fn lemma_dec_val_nonneg(s: Seq<char>)
    requires
        all_digits(s),
    ensures
        dec_val(s) >= 0,
    decreases s.len(),
{
    if s.len() > 0 {
        assert(all_digits(s.drop_last()));
        lemma_dec_val_nonneg(s.drop_last());
    }
}

/// A digit string's value only grows as more digits are read.
pub proof fn lemma_dec_val_prefix(s: Seq<char>, k: int)
    requires
        all_digits(s),
        0 <= k <= s.len(),
    ensures
        dec_val(s.take(k)) <= dec_val(s),
    decreases s.len() - k,
{
    if k == s.len() {
        assert(s.take(k) =~= s);
    } else {
        lemma_dec_val_prefix(s, k + 1);
        assert(s.take(k + 1).drop_last() =~= s.take(k));
        assert(all_digits(s.take(k)));
        lemma_dec_val_nonneg(s.take(k));
        assert(dec_val(s.take(k + 1)) == dec_val(s.take(k)) * 10 + digit_val(s.take(k + 1).last()));
        assert(is_digit(s[k]));
    }
}

/// The digit part of an unsigned decimal token: an optional leading plus
/// sign is dropped.
pub open spec fn u64_digits(s: Seq<char>) -> Seq<char> {
    if s.len() > 0 && s[0] == '+' {
        s.drop_first()
    } else {
        s
    }
}

/// A token read as an unsigned 64-bit decimal integer: one or more digits,
/// optionally preceded by a plus sign, whose value fits; leading zeros are
/// allowed.
pub open spec fn valid_u64(s: Seq<char>) -> bool {
    u64_digits(s).len() >= 1 && all_digits(u64_digits(s)) && dec_val(u64_digits(s)) <= u64::MAX
}

pub open spec fn spec_parse_u64(s: Seq<char>) -> Option<u64> {
    if valid_u64(s) {
        Some(dec_val(u64_digits(s)) as u64)
    } else {
        None
    }
}

/// Parses a token as an unsigned decimal integer.
pub fn parse_u64(s: &str) -> (r: Option<u64>)
    ensures
        r == spec_parse_u64(s@),
{
    let n = s.unicode_len();
    let start: usize = if n > 0 && s.get_char(0) == '+' {
        1
    } else {
        0
    };
    let ghost t = u64_digits(s@);
    proof {
        assert(t =~= s@.skip(start as int));
    }
    if n == start {
        return None;
    }
    let mut val: u64 = 0;
    let mut i: usize = start;
    while i < n
        invariant
            start <= i <= n,
            n == s@.len(),
            t == u64_digits(s@),
            t =~= s@.skip(start as int),
            forall|j: int| 0 <= j < i - start ==> is_digit(#[trigger] t[j]),
            val == dec_val(t.take(i - start)),
        decreases n - i,
    {
        let cu = s.get_char(i) as u32;
        proof {
            assert(t[i - start] == s@[i as int]);
        }
        if !(cu >= 48 && cu <= 57) {
            proof {
                assert(!is_digit(t[i - start]));
                assert(!all_digits(t));
            }
            return None;
        }
        let d: u64 = (cu - 48) as u64;
        proof {
            assert(t.take(i - start + 1).drop_last() =~= t.take(i - start));
            assert(t.take(i - start + 1).last() == t[i - start]);
            assert(forall|j: int| 0 <= j < i - start + 1 ==> is_digit(#[trigger] t[j]));
        }
        if val > (u64::MAX - d) / 10 {
            proof {
                assert(dec_val(t.take(i - start + 1)) == val * 10 + d);
                assert(val >= (u64::MAX - d) / 10 + 1);
                assert(((u64::MAX - d) / 10 + 1) * 10 > u64::MAX - d) by (nonlinear_arith);
                assert(val * 10 >= ((u64::MAX - d) / 10 + 1) * 10) by (nonlinear_arith)
                    requires
                        val >= (u64::MAX - d) / 10 + 1,
                ;
                assert(dec_val(t.take(i - start + 1)) > u64::MAX);
                if all_digits(t) {
                    lemma_dec_val_prefix(t, i - start + 1);
                    assert(dec_val(t) > u64::MAX);
                }
            }
            return None;
        }
        proof {
            assert(val <= (u64::MAX - d) / 10);
            assert(val * 10 <= ((u64::MAX - d) / 10) * 10) by (nonlinear_arith)
                requires
                    val <= (u64::MAX - d) / 10,
            ;
            assert(((u64::MAX - d) / 10) * 10 <= u64::MAX - d) by (nonlinear_arith);
        }
        val = val * 10 + d;
        i = i + 1;
    }
    proof {
        assert(t.take(n - start) =~= t);
    }
    Some(val)
}

/// A bounded decimal field: digits only, no leading zero unless the token is
/// exactly `0`, value at most `bound`. This is the shape of the octet and
/// port fields of an address.
pub open spec fn valid_field(s: Seq<char>, bound: int) -> bool {
    &&& s.len() >= 1
    &&& all_digits(s)
    &&& (s.len() > 1 ==> s[0] != '0')
    &&& dec_val(s) <= bound
}

/// Parses a bounded decimal field.
pub fn parse_field(s: &str, bound: u64) -> (r: Option<u64>)
    requires
        bound <= 65535,
    ensures
        r is Some <==> valid_field(s@, bound as int),
        r is Some ==> r->0 == dec_val(s@),
{
    let n = s.unicode_len();
    if n == 0 {
        return None;
    }
    if n > 1 && s.get_char(0) == '0' {
        return None;
    }
    let mut val: u64 = 0;
    let mut i: usize = 0;
    while i < n
        invariant
            0 <= i <= n,
            n == s@.len(),
            forall|j: int| 0 <= j < i ==> is_digit(#[trigger] s@[j]),
            val == dec_val(s@.take(i as int)),
            val <= bound,
            bound <= 65535,
        decreases n - i,
    {
        let cu = s.get_char(i) as u32;
        if !(cu >= 48 && cu <= 57) {
            proof {
                assert(!is_digit(s@[i as int]));
                assert(!all_digits(s@));
            }
            return None;
        }
        let d: u64 = (cu - 48) as u64;
        proof {
            assert(s@.take(i + 1).drop_last() =~= s@.take(i as int));
            assert(s@.take(i + 1).last() == s@[i as int]);
            assert(forall|j: int| 0 <= j < i + 1 ==> is_digit(#[trigger] s@[j]));
        }
        let next: u64 = val * 10 + d;
        proof {
            assert(dec_val(s@.take(i + 1)) == val * 10 + d);
        }
        if next > bound {
            proof {
                if all_digits(s@) {
                    lemma_dec_val_prefix(s@, i + 1);
                }
            }
            return None;
        }
        val = next;
        i = i + 1;
    }
    proof {
        assert(s@.take(n as int) =~= s@);
    }
    Some(val)
}

} // verus!
