//! Verified text utilities: character-level prefix, substring and equality
//! tests, Unicode-aware trimming and lower-casing, and decimal parsing.
//!
//! All comparisons are over sequences of Unicode scalar values (`Seq<char>`,
//! the view of `str`), never over bytes.

use vstd::prelude::*;
use vstd::string::StrSliceExecFns;

verus! {

/// `p` is a prefix of `s`, character for character.
pub open spec fn seq_starts_with(s: Seq<char>, p: Seq<char>) -> bool {
    p.len() <= s.len() && s.subrange(0, p.len() as int) == p
}

/// `sub` occurs in `s` starting at character position `k`.
pub open spec fn seq_contains_at(s: Seq<char>, sub: Seq<char>, k: int) -> bool {
    0 <= k && k + sub.len() <= s.len() && s.subrange(k, k + sub.len()) == sub
}

/// `sub` occurs somewhere in `s`.
pub open spec fn seq_contains(s: Seq<char>, sub: Seq<char>) -> bool {
    exists|k: int| seq_contains_at(s, sub, k)
}

/// What `char::is_whitespace` returns; a fixed property of the character.
pub uninterp spec fn is_white_char(c: char) -> bool;

/// What `str::to_lowercase` returns; a function of the characters alone.
pub uninterp spec fn lower_of(s: Seq<char>) -> Seq<char>;

/// `s` with leading whitespace characters removed.
pub open spec fn trim_start_spec(s: Seq<char>) -> Seq<char>
    decreases s.len(),
{
    if s.len() > 0 && is_white_char(s[0]) {
        trim_start_spec(s.drop_first())
    } else {
        s
    }
}

/// `s` with trailing whitespace characters removed.
pub open spec fn trim_end_spec(s: Seq<char>) -> Seq<char>
    decreases s.len(),
{
    if s.len() > 0 && is_white_char(s.last()) {
        trim_end_spec(s.drop_last())
    } else {
        s
    }
}

/// `s` with both leading and trailing whitespace removed, as `str::trim`.
pub open spec fn trim_spec(s: Seq<char>) -> Seq<char> {
    trim_end_spec(trim_start_spec(s))
}

/// Relies on `char::is_whitespace`: the Unicode `White_Space` property of
/// the character, a pure function of `c`.
#[verifier::external_body]
pub fn char_is_whitespace(c: char) -> (r: bool)
    ensures
        r == is_white_char(c),
{
    c.is_whitespace()
}

/// Relies on `str::to_lowercase`: the Unicode lowercase mapping of the
/// string, a function of its characters alone.
#[verifier::external_body]
pub fn to_lowercase(s: &str) -> (r: String)
    ensures
        r@ == lower_of(s@),
{
    s.to_lowercase()
}

/// Character-level prefix test: does `s` start with `p`?
pub fn str_starts_with(s: &str, p: &str) -> (r: bool)
    ensures
        r == seq_starts_with(s@, p@),
{
    let n = p.unicode_len();
    let m = s.unicode_len();
    if n > m {
        return false;
    }
    let mut i: usize = 0;
    while i < n
        invariant
            0 <= i <= n,
            n <= m,
            n == p@.len(),
            m == s@.len(),
            forall|j: int| 0 <= j < i ==> s@[j] == p@[j],
        decreases n - i,
    {
        if s.get_char(i) != p.get_char(i) {
            assert(s@.subrange(0, n as int)[i as int] == s@[i as int]);
            return false;
        }
        i += 1;
    }
    assert(s@.subrange(0, n as int) =~= p@);
    true
}

/// Character-level equality of two string slices.
pub fn str_eq(a: &str, b: &str) -> (r: bool)
    ensures
        r == (a@ == b@),
{
    let n = a.unicode_len();
    if n != b.unicode_len() {
        return false;
    }
    let mut i: usize = 0;
    while i < n
        invariant
            0 <= i <= n,
            n == a@.len(),
            n == b@.len(),
            forall|j: int| 0 <= j < i ==> a@[j] == b@[j],
        decreases n - i,
    {
        if a.get_char(i) != b.get_char(i) {
            return false;
        }
        i += 1;
    }
    assert(a@ =~= b@);
    true
}

/// Does `sub` occur in `s` starting at character position `k`?
fn matches_at(s: &str, sub: &str, k: usize) -> (r: bool)
    requires
        k + sub@.len() <= s@.len(),
    ensures
        r == seq_contains_at(s@, sub@, k as int),
{
    let n = sub.unicode_len();
    let m = s.unicode_len();
    let mut i: usize = 0;
    while i < n
        invariant
            0 <= i <= n,
            n == sub@.len(),
            m == s@.len(),
            k + n <= m,
            forall|j: int| 0 <= j < i ==> s@[k + j] == sub@[j],
        decreases n - i,
    {
        if s.get_char(k + i) != sub.get_char(i) {
            assert(s@.subrange(k as int, k + n)[i as int] == s@[k + i]);
            return false;
        }
        i += 1;
    }
    assert(s@.subrange(k as int, k + n) =~= sub@);
    true
}

/// Character-level substring test: does `sub` occur anywhere in `s`?
pub fn str_contains(s: &str, sub: &str) -> (r: bool)
    ensures
        r == seq_contains(s@, sub@),
{
    let n = sub.unicode_len();
    let m = s.unicode_len();
    if n > m {
        assert(forall|k: int| !seq_contains_at(s@, sub@, k));
        return false;
    }
    if n == 0 {
        assert(s@.subrange(0, 0) =~= sub@);
        assert(seq_contains_at(s@, sub@, 0));
        return true;
    }
    let mut k: usize = 0;
    while k <= m - n
        invariant
            0 <= k <= m - n + 1,
            0 < n <= m,
            n == sub@.len(),
            m == s@.len(),
            forall|j: int| 0 <= j < k ==> !seq_contains_at(s@, sub@, j),
        decreases m - n + 1 - k,
    {
        if matches_at(s, sub, k) {
            assert(seq_contains_at(s@, sub@, k as int));
            return true;
        }
        k += 1;
    }
    assert(forall|j: int| j > m - n ==> !seq_contains_at(s@, sub@, j));
    false
}

/// An ASCII decimal digit.
pub open spec fn is_dec_digit(c: char) -> bool {
    '0' <= c && c <= '9'
}

/// The numeric value of one digit.
pub open spec fn digit_value(c: char) -> int {
    c as int - '0' as int
}

/// Every character of `s` is a decimal digit.
pub open spec fn all_dec_digits(s: Seq<char>) -> bool {
    forall|i: int| 0 <= i < s.len() ==> is_dec_digit(#[trigger] s[i])
}

/// The value of a digit string read in base ten.
pub open spec fn digits_value(s: Seq<char>) -> int
    decreases s.len(),
{
    if s.len() == 0 {
        0int
    } else {
        digits_value(s.drop_last()) * 10 + digit_value(s.last())
    }
}

/// What `str::parse::<u32>` accepts: an optional leading `+`, then one or
/// more decimal digits whose value fits in 32 bits.
pub open spec fn parse_u32_spec(s: Seq<char>) -> Option<u32> {
    let body = if s.len() > 0 && s[0] == '+' {
        s.drop_first()
    } else {
        s
    };
    if body.len() > 0 && all_dec_digits(body) && digits_value(body) <= u32::MAX {
        Some(digits_value(body) as u32)
    } else {
        None
    }
}

proof fn lemma_digits_value_nonneg(s: Seq<char>)
    requires
        all_dec_digits(s),
    ensures
        digits_value(s) >= 0,
    decreases s.len(),
{
    if s.len() > 0 {
        assert(all_dec_digits(s.drop_last()));
        lemma_digits_value_nonneg(s.drop_last());
    }
}

proof fn lemma_digits_value_monotonic(s: Seq<char>, n: int)
    requires
        all_dec_digits(s),
        0 <= n <= s.len(),
    ensures
        digits_value(s.take(n)) <= digits_value(s),
    decreases s.len() - n,
{
    if n < s.len() {
        lemma_digits_value_monotonic(s, n + 1);
        let t = s.take(n + 1);
        assert(t.drop_last() =~= s.take(n));
        assert(all_dec_digits(s.take(n)));
        lemma_digits_value_nonneg(s.take(n));
        assert(digits_value(t) == digits_value(s.take(n)) * 10 + digit_value(s[n]));
    } else {
        assert(s.take(n) =~= s);
    }
}

/// Parse a decimal `u32` as `str::parse` does: an optional leading `+`,
/// then at least one digit; anything else, or a value over `u32::MAX`,
/// is rejected.
pub fn parse_u32(s: &str) -> (r: Option<u32>)
    ensures
        r == parse_u32_spec(s@),
{
    let len = s.unicode_len();
    let start: usize = if len > 0 && s.get_char(0) == '+' {
        1
    } else {
        0
    };
    let ghost body = if s@.len() > 0 && s@[0] == '+' {
        s@.drop_first()
    } else {
        s@
    };
    proof {
        assert(body =~= s@.subrange(start as int, len as int));
    }
    if start == len {
        return None;
    }
    let mut acc: u32 = 0;
    let mut i: usize = start;
    while i < len
        invariant
            start <= i <= len,
            len == s@.len(),
            start < len,
            body == (if s@.len() > 0 && s@[0] == '+' {
                s@.drop_first()
            } else {
                s@
            }),
            body == s@.subrange(start as int, len as int),
            all_dec_digits(body.take(i - start)),
            acc == digits_value(body.take(i - start)),
        decreases len - i,
    {
        let c = s.get_char(i);
        proof {
            assert(body.take(i + 1 - start).drop_last() =~= body.take(i - start));
            assert(body.take(i + 1 - start).last() == s@[i as int]);
        }
        if !(c >= '0' && c <= '9') {
            assert(!all_dec_digits(body)) by {
                assert(body[i - start] == c);
            }
            return None;
        }
        let d = (c as u32) - ('0' as u32);
        if acc > (u32::MAX - d) / 10 {
            assert(acc * 10 + d > u32::MAX) by {
                vstd::arithmetic::div_mod::lemma_fundamental_div_mod((u32::MAX - d) as int, 10);
            }
            proof {
                if all_dec_digits(body) {
                    assert(digits_value(body.take(i + 1 - start)) == acc * 10 + d);
                    lemma_digits_value_monotonic(body, i + 1 - start);
                    assert(digits_value(body) > u32::MAX);
                }
            }
            return None;
        }
        proof {
            vstd::arithmetic::div_mod::lemma_fundamental_div_mod((u32::MAX - d) as int, 10);
        }
        acc = acc * 10 + d;
        i += 1;
    }
    proof {
        assert(body.take(len - start) =~= body);
    }
    Some(acc)
}

proof fn lemma_trim_start_scan(s: Seq<char>, i: int)
    requires
        0 <= i <= s.len(),
        forall|j: int| 0 <= j < i ==> is_white_char(s[j]),
        i == s.len() || !is_white_char(s[i]),
    ensures
        trim_start_spec(s) == s.subrange(i, s.len() as int),
    decreases i,
{
    if i == 0 {
        assert(s.subrange(0, s.len() as int) =~= s);
    } else {
        assert(is_white_char(s[0]));
        lemma_trim_start_scan(s.drop_first(), i - 1);
        assert(s.drop_first().subrange(i - 1, s.drop_first().len() as int) =~= s.subrange(
            i,
            s.len() as int,
        ));
    }
}

proof fn lemma_trim_end_scan(s: Seq<char>, e: int)
    requires
        0 <= e <= s.len(),
        forall|j: int| e <= j < s.len() ==> is_white_char(s[j]),
        e == 0 || !is_white_char(s[e - 1]),
    ensures
        trim_end_spec(s) == s.subrange(0, e),
    decreases s.len() - e,
{
    if e == s.len() {
        if s.len() > 0 && is_white_char(s.last()) {
            assert(false);
        }
        assert(s.subrange(0, e) =~= s);
    } else {
        assert(is_white_char(s.last()));
        lemma_trim_end_scan(s.drop_last(), e);
        assert(s.drop_last().subrange(0, e) =~= s.subrange(0, e));
    }
}

/// `str::trim`, reimplemented over characters: drops leading and trailing
/// Unicode whitespace.
pub fn str_trim(s: &str) -> (r: &str)
    ensures
        r@ == trim_spec(s@),
{
    let len = s.unicode_len();
    let mut start: usize = 0;
    while start < len && char_is_whitespace(s.get_char(start))
        invariant
            0 <= start <= len,
            len == s@.len(),
            forall|j: int| 0 <= j < start ==> is_white_char(s@[j]),
        decreases len - start,
    {
        start += 1;
    }
    let mut end: usize = len;
    while end > start && char_is_whitespace(s.get_char(end - 1))
        invariant
            start <= end <= len,
            len == s@.len(),
            forall|j: int| 0 <= j < start ==> is_white_char(s@[j]),
            start == len || !is_white_char(s@[start as int]),
            forall|j: int| end <= j < len ==> is_white_char(s@[j]),
        decreases end,
    {
        end -= 1;
    }
    proof {
        lemma_trim_start_scan(s@, start as int);
        let t = s@.subrange(start as int, len as int);
        lemma_trim_end_scan(t, end - start);
        assert(t.subrange(0, end - start) =~= s@.subrange(start as int, end as int));
    }
    s.substring_char(start, end)
}

} // verus!
