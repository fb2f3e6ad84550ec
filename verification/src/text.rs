//! Byte-level scanning: fixed patterns, decimal numbers and line ends.

use vstd::prelude::*;

verus! {

pub const LINE_FEED: u8 = 10;

pub const CARRIAGE_RETURN: u8 = 13;

pub const TAB: u8 = 9;

pub const DIGIT_ZERO: u8 = 48;

pub const DIGIT_NINE: u8 = 57;

/// The bytes of a text: its UTF-8 encoding.
pub open spec fn utf8(text: Seq<char>) -> Seq<u8> {
    vstd::utf8::encode_utf8(text)
}

/// Whether `b` is one of the ASCII digits `0` to `9`.
pub open spec fn is_digit(b: u8) -> bool {
    DIGIT_ZERO <= b <= DIGIT_NINE
}

/// Whether `pat` stands in `s` at index `i`.
pub open spec fn has_at(s: Seq<u8>, i: int, pat: Seq<u8>) -> bool {
    0 <= i && i + pat.len() <= s.len() && s.subrange(i, i + pat.len()) == pat
}

/// The index just behind the run of digits that starts at `i`; `i` itself
/// where no digit stands there.
pub open spec fn digits_end(s: Seq<u8>, i: int) -> int
    decreases s.len() - i,
{
    if 0 <= i < s.len() && is_digit(s[i]) {
        digits_end(s, i + 1)
    } else {
        i
    }
}

/// The number that a sequence of digits writes in base ten; 0 for none.
pub open spec fn decimal_value(digits: Seq<u8>) -> nat
    decreases digits.len(),
{
    if digits.len() == 0 {
        0
    } else {
        decimal_value(digits.drop_last()) * 10 + (digits.last() - DIGIT_ZERO) as nat
    }
}

/// The number written by the run of digits that starts at `i`.
pub open spec fn number_at(s: Seq<u8>, i: int) -> nat {
    decimal_value(s.subrange(i, digits_end(s, i)))
}

/// The index of the first occurrence of `b` at or behind `from`, or the
/// length of `s` where there is none.
pub open spec fn index_of_byte(s: Seq<u8>, from: int, b: u8) -> int
    decreases s.len() - from,
{
    if 0 <= from < s.len() && s[from] != b {
        index_of_byte(s, from + 1, b)
    } else {
        from
    }
}

/// The search for `b` from `from` ends at or behind `from`, inside `s`, on
/// the first `b` there is.
pub proof fn lemma_index_of_byte_bounds(s: Seq<u8>, from: int, b: u8)
    requires
        0 <= from <= s.len(),
    ensures
        from <= index_of_byte(s, from, b) <= s.len(),
        index_of_byte(s, from, b) < s.len() ==> s[index_of_byte(s, from, b)] == b,
        forall|k: int| from <= k < index_of_byte(s, from, b) ==> #[trigger] s[k] != b,
    decreases s.len() - from,
{
    if from < s.len() && s[from] != b {
        lemma_index_of_byte_bounds(s, from + 1, b);
    }
}

/// The run of digits that starts at `i` ends inside `s`, and holds digits only.
pub proof fn lemma_digits_end_bounds(s: Seq<u8>, i: int)
    requires
        0 <= i <= s.len(),
    ensures
        i <= digits_end(s, i) <= s.len(),
        forall|k: int| i <= k < digits_end(s, i) ==> is_digit(#[trigger] s[k]),
        digits_end(s, i) < s.len() ==> !is_digit(s[digits_end(s, i)]),
    decreases s.len() - i,
{
    if i < s.len() && is_digit(s[i]) {
        lemma_digits_end_bounds(s, i + 1);
    }
}

/// Whether `s` holds digits only.
pub open spec fn all_digits(s: Seq<u8>) -> bool {
    forall|k: int| 0 <= k < s.len() ==> is_digit(#[trigger] s[k])
}

/// Digits from `i` up to `j`, with no digit at `j`, are the run that starts
/// at `i`.
pub proof fn lemma_digits_end_of_run(s: Seq<u8>, i: int, j: int)
    requires
        0 <= i <= j <= s.len(),
        forall|k: int| i <= k < j ==> is_digit(#[trigger] s[k]),
        j == s.len() || !is_digit(s[j]),
    ensures
        digits_end(s, i) == j,
    decreases j - i,
{
    if i < j {
        lemma_digits_end_of_run(s, i + 1, j);
    }
}

/// A longer run of digits writes no smaller a number.
pub proof fn lemma_decimal_value_grows(digits: Seq<u8>, n: int)
    requires
        0 <= n <= digits.len(),
        forall|k: int| 0 <= k < digits.len() ==> is_digit(#[trigger] digits[k]),
    ensures
        decimal_value(digits.take(n)) <= decimal_value(digits),
    decreases digits.len() - n,
{
    if n == digits.len() {
        assert(digits.take(n) =~= digits);
    } else {
        lemma_decimal_value_grows(digits, n + 1);
        assert(digits.take(n + 1).drop_last() =~= digits.take(n));
    }
}

/// Whether `pat` stands in `s` at index `i`.
pub fn matches_at(s: &[u8], i: usize, pat: &[u8]) -> (r: bool)
    ensures
        r == has_at(s@, i as int, pat@),
{
    if i > s.len() || pat.len() > s.len() - i {
        return false;
    }
    let mut k: usize = 0;
    while k < pat.len()
        invariant
            i + pat.len() <= s.len(),
            k <= pat.len(),
            forall|j: int| 0 <= j < k ==> s@[i + j] == pat@[j],
        decreases pat.len() - k,
    {
        if s[i + k] != pat[k] {
            assert(s@.subrange(i as int, i + pat.len())[k as int] != pat@[k as int]);
            return false;
        }
        k += 1;
    }
    assert(s@.subrange(i as int, i + pat.len()) =~= pat@);
    true
}

/// Whether two byte strings are the same.
pub fn bytes_equal(a: &[u8], b: &[u8]) -> (r: bool)
    ensures
        r == (a@ == b@),
{
    if a.len() != b.len() {
        return false;
    }
    let mut k: usize = 0;
    while k < a.len()
        invariant
            a.len() == b.len(),
            k <= a.len(),
            forall|j: int| 0 <= j < k ==> a@[j] == b@[j],
        decreases a.len() - k,
    {
        if a[k] != b[k] {
            return false;
        }
        k += 1;
    }
    assert(a@ =~= b@);
    true
}

/// Whether two texts are the same, decided on their UTF-8 bytes.
pub fn text_equal(a: &str, b: &str) -> (r: bool)
    ensures
        r == (a@ == b@),
{
    let r = bytes_equal(a.as_bytes(), b.as_bytes());
    proof {
        vstd::utf8::encode_utf8_decode_utf8(a@);
        vstd::utf8::encode_utf8_decode_utf8(b@);
    }
    r
}

/// Reads the run of digits that starts at `i`: where it ends, and the number
/// it writes if that fits in 32 bits.
pub fn scan_number(s: &[u8], i: usize) -> (r: (usize, Option<u32>))
    requires
        i <= s@.len(),
    ensures
        r.0 == digits_end(s@, i as int),
        i <= r.0 <= s@.len(),
        r.1 == (if number_at(s@, i as int) <= u32::MAX {
            Some(number_at(s@, i as int) as u32)
        } else {
            None
        }),
{
    let ghost end = digits_end(s@, i as int);
    let ghost digits = s@.subrange(i as int, end);
    proof {
        lemma_digits_end_bounds(s@, i as int);
    }
    let mut k: usize = i;
    let mut acc: u64 = 0;
    let mut fits: bool = true;
    while k < s.len() && s[k] >= DIGIT_ZERO && s[k] <= DIGIT_NINE
        invariant
            i <= k <= end <= s@.len(),
            end == digits_end(s@, i as int),
            end == digits_end(s@, k as int),
            digits == s@.subrange(i as int, end),
            forall|j: int| 0 <= j < digits.len() ==> is_digit(#[trigger] digits[j]),
            fits ==> acc == decimal_value(digits.take(k - i)),
            fits ==> acc <= u32::MAX,
            !fits ==> decimal_value(digits) > u32::MAX,
        decreases s@.len() - k,
    {
        proof {
            lemma_digits_end_bounds(s@, k + 1);
        }
        if fits {
            let d: u64 = (s[k] - DIGIT_ZERO) as u64;
            acc = acc * 10 + d;
            proof {
                let longer = digits.take(k - i + 1);
                assert(longer.drop_last() =~= digits.take(k - i));
                assert(longer.last() == s@[k as int]);
                assert(acc == decimal_value(longer));
                lemma_decimal_value_grows(digits, k - i + 1);
            }
            if acc > 0xffff_ffff {
                fits = false;
            }
        }
        k += 1;
    }
    proof {
        assert(digits.take(k - i) =~= digits);
    }
    if fits {
        (k, Some(acc as u32))
    } else {
        (k, None)
    }
}

/// The index of the first `b` at or behind `from`, or the length of `s`.
pub fn find_byte(s: &[u8], from: usize, b: u8) -> (r: usize)
    requires
        from <= s@.len(),
    ensures
        r == index_of_byte(s@, from as int, b),
        from <= r <= s@.len(),
        r < s@.len() ==> s@[r as int] == b,
        forall|k: int| from <= k < r ==> s@[k] != b,
{
    let mut k: usize = from;
    while k < s.len() && s[k] != b
        invariant
            from <= k <= s@.len(),
            index_of_byte(s@, from as int, b) == index_of_byte(s@, k as int, b),
            forall|j: int| from <= j < k ==> s@[j] != b,
        decreases s@.len() - k,
    {
        k += 1;
    }
    k
}

} // verus!
