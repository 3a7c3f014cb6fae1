//! Byte-level text helpers: searching, whitespace trimming and decimal numbers.
//!
//! Input arrives as UTF-8 bytes. The newline, the space, the tags and the digits are
//! ASCII, and an ASCII byte never occurs inside the encoding of another character, so
//! the helpers work on the bytes directly; white space beyond ASCII is recognised by
//! its encoding.
use vstd::prelude::*;

verus! {

/// Index of the first `c` in `s`.
pub open spec fn first_index(s: Seq<u8>, c: u8) -> Option<int>
    decreases s.len(),
{
    if s.len() == 0 {
        None
    } else if s[0] == c {
        Some(0)
    } else {
        match first_index(s.drop_first(), c) {
            Some(i) => Some(i + 1),
            None => None,
        }
    }
}

pub proof fn lemma_first_index(s: Seq<u8>, c: u8, i: int)
    requires
        0 <= i < s.len(),
        s[i] == c,
        forall|j: int| 0 <= j < i ==> s[j] != c,
    ensures
        first_index(s, c) == Some(i),
    decreases i,
{
    if i > 0 {
        lemma_first_index(s.drop_first(), c, i - 1);
    }
}

pub proof fn lemma_no_index(s: Seq<u8>, c: u8)
    requires
        forall|j: int| 0 <= j < s.len() ==> s[j] != c,
    ensures
        first_index(s, c) is None,
    decreases s.len(),
{
    if s.len() > 0 {
        lemma_no_index(s.drop_first(), c);
    }
}

pub proof fn lemma_first_index_meaning(s: Seq<u8>, c: u8)
    ensures
        match first_index(s, c) {
            Some(i) => 0 <= i < s.len() && s[i] == c && forall|j: int| 0 <= j < i ==> s[j] != c,
            None => forall|j: int| 0 <= j < s.len() ==> s[j] != c,
        },
    decreases s.len(),
{
    if s.len() > 0 {
        lemma_first_index_meaning(s.drop_first(), c);
        assert forall|j: int| 1 <= j < s.len() implies s[j] == s.drop_first()[j - 1] by {}
    }
}

/// Finds the first `c` in `s[lo..hi]`.
pub fn find_byte(s: &[u8], lo: usize, hi: usize, c: u8) -> (r: Option<usize>)
    requires
        lo <= hi <= s@.len(),
    ensures
        match r {
            Some(i) => lo <= i < hi && first_index(s@.subrange(lo as int, hi as int), c) == Some(
                i - lo,
            ),
            None => first_index(s@.subrange(lo as int, hi as int), c) is None,
        },
{
    let mut i: usize = lo;
    while i < hi
        invariant
            lo <= i <= hi <= s@.len(),
            forall|j: int| lo <= j < i ==> s@[j] != c,
        decreases hi - i,
    {
        if s[i] == c {
            proof {
                lemma_first_index(s@.subrange(lo as int, hi as int), c, i - lo);
            }
            return Some(i);
        }
        i = i + 1;
    }
    proof {
        lemma_no_index(s@.subrange(lo as int, hi as int), c);
    }
    None
}

/// The single-byte characters that Unicode counts as white space.
pub open spec fn is_ascii_space(b: u8) -> bool {
    b == 0x20 || (0x09 <= b && b <= 0x0d)
}

/// The three-byte encodings of white space: U+1680, U+2000 to U+200A, U+2028, U+2029,
/// U+202F, U+205F and U+3000.
pub open spec fn is_wide_space(a: u8, b: u8, c: u8) -> bool {
    (a == 0xe1 && b == 0x9a && c == 0x80) || (a == 0xe2 && b == 0x80 && ((0x80 <= c && c
        <= 0x8a) || c == 0xa8 || c == 0xa9 || c == 0xaf)) || (a == 0xe2 && b == 0x81 && c
        == 0x9f) || (a == 0xe3 && b == 0x80 && c == 0x80)
}

/// The two-byte encodings of white space: U+0085 and U+00A0.
pub open spec fn is_narrow_space(a: u8, b: u8) -> bool {
    a == 0xc2 && (b == 0x85 || b == 0xa0)
}

/// Length in bytes of the white-space character that `s` starts with, or 0.
pub open spec fn space_prefix(s: Seq<u8>) -> int {
    if s.len() >= 1 && is_ascii_space(s[0]) {
        1
    } else if s.len() >= 2 && is_narrow_space(s[0], s[1]) {
        2
    } else if s.len() >= 3 && is_wide_space(s[0], s[1], s[2]) {
        3
    } else {
        0
    }
}

/// Length in bytes of the white-space character that `s` ends with, or 0.
pub open spec fn space_suffix(s: Seq<u8>) -> int {
    let n = s.len() as int;
    if n >= 1 && is_ascii_space(s[n - 1]) {
        1
    } else if n >= 2 && is_narrow_space(s[n - 2], s[n - 1]) {
        2
    } else if n >= 3 && is_wide_space(s[n - 3], s[n - 2], s[n - 1]) {
        3
    } else {
        0
    }
}

/// `s` without its leading white space.
pub open spec fn trim_start(s: Seq<u8>) -> Seq<u8>
    decreases s.len(),
{
    if space_prefix(s) > 0 {
        trim_start(s.skip(space_prefix(s)))
    } else {
        s
    }
}

/// `s` without its trailing white space.
pub open spec fn trim_end(s: Seq<u8>) -> Seq<u8>
    decreases s.len(),
{
    if space_suffix(s) > 0 {
        trim_end(s.take(s.len() - space_suffix(s)))
    } else {
        s
    }
}

/// `s` without leading and trailing white space.
pub open spec fn trim(s: Seq<u8>) -> Seq<u8> {
    trim_end(trim_start(s))
}

fn space_prefix_at(s: &[u8], lo: usize, hi: usize) -> (n: usize)
    requires
        lo <= hi <= s@.len(),
    ensures
        n == space_prefix(s@.subrange(lo as int, hi as int)),
{
    let len = hi - lo;
    if len >= 1 && (s[lo] == 0x20 || (0x09 <= s[lo] && s[lo] <= 0x0d)) {
        1
    } else if len >= 2 && s[lo] == 0xc2 && (s[lo + 1] == 0x85 || s[lo + 1] == 0xa0) {
        2
    } else if len >= 3 && is_wide_space_exec(s[lo], s[lo + 1], s[lo + 2]) {
        3
    } else {
        0
    }
}

fn space_suffix_at(s: &[u8], lo: usize, hi: usize) -> (n: usize)
    requires
        lo <= hi <= s@.len(),
    ensures
        n == space_suffix(s@.subrange(lo as int, hi as int)),
{
    let len = hi - lo;
    if len >= 1 && (s[hi - 1] == 0x20 || (0x09 <= s[hi - 1] && s[hi - 1] <= 0x0d)) {
        1
    } else if len >= 2 && s[hi - 2] == 0xc2 && (s[hi - 1] == 0x85 || s[hi - 1] == 0xa0) {
        2
    } else if len >= 3 && is_wide_space_exec(s[hi - 3], s[hi - 2], s[hi - 1]) {
        3
    } else {
        0
    }
}

fn is_wide_space_exec(a: u8, b: u8, c: u8) -> (r: bool)
    ensures
        r == is_wide_space(a, b, c),
{
    (a == 0xe1 && b == 0x9a && c == 0x80) || (a == 0xe2 && b == 0x80 && ((0x80 <= c && c
        <= 0x8a) || c == 0xa8 || c == 0xa9 || c == 0xaf)) || (a == 0xe2 && b == 0x81 && c
        == 0x9f) || (a == 0xe3 && b == 0x80 && c == 0x80)
}

/// Bounds of `s[lo..hi]` without its leading and trailing white space.
pub fn trim_bounds(s: &[u8], lo: usize, hi: usize) -> (r: (usize, usize))
    requires
        lo <= hi <= s@.len(),
    ensures
        lo <= r.0 <= r.1 <= hi,
        s@.subrange(r.0 as int, r.1 as int) == trim(s@.subrange(lo as int, hi as int)),
{
    let mut a: usize = lo;
    loop
        invariant
            lo <= a <= hi <= s@.len(),
            trim_start(s@.subrange(lo as int, hi as int)) == trim_start(
                s@.subrange(a as int, hi as int),
            ),
        ensures
            lo <= a <= hi,
            trim_start(s@.subrange(lo as int, hi as int)) == s@.subrange(a as int, hi as int),
        decreases hi - a,
    {
        let k = space_prefix_at(s, a, hi);
        if k == 0 {
            break;
        }
        proof {
            assert(s@.subrange(a as int, hi as int).skip(k as int) =~= s@.subrange(
                a + k,
                hi as int,
            ));
        }
        a = a + k;
    }
    let mut b: usize = hi;
    loop
        invariant
            lo <= a <= b <= hi <= s@.len(),
            trim_end(s@.subrange(a as int, hi as int)) == trim_end(
                s@.subrange(a as int, b as int),
            ),
        ensures
            a <= b <= hi,
            trim_end(s@.subrange(a as int, hi as int)) == s@.subrange(a as int, b as int),
        decreases b - a,
    {
        let k = space_suffix_at(s, a, b);
        if k == 0 {
            break;
        }
        proof {
            let t = s@.subrange(a as int, b as int);
            assert(t.take(t.len() - k) =~= s@.subrange(a as int, b - k));
        }
        b = b - k;
    }
    (a, b)
}

/// Whether every byte of `s` is an ASCII digit.
pub open spec fn all_digits(s: Seq<u8>) -> bool {
    forall|i: int| 0 <= i < s.len() ==> 0x30 <= #[trigger] s[i] && s[i] <= 0x39
}

/// The number that the ASCII digits `s` spell in decimal.
pub open spec fn digits_value(s: Seq<u8>) -> int
    decreases s.len(),
{
    if s.len() == 0 {
        0
    } else {
        digits_value(s.drop_last()) * 10 + (s.last() - 0x30)
    }
}

/// `s` without one leading `+`.
pub open spec fn unsigned_digits(s: Seq<u8>) -> Seq<u8> {
    if s.len() > 0 && s[0] == 0x2b {
        s.drop_first()
    } else {
        s
    }
}

/// An unsigned 64-bit decimal number: an optional `+` and at least one ASCII digit,
/// with a value that fits in 64 bits.
pub open spec fn parse_decimal(s: Seq<u8>) -> Option<u64> {
    let d = unsigned_digits(s);
    if d.len() > 0 && all_digits(d) && digits_value(d) <= u64::MAX {
        Some(digits_value(d) as u64)
    } else {
        None
    }
}

proof fn lemma_digits_grow(s: Seq<u8>, i: int)
    requires
        all_digits(s),
        0 <= i <= s.len(),
    ensures
        digits_value(s.take(i)) <= digits_value(s),
    decreases s.len(),
{
    if i < s.len() {
        let t = s.drop_last();
        assert(all_digits(t)) by {
            assert forall|j: int| 0 <= j < t.len() implies 0x30 <= #[trigger] t[j] && t[j]
                <= 0x39 by {
                assert(t[j] == s[j]);
            }
        }
        lemma_digits_grow(t, i);
        assert(t.take(i) =~= s.take(i));
        assert(digits_value(t) >= 0) by {
            lemma_digits_nonneg(t);
        }
    } else {
        assert(s.take(i) =~= s);
    }
}

proof fn lemma_digits_nonneg(s: Seq<u8>)
    requires
        all_digits(s),
    ensures
        digits_value(s) >= 0,
    decreases s.len(),
{
    if s.len() > 0 {
        let t = s.drop_last();
        assert(all_digits(t)) by {
            assert forall|j: int| 0 <= j < t.len() implies 0x30 <= #[trigger] t[j] && t[j]
                <= 0x39 by {
                assert(t[j] == s[j]);
            }
        }
        lemma_digits_nonneg(t);
    }
}

/// Reads `s[lo..hi]` as an unsigned 64-bit decimal number.
pub fn parse_decimal_at(s: &[u8], lo: usize, hi: usize) -> (r: Option<u64>)
    requires
        lo <= hi <= s@.len(),
    ensures
        r == parse_decimal(s@.subrange(lo as int, hi as int)),
{
    let ghost whole = s@.subrange(lo as int, hi as int);
    let mut start: usize = lo;
    if lo < hi && s[lo] == 0x2b {
        start = lo + 1;
    }
    let ghost d = s@.subrange(start as int, hi as int);
    assert(unsigned_digits(whole) =~= d);
    if start == hi {
        return None;
    }
    let mut value: u64 = 0;
    let mut i: usize = start;
    while i < hi
        invariant
            lo <= start <= i <= hi <= s@.len(),
            d == s@.subrange(start as int, hi as int),
            whole == s@.subrange(lo as int, hi as int),
            unsigned_digits(whole) == d,
            all_digits(d.take(i - start)),
            value == digits_value(d.take(i - start)),
        decreases hi - i,
    {
        let b = s[i];
        proof {
            let k = i - start;
            assert(d.take(k + 1).drop_last() =~= d.take(k));
            assert(d.take(k + 1).last() == b);
        }
        if b < 0x30 || b > 0x39 {
            assert(d[i - start] == b);
            return None;
        }
        let next = match value.checked_mul(10) {
            Some(v) => v.checked_add((b - 0x30) as u64),
            None => None,
        };
        match next {
            Some(v) => {
                proof {
                    let k = i - start;
                    assert(all_digits(d.take(k + 1))) by {
                        assert forall|j: int| 0 <= j < k + 1 implies 0x30 <= #[trigger] d.take(
                            k + 1,
                        )[j] && d.take(k + 1)[j] <= 0x39 by {
                            if j < k {
                                assert(d.take(k + 1)[j] == d.take(k)[j]);
                            }
                        }
                    }
                }
                value = v;
            },
            None => {
                proof {
                    let k = i - start;
                    assert(all_digits(d.take(k + 1))) by {
                        assert forall|j: int| 0 <= j < k + 1 implies 0x30 <= #[trigger] d.take(
                            k + 1,
                        )[j] && d.take(k + 1)[j] <= 0x39 by {
                            if j < k {
                                assert(d.take(k + 1)[j] == d.take(k)[j]);
                            }
                        }
                    }
                    assert(digits_value(d.take(k + 1)) == digits_value(d.take(k)) * 10 + (b
                        - 0x30));
                    assert(digits_value(d.take(k + 1)) > u64::MAX);
                    if all_digits(d) {
                        lemma_digits_grow(d, k + 1);
                    }
                }
                return None;
            },
        }
        i = i + 1;
    }
    assert(d.take(i - start) =~= d);
    Some(value)
}

} // verus!
