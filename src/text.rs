//! Parsing of the plain-text values that the kernel exposes.
//!
//! Everything here works on the UTF-8 bytes of the text. Digits, signs and the
//! separators that matter are ASCII, so a byte-level reading agrees with a
//! character-level one; only ASCII white space is trimmed.

use vstd::prelude::*;

verus! {

/// An ASCII decimal digit.
pub open spec fn is_digit(b: u8) -> bool {
    48 <= b <= 57
}

/// ASCII white space: space, tab, line feed, vertical tab, form feed, carriage return.
pub open spec fn is_space(b: u8) -> bool {
    b == 32 || (9 <= b <= 13)
}

pub open spec fn all_digits(s: Seq<u8>) -> bool {
    forall|i: int| 0 <= i < s.len() ==> is_digit(#[trigger] s[i])
}

/// The number that a run of decimal digits denotes.
pub open spec fn digits_value(s: Seq<u8>) -> nat
    decreases s.len(),
{
    if s.len() == 0 {
        0
    } else {
        digits_value(s.drop_last()) * 10 + (s.last() - 48) as nat
    }
}

/// `s` without its trailing white space.
pub open spec fn trim_end(s: Seq<u8>) -> Seq<u8>
    decreases s.len(),
{
    if s.len() > 0 && is_space(s.last()) {
        trim_end(s.drop_last())
    } else {
        s
    }
}

/// `s` without its leading white space.
pub open spec fn trim_start(s: Seq<u8>) -> Seq<u8>
    decreases s.len(),
{
    if s.len() > 0 && is_space(s[0]) {
        trim_start(s.drop_first())
    } else {
        s
    }
}

/// `s` without white space at either end.
pub open spec fn trim(s: Seq<u8>) -> Seq<u8> {
    trim_end(trim_start(s))
}

/// `s` without one leading `+`.
pub open spec fn unsigned_body(s: Seq<u8>) -> Seq<u8> {
    if s.len() > 0 && s[0] == 43 {
        s.drop_first()
    } else {
        s
    }
}

/// The value of an unsigned decimal integer: an optional `+` and at least one
/// digit, nothing else.
pub open spec fn unsigned_value(s: Seq<u8>) -> Option<nat> {
    let d = unsigned_body(s);
    if d.len() > 0 && all_digits(d) {
        Some(digits_value(d))
    } else {
        None
    }
}

/// The value of `s` as an unsigned integer of at most `max`; `None` when it is
/// no such integer or is larger.
pub open spec fn bounded_value(s: Seq<u8>, max: nat) -> Option<nat> {
    match unsigned_value(s) {
        Some(v) => if v <= max {
            Some(v)
        } else {
            None
        },
        None => None,
    }
}

/// The index of the first `c` in `s[a..b]`, or `b` when there is none.
pub open spec fn first_from(s: Seq<u8>, a: int, b: int, c: u8) -> int
    decreases b - a,
{
    if a >= b {
        b
    } else if s[a] == c {
        a
    } else {
        first_from(s, a + 1, b, c)
    }
}

/// The index that `first_from` gives lies in `[a, b]`.
pub proof fn lemma_first_from_bounds(s: Seq<u8>, a: int, b: int, c: u8)
    requires
        a <= b,
    ensures
        a <= first_from(s, a, b, c) <= b,
    decreases b - a,
{
    if a < b && s[a] != c {
        lemma_first_from_bounds(s, a + 1, b, c);
    }
}

pub fn is_space_byte(b: u8) -> (r: bool)
    ensures
        r == is_space(b),
{
    b == 32 || (9 <= b && b <= 13)
}

/// The end of `s[lo..hi]` once trailing white space is dropped.
pub fn trim_end_index(s: &[u8], lo: usize, hi: usize) -> (e: usize)
    requires
        lo <= hi <= s@.len(),
    ensures
        lo <= e <= hi,
        s@.subrange(lo as int, e as int) == trim_end(s@.subrange(lo as int, hi as int)),
{
    let mut e = hi;
    while e > lo && is_space_byte(s[e - 1])
        invariant
            lo <= e <= hi <= s@.len(),
            trim_end(s@.subrange(lo as int, e as int)) == trim_end(
                s@.subrange(lo as int, hi as int),
            ),
        decreases e,
    {
        assert(s@.subrange(lo as int, e as int).drop_last() =~= s@.subrange(
            lo as int,
            e - 1,
        ));
        e = e - 1;
    }
    e
}

/// The start of `s[lo..hi]` once leading white space is dropped.
pub fn trim_start_index(s: &[u8], lo: usize, hi: usize) -> (b: usize)
    requires
        lo <= hi <= s@.len(),
    ensures
        lo <= b <= hi,
        s@.subrange(b as int, hi as int) == trim_start(s@.subrange(lo as int, hi as int)),
{
    let mut b = lo;
    while b < hi && is_space_byte(s[b])
        invariant
            lo <= b <= hi <= s@.len(),
            trim_start(s@.subrange(b as int, hi as int)) == trim_start(
                s@.subrange(lo as int, hi as int),
            ),
        decreases hi - b,
    {
        assert(s@.subrange(b as int, hi as int).drop_first() =~= s@.subrange(
            b + 1,
            hi as int,
        ));
        b = b + 1;
    }
    b
}

/// The index of the first `c` in `s[a..b]`, or `b` when there is none.
pub fn find_byte(s: &[u8], a: usize, b: usize, c: u8) -> (r: usize)
    requires
        a <= b <= s@.len(),
    ensures
        r == first_from(s@, a as int, b as int, c),
        a <= r <= b,
{
    let mut i = a;
    while i < b && s[i] != c
        invariant
            a <= i <= b <= s@.len(),
            first_from(s@, i as int, b as int, c) == first_from(s@, a as int, b as int, c),
        decreases b - i,
    {
        i = i + 1;
    }
    i
}

/// A copy of `s[lo..hi]`.
pub fn copy_range(s: &[u8], lo: usize, hi: usize) -> (r: Vec<u8>)
    requires
        lo <= hi <= s@.len(),
    ensures
        r@ == s@.subrange(lo as int, hi as int),
{
    let mut r: Vec<u8> = Vec::new();
    let mut i = lo;
    while i < hi
        invariant
            lo <= i <= hi <= s@.len(),
            r@ =~= s@.subrange(lo as int, i as int),
        decreases hi - i,
    {
        r.push(s[i]);
        i = i + 1;
    }
    r
}

/// Parses `s[lo..hi]` as an unsigned decimal integer no larger than `max`.
pub fn parse_bounded(s: &[u8], lo: usize, hi: usize, max: u64) -> (r: Option<u64>)
    requires
        lo <= hi <= s@.len(),
    ensures
        r matches Some(v) ==> bounded_value(s@.subrange(lo as int, hi as int), max as nat)
            == Some(v as nat),
        r is None ==> bounded_value(s@.subrange(lo as int, hi as int), max as nat) is None,
{
    let ghost whole = s@.subrange(lo as int, hi as int);
    let start = if lo < hi && s[lo] == 43 {
        lo + 1
    } else {
        lo
    };
    assert(unsigned_body(whole) =~= s@.subrange(start as int, hi as int));
    if start == hi {
        return None;
    }
    let mut i = start;
    let mut acc: u64 = 0;
    let mut over = false;
    while i < hi
        invariant
            lo <= start <= i <= hi <= s@.len(),
            whole == s@.subrange(lo as int, hi as int),
            unsigned_body(whole) == s@.subrange(start as int, hi as int),
            all_digits(s@.subrange(start as int, i as int)),
            over ==> digits_value(s@.subrange(start as int, i as int)) > max,
            !over ==> acc == digits_value(s@.subrange(start as int, i as int)),
            !over ==> acc <= max,
        decreases hi - i,
    {
        let c = s[i];
        if c < 48 || c > 57 {
            assert(!all_digits(s@.subrange(start as int, hi as int))) by {
                assert(s@.subrange(start as int, hi as int)[i - start] == c);
            }
            return None;
        }
        let ghost prev = s@.subrange(start as int, i as int);
        let ghost next = s@.subrange(start as int, i + 1);
        assert(next.drop_last() =~= prev);
        assert(digits_value(next) == digits_value(prev) * 10 + (c - 48) as nat);
        assert(all_digits(next)) by {
            assert forall|k: int| 0 <= k < next.len() implies is_digit(#[trigger] next[k]) by {
                if k < prev.len() {
                    assert(next[k] == prev[k]);
                }
            }
        }
        if !over {
            let d = (c - 48) as u64;
            if d > max || acc > (max - d) / 10 {
                over = true;
                assert(digits_value(prev) * 10 + d > max) by (nonlinear_arith)
                    requires
                        digits_value(prev) == acc,
                        d > max || acc > (max - d) / 10,
                ;
            } else {
                assert(acc * 10 + d <= max) by (nonlinear_arith)
                    requires
                        acc <= (max - d) / 10,
                        d <= 9,
                ;
                acc = acc * 10 + d;
            }
        } else {
            assert(digits_value(next) >= digits_value(prev)) by (nonlinear_arith)
                requires
                    digits_value(next) == digits_value(prev) * 10 + (c - 48) as nat,
            ;
        }
        i = i + 1;
    }
    if over {
        None
    } else {
        Some(acc)
    }
}

} // verus!
