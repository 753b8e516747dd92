//! Byte-level scanning primitives shared by the classifier and the body
//! parser.
use vstd::prelude::*;

verus! {

pub const SPACE: u8 = 0x20;

pub const QUOTE: u8 = 0x22;

pub const AMPERSAND: u8 = 0x26;

pub const DOT: u8 = 0x2e;

pub const SLASH: u8 = 0x2f;

pub const COLON: u8 = 0x3a;

pub const EQUALS: u8 = 0x3d;

pub const QUESTION: u8 = 0x3f;

pub const LINE_FEED: u8 = 0x0a;

pub const CARRIAGE_RETURN: u8 = 0x0d;

/// 2^32, the modulus of the wrapping sums.
pub const WRAP: u64 = 0x1_0000_0000;

/// An ASCII decimal digit.
pub open spec fn is_digit(b: u8) -> bool {
    0x30 <= b <= 0x39
}

/// The bytes that are ASCII decimal digits.
pub open spec fn digits() -> Set<u8> {
    Set::new(|b: u8| is_digit(b))
}

/// The bytes that are not ASCII decimal digits.
pub open spec fn non_digits() -> Set<u8> {
    Set::new(|b: u8| !is_digit(b))
}

/// How many bytes of `s`, from `start` on, come before the first byte that
/// belongs to `stop` (or before the end of `s`, if there is none).
pub open spec fn skip_until(s: Seq<u8>, start: int, stop: Set<u8>) -> nat
    decreases s.len() - start,
{
    if start < 0 || start >= s.len() || stop.contains(s[start]) {
        0
    } else {
        1 + skip_until(s, start + 1, stop)
    }
}

/// The position of the first byte of `s` at or after `start` that belongs
/// to `stop`; the length of `s` if there is none.
pub open spec fn first_from(s: Seq<u8>, start: int, stop: Set<u8>) -> int {
    start + skip_until(s, start, stop)
}

/// The sum of the bytes of `s`.
pub open spec fn byte_sum(s: Seq<u8>) -> nat
    decreases s.len(),
{
    if s.len() == 0 {
        0
    } else {
        byte_sum(s.drop_last()) + s.last() as nat
    }
}

/// The sum of the bytes of `s`, each weighted by its distance from the end
/// of `s`: the byte at index `i` counts `s.len() - i` times.
pub open spec fn weighted_sum(s: Seq<u8>) -> nat
    decreases s.len(),
{
    if s.len() == 0 {
        0
    } else {
        s[0] as nat * s.len() + weighted_sum(s.skip(1))
    }
}

/// The number that a string of decimal digits denotes.
pub open spec fn decimal(ds: Seq<u8>) -> nat
    decreases ds.len(),
{
    if ds.len() == 0 {
        0
    } else {
        decimal(ds.drop_last()) * 10 + (ds.last() - 0x30) as nat
    }
}

/// `first_from` is the least position at or after `start` that holds a
/// byte of `stop`.
pub proof fn lemma_first_from(s: Seq<u8>, start: int, stop: Set<u8>)
    requires
        0 <= start <= s.len(),
    ensures
        start <= first_from(s, start, stop) <= s.len(),
        forall|k: int| start <= k < first_from(s, start, stop) ==> !stop.contains(#[trigger] s[k]),
        first_from(s, start, stop) < s.len() ==> stop.contains(s[first_from(s, start, stop)]),
    decreases s.len() - start,
{
    if start < s.len() && !stop.contains(s[start]) {
        lemma_first_from(s, start + 1, stop);
    }
}

/// A position that holds a byte of `stop`, or the end of `s`, with no byte
/// of `stop` between `start` and it, is what `first_from` finds.
pub proof fn lemma_first_from_is(s: Seq<u8>, start: int, stop: Set<u8>, at: int)
    requires
        0 <= start <= at <= s.len(),
        forall|k: int| start <= k < at ==> !stop.contains(#[trigger] s[k]),
        at < s.len() ==> stop.contains(s[at]),
    ensures
        first_from(s, start, stop) == at,
    decreases at - start,
{
    if start < at {
        lemma_first_from_is(s, start + 1, stop, at);
    }
}

/// Appending a byte adds it to the sum.
pub proof fn lemma_byte_sum_push(s: Seq<u8>, b: u8)
    ensures
        byte_sum(s.push(b)) == byte_sum(s) + b,
{
    assert(s.push(b).drop_last() =~= s);
}

/// Appending a byte adds the new sum of all bytes to the weighted sum:
/// each earlier byte moves one place further from the end.
pub proof fn lemma_weighted_sum_push(s: Seq<u8>, b: u8)
    ensures
        weighted_sum(s.push(b)) == weighted_sum(s) + byte_sum(s) + b,
    decreases s.len(),
{
    let t = s.push(b);
    if s.len() == 0 {
        assert(t.skip(1) =~= Seq::<u8>::empty());
        assert(t.drop_last() =~= s);
        assert(weighted_sum(t.skip(1)) == 0);
    } else {
        lemma_weighted_sum_push(s.skip(1), b);
        assert(t.skip(1) =~= s.skip(1).push(b));
        lemma_byte_sum_front(s);
        assert(t[0] == s[0]);
        assert(weighted_sum(t) == s[0] as nat * t.len() + weighted_sum(t.skip(1)));
        assert(s[0] as nat * t.len() == s[0] as nat * s.len() + s[0] as nat) by (nonlinear_arith)
            requires
                t.len() == s.len() + 1,
        ;
    }
}

/// The sum of the bytes, taken from the front.
pub proof fn lemma_byte_sum_front(s: Seq<u8>)
    requires
        s.len() > 0,
    ensures
        byte_sum(s) == s[0] + byte_sum(s.skip(1)),
    decreases s.len(),
{
    if s.len() == 1 {
        assert(s.drop_last() =~= Seq::<u8>::empty());
        assert(s.skip(1) =~= Seq::<u8>::empty());
        assert(byte_sum(s.drop_last()) == 0);
        assert(byte_sum(s.skip(1)) == 0);
    } else {
        lemma_byte_sum_front(s.drop_last());
        assert(s.drop_last().skip(1) =~= s.skip(1).drop_last());
        assert(s.skip(1).last() == s.last());
        assert(s.drop_last()[0] == s[0]);
    }
}

/// The first position at or after `start` that holds `target`.
pub fn find_byte(bytes: &[u8], start: usize, target: u8) -> (at: usize)
    requires
        start <= bytes@.len(),
    ensures
        at == first_from(bytes@, start as int, set![target]),
        start <= at <= bytes@.len(),
{
    let mut i: usize = start;
    while i < bytes.len() && bytes[i] != target
        invariant
            start <= i <= bytes@.len(),
            first_from(bytes@, start as int, set![target]) == first_from(
                bytes@,
                i as int,
                set![target],
            ),
        decreases bytes@.len() - i,
    {
        i += 1;
    }
    i
}

} // verus!
