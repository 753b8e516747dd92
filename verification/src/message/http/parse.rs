//! Query-string and JSON-body extraction for the two recognised routes.
use vstd::prelude::*;

use crate::message::http::scan::{
    decimal, digits, find_byte, first_from, is_digit, lemma_first_from, lemma_first_from_is,
    non_digits, AMPERSAND, CARRIAGE_RETURN, COLON, DOT, EQUALS, LINE_FEED, QUOTE, SPACE,
};

verus! {

/// The parameters of a query string, in the order in which they were read.
/// A later parameter of the same name replaces an earlier one.
#[derive(Debug)]
pub struct Params {
    pub entries: Vec<(Vec<u8>, Vec<u8>)>,
}

/// The parameters that a list of entries stands for: each entry is entered
/// in turn, so the last entry of a name decides its value.
pub open spec fn entries_map(es: Seq<(Vec<u8>, Vec<u8>)>) -> Map<Seq<u8>, Seq<u8>>
    decreases es.len(),
{
    if es.len() == 0 {
        Map::empty()
    } else {
        entries_map(es.drop_last()).insert(es.last().0@, es.last().1@)
    }
}

impl View for Params {
    type V = Map<Seq<u8>, Seq<u8>>;

    open spec fn view(&self) -> Map<Seq<u8>, Seq<u8>> {
        entries_map(self.entries@)
    }
}

/// `s` without the occurrences of `b`.
pub open spec fn strip(s: Seq<u8>, b: u8) -> Seq<u8>
    decreases s.len(),
{
    if s.len() == 0 {
        s
    } else if s.last() == b {
        strip(s.drop_last(), b)
    } else {
        strip(s.drop_last(), b).push(s.last())
    }
}

/// The name in a `name=value` pair: what stands before the first `=`.
pub open spec fn pair_key(pair: Seq<u8>) -> Seq<u8> {
    pair.take(first_from(pair, 0, set![EQUALS]))
}

/// The value in a `name=value` pair: what stands behind the first `=`,
/// without any further `=`; empty if the pair holds no `=`.
pub open spec fn pair_value(pair: Seq<u8>) -> Seq<u8> {
    let eq = first_from(pair, 0, set![EQUALS]);
    if eq < pair.len() {
        strip(pair.skip(eq + 1), EQUALS)
    } else {
        Seq::empty()
    }
}

/// The parameters of a query string: its pairs are separated by `&`; every
/// pair that an `&` closes is entered, the last pair only if its value is
/// not empty; of two pairs with one name the later one counts.
pub open spec fn query_params(q: Seq<u8>) -> Map<Seq<u8>, Seq<u8>>
    decreases q.len(),
{
    let amp = first_from(q, 0, set![AMPERSAND]);
    let pair = q.take(amp);
    if amp < q.len() {
        map![pair_key(pair) => pair_value(pair)].union_prefer_right(query_params(q.skip(amp + 1)))
    } else if pair_value(pair).len() > 0 {
        map![pair_key(pair) => pair_value(pair)]
    } else {
        Map::empty()
    }
}

/// The length of the query string: it ends before the first space.
pub open spec fn query_len(s: Seq<u8>) -> int {
    first_from(s, 0, set![SPACE])
}

/// The parameters of the query string that `s` begins with.
pub open spec fn params_of(s: Seq<u8>) -> Map<Seq<u8>, Seq<u8>> {
    query_params(s.take(query_len(s)))
}

/// Where the query string has been consumed: behind the space that ends
/// it, or at the end of the input.
pub open spec fn params_offset(s: Seq<u8>) -> int {
    if query_len(s) < s.len() {
        query_len(s) + 1
    } else {
        s.len() as int
    }
}

/// The lower-case form of an ASCII letter; any other byte unchanged.
pub open spec fn lower(b: u8) -> u8 {
    if 0x41 <= b <= 0x5a {
        (b + 0x20) as u8
    } else {
        b
    }
}

/// The bytes of `amount`.
pub open spec fn amount_key() -> Seq<u8> {
    seq![0x61u8, 0x6d, 0x6f, 0x75, 0x6e, 0x74]
}

/// The bytes of `correlationId`.
pub open spec fn id_key() -> Seq<u8> {
    seq![0x63u8, 0x6f, 0x72, 0x72, 0x65, 0x6c, 0x61, 0x74, 0x69, 0x6f, 0x6e, 0x49, 0x64]
}

/// Whether `key` stands in `s` at position `at`, letter case aside.
pub open spec fn key_at(s: Seq<u8>, at: int, key: Seq<u8>) -> bool {
    &&& 0 <= at
    &&& at + key.len() <= s.len()
    &&& forall|k: int| 0 <= k < key.len() ==> lower(#[trigger] s[at + k]) == lower(key[k])
}

/// The length of the blank line that ends the headers at position `i`:
/// 2 for two line feeds, 4 for two CR LF pairs, 0 if neither stands there.
pub open spec fn blank_line_at(s: Seq<u8>, i: int) -> nat {
    if 0 <= i && i + 1 < s.len() && s[i] == LINE_FEED && s[i + 1] == LINE_FEED {
        2
    } else if 0 <= i && i + 3 < s.len() && s[i] == CARRIAGE_RETURN && s[i + 1] == LINE_FEED && s[i
        + 2] == CARRIAGE_RETURN && s[i + 3] == LINE_FEED {
        4
    } else {
        0
    }
}

/// How many bytes of `s`, from `start` on, come before the first blank
/// line (or before the end of `s`, if there is none).
pub open spec fn headers_len(s: Seq<u8>, start: int) -> nat
    decreases s.len() - start,
{
    if start < 0 || start >= s.len() || blank_line_at(s, start) > 0 {
        0
    } else {
        1 + headers_len(s, start + 1)
    }
}

/// Where the body begins: behind the first blank line, if there is one.
pub open spec fn body_start(s: Seq<u8>) -> Option<int> {
    let h = headers_len(s, 0) as int;
    if h < s.len() {
        Some(h + blank_line_at(s, h))
    } else {
        None
    }
}

/// The amount in cents that an integer part and a cents part denote:
/// the integer part times 100 plus the cents. There is none without an
/// integer digit, nor where the result exceeds 64 bits.
pub open spec fn amount_value(whole: Seq<u8>, cents: Seq<u8>) -> Option<u64> {
    let v = decimal(whole) * 100 + decimal(cents);
    if whole.len() > 0 && v <= u64::MAX {
        Some(v as u64)
    } else {
        None
    }
}

/// The number that follows a key, read from `start` on, and the position
/// where reading stops.
///
/// Everything up to the first colon is passed over, then everything that
/// is neither a digit nor a dot. The digits that follow are the integer
/// part; it ends at the first byte that is no digit. If that byte is a
/// dot, up to two digits behind it are the cents. The byte that ends the
/// number is consumed as well.
pub open spec fn amount_at(s: Seq<u8>, start: int) -> (Option<u64>, int) {
    let colon = first_from(s, start, set![COLON]);
    if colon >= s.len() {
        (None, colon)
    } else {
        let d = first_from(s, colon + 1, digits().insert(DOT));
        let e = first_from(s, d, non_digits());
        if e < s.len() && s[e] == DOT {
            let f0 = first_from(s, e + 1, non_digits());
            let f = if f0 < e + 3 {
                f0
            } else {
                e + 3
            };
            let end = if f < s.len() {
                f + 1
            } else {
                s.len() as int
            };
            (amount_value(s.subrange(d, e), s.subrange(e + 1, f)), end)
        } else {
            let end = if e < s.len() {
                e + 1
            } else {
                s.len() as int
            };
            (amount_value(s.subrange(d, e), Seq::empty()), end)
        }
    }
}

/// The correlation id that follows a key, read from `start` on, and the
/// position where reading stops.
///
/// Everything up to the first colon is passed over, then everything up to
/// the opening quote. The id is what stands between that quote and the
/// next one, and it counts only if it is exactly 36 bytes long. Reading
/// stops behind the closing quote, or after 36 bytes where none has come.
pub open spec fn id_at(s: Seq<u8>, start: int) -> (Option<Seq<u8>>, int) {
    let colon = first_from(s, start, set![COLON]);
    if colon >= s.len() {
        (None, colon)
    } else {
        let open = first_from(s, colon + 1, set![QUOTE]);
        if open >= s.len() {
            (None, s.len() as int)
        } else {
            let close = first_from(s, open + 1, set![QUOTE]);
            if close == open + 37 && close < s.len() {
                (Some(s.subrange(open + 1, close)), close + 1)
            } else if close < open + 37 {
                (
                    None,
                    if close < s.len() {
                        close + 1
                    } else {
                        s.len() as int
                    },
                )
            } else {
                (None, open + 37)
            }
        }
    }
}

/// The two fields of a payment body, searched from `pos` on, given what
/// has been found so far. Each quote is tried as the start of one of the
/// two keys; a key whose value cannot be read leaves the earlier finding
/// in place. The search ends as soon as both fields are known.
pub open spec fn scan_fields(
    s: Seq<u8>,
    pos: int,
    amount: Option<u64>,
    id: Option<Seq<u8>>,
) -> Option<(u64, Seq<u8>)>
    decreases s.len() - pos,
    via scan_fields_terminates
{
    if amount is Some && id is Some {
        Some((amount->0, id->0))
    } else if pos < 0 || pos >= s.len() {
        None
    } else if s[pos] == QUOTE && key_at(s, pos + 1, amount_key()) {
        let found = amount_at(s, pos + 7);
        scan_fields(
            s,
            found.1,
            if found.0 is Some {
                found.0
            } else {
                amount
            },
            id,
        )
    } else if s[pos] == QUOTE && key_at(s, pos + 1, id_key()) {
        let found = id_at(s, pos + 14);
        scan_fields(
            s,
            found.1,
            amount,
            if found.0 is Some {
                found.0
            } else {
                id
            },
        )
    } else {
        scan_fields(s, pos + 1, amount, id)
    }
}

#[via_fn]
proof fn scan_fields_terminates(s: Seq<u8>, pos: int, amount: Option<u64>, id: Option<Seq<u8>>) {
    if 0 <= pos < s.len() {
        if pos + 7 <= s.len() {
            lemma_amount_at_end(s, pos + 7);
        }
        if pos + 14 <= s.len() {
            lemma_id_at_end(s, pos + 14);
        }
    }
}

/// Reading an amount moves forward and stays inside the input.
pub proof fn lemma_amount_at_end(s: Seq<u8>, start: int)
    requires
        0 <= start <= s.len(),
    ensures
        start <= amount_at(s, start).1 <= s.len(),
        start < s.len() ==> start < amount_at(s, start).1,
{
    let colon = first_from(s, start, set![COLON]);
    lemma_first_from(s, start, set![COLON]);
    if colon < s.len() {
        let d = first_from(s, colon + 1, digits().insert(DOT));
        lemma_first_from(s, colon + 1, digits().insert(DOT));
        let e = first_from(s, d, non_digits());
        lemma_first_from(s, d, non_digits());
        if e < s.len() {
            lemma_first_from(s, e + 1, non_digits());
        }
    }
}

/// Reading a correlation id moves forward and stays inside the input.
pub proof fn lemma_id_at_end(s: Seq<u8>, start: int)
    requires
        0 <= start <= s.len(),
    ensures
        start <= id_at(s, start).1 <= s.len(),
        start < s.len() ==> start < id_at(s, start).1,
{
    let colon = first_from(s, start, set![COLON]);
    lemma_first_from(s, start, set![COLON]);
    if colon < s.len() {
        let open = first_from(s, colon + 1, set![QUOTE]);
        lemma_first_from(s, colon + 1, set![QUOTE]);
        if open < s.len() {
            lemma_first_from(s, open + 1, set![QUOTE]);
        }
    }
}

/// Amount and correlation id of a payment request, whose headers and body
/// are `s`: the fields found behind the first blank line. There are none
/// if there is no blank line or one of the two fields is missing.
pub open spec fn body_fields(s: Seq<u8>) -> Option<(u64, Seq<u8>)> {
    match body_start(s) {
        Some(p) => scan_fields(s, p, None, None),
        None => None,
    }
}

/// How the first match moves when a byte is appended.
proof fn lemma_first_from_push(seg: Seq<u8>, b: u8, stop: Set<u8>)
    ensures
        first_from(seg.push(b), 0, stop) == if first_from(seg, 0, stop) < seg.len()
            || stop.contains(b) {
            first_from(seg, 0, stop)
        } else {
            seg.len() as int + 1
        },
        0 <= first_from(seg, 0, stop) <= seg.len(),
{
    let at = first_from(seg, 0, stop);
    let longer = seg.push(b);
    lemma_first_from(seg, 0, stop);
    assert forall|k: int| 0 <= k < at implies !stop.contains(#[trigger] longer[k]) by {
        assert(longer[k] == seg[k]);
    }
    if at < seg.len() {
        assert(longer[at] == seg[at]);
        lemma_first_from_is(longer, 0, stop, at);
    } else if stop.contains(b) {
        lemma_first_from_is(longer, 0, stop, at);
    } else {
        lemma_first_from_is(longer, 0, stop, at + 1);
    }
}

/// Name and value of a pair that grows by one byte.
proof fn lemma_pair_push(seg: Seq<u8>, b: u8)
    ensures
        0 <= first_from(seg, 0, set![EQUALS]) <= seg.len(),
        first_from(seg, 0, set![EQUALS]) == seg.len() ==> pair_key(seg) == seg && pair_value(seg)
            == Seq::<u8>::empty(),
        first_from(seg, 0, set![EQUALS]) == seg.len() && b != EQUALS ==> pair_key(seg.push(b))
            == seg.push(b) && first_from(seg.push(b), 0, set![EQUALS]) == seg.len() + 1,
        first_from(seg, 0, set![EQUALS]) == seg.len() && b == EQUALS ==> pair_key(seg.push(b))
            == seg && pair_value(seg.push(b)) == Seq::<u8>::empty() && first_from(
            seg.push(b),
            0,
            set![EQUALS],
        ) < seg.len() + 1,
        first_from(seg, 0, set![EQUALS]) < seg.len() ==> pair_key(seg.push(b)) == pair_key(seg)
            && first_from(seg.push(b), 0, set![EQUALS]) < seg.len() + 1,
        first_from(seg, 0, set![EQUALS]) < seg.len() && b == EQUALS ==> pair_value(seg.push(b))
            == pair_value(seg),
        first_from(seg, 0, set![EQUALS]) < seg.len() && b != EQUALS ==> pair_value(seg.push(b))
            == pair_value(seg).push(b),
{
    let stop = set![EQUALS];
    let eq = first_from(seg, 0, stop);
    let longer = seg.push(b);
    lemma_first_from_push(seg, b, stop);
    assert(stop.contains(b) <==> b == EQUALS);
    if eq == seg.len() {
        assert(seg.take(eq) =~= seg);
        if b != EQUALS {
            assert(longer.take(seg.len() as int + 1) =~= longer);
        } else {
            assert(longer.take(eq) =~= seg);
            assert(longer.skip(eq + 1) =~= Seq::<u8>::empty());
        }
    } else {
        assert(longer.take(eq) =~= seg.take(eq));
        assert(longer.skip(eq + 1) =~= seg.skip(eq + 1).push(b));
        assert(longer.skip(eq + 1).drop_last() =~= seg.skip(eq + 1));
    }
}

/// Whether two byte strings are equal.
pub fn same_bytes(a: &[u8], b: &[u8]) -> (same: bool)
    ensures
        same == (a@ == b@),
{
    if a.len() != b.len() {
        return false;
    }
    let mut i: usize = 0;
    while i < a.len()
        invariant
            i <= a@.len(),
            a@.len() == b@.len(),
            forall|k: int| 0 <= k < i ==> a@[k] == b@[k],
        decreases a@.len() - i,
    {
        if a[i] != b[i] {
            return false;
        }
        i += 1;
    }
    assert(a@ =~= b@);
    true
}

impl Params {
    /// The value of the parameter `key`, if the query string gave one.
    pub fn get(&self, key: &[u8]) -> (value: Option<&Vec<u8>>)
        ensures
            match value {
                Some(v) => self@.contains_key(key@) && self@[key@] == v@,
                None => !self@.contains_key(key@),
            },
    {
        let ghost es = self.entries@;
        let mut i: usize = self.entries.len();
        assert(es.take(i as int) =~= es);
        while i > 0
            invariant
                es == self.entries@,
                i <= es.len(),
                entries_map(es).contains_key(key@) == entries_map(es.take(i as int)).contains_key(
                    key@,
                ),
                entries_map(es).contains_key(key@) ==> entries_map(es)[key@] == entries_map(
                    es.take(i as int),
                )[key@],
            decreases i,
        {
            i -= 1;
            assert(es.take(i + 1).drop_last() =~= es.take(i as int));
            if same_bytes(self.entries[i].0.as_slice(), key) {
                return Some(&self.entries[i].1);
            }
        }
        None
    }
}

/// The lower-case form of an ASCII letter; any other byte unchanged.
fn to_lower(b: u8) -> (l: u8)
    ensures
        l == lower(b),
{
    if 0x41 <= b && b <= 0x5a {
        b + 0x20
    } else {
        b
    }
}

/// Whether `b` is an ASCII decimal digit.
fn digit(b: u8) -> (d: bool)
    ensures
        d == is_digit(b),
{
    0x30 <= b && b <= 0x39
}

/// Whether `key` stands in `bytes` at position `at`, letter case aside.
fn matches_key(bytes: &[u8], at: usize, key: &[u8]) -> (found: bool)
    ensures
        found == key_at(bytes@, at as int, key@),
{
    if at > bytes.len() || key.len() > bytes.len() - at {
        return false;
    }
    let mut k: usize = 0;
    while k < key.len()
        invariant
            k <= key@.len(),
            at + key@.len() <= bytes@.len() <= usize::MAX,
            forall|j: int| 0 <= j < k ==> lower(#[trigger] bytes@[at + j]) == lower(key@[j]),
        decreases key@.len() - k,
    {
        if to_lower(bytes[at + k]) != to_lower(key[k]) {
            return false;
        }
        k += 1;
    }
    true
}

/// One more digit at the end of a digit string.
proof fn lemma_decimal_push(s: Seq<u8>, from: int, to: int)
    requires
        0 <= from <= to < s.len(),
        is_digit(s[to]),
    ensures
        decimal(s.subrange(from, to + 1)) == decimal(s.subrange(from, to)) * 10 + (s[to] - 0x30),
{
    assert(s.subrange(from, to + 1).drop_last() =~= s.subrange(from, to));
}

/// Reads the number that follows the `amount` key as an amount in cents:
/// the integer part times 100 plus up to two digits of cents. On return
/// `cursor` stands where reading stopped.
pub fn parse_float_as_u32_as_bytes(bytes: &[u8], cursor: &mut usize) -> (r: Option<u64>)
    ensures
        r == amount_at(bytes@, *old(cursor) as int).0,
        *final(cursor) == amount_at(bytes@, *old(cursor) as int).1,
{
    let ghost s = bytes@;
    let start = *cursor;
    let len = bytes.len();
    if start >= len {
        return None;
    }
    let colon = find_byte(bytes, start, COLON);
    if colon >= len {
        *cursor = colon;
        return None;
    }
    let mut i: usize = colon + 1;
    while i < len && !(digit(bytes[i]) || bytes[i] == DOT)
        invariant
            s == bytes@,
            len == s.len(),
            colon + 1 <= i <= len,
            first_from(s, colon + 1, digits().insert(DOT)) == first_from(
                s,
                i as int,
                digits().insert(DOT),
            ),
        decreases len - i,
    {
        i += 1;
    }
    let d = i;
    let mut value: u64 = 0;
    let mut overflow = false;
    while i < len && digit(bytes[i])
        invariant
            s == bytes@,
            len == s.len(),
            d <= i <= len,
            first_from(s, d as int, non_digits()) == first_from(s, i as int, non_digits()),
            !overflow ==> value == decimal(s.subrange(d as int, i as int)),
            overflow ==> decimal(s.subrange(d as int, i as int)) > u64::MAX,
        decreases len - i,
    {
        let v = (bytes[i] - 0x30) as u64;
        proof {
            lemma_decimal_push(s, d as int, i as int);
        }
        if !overflow {
            if value > (u64::MAX - v) / 10 {
                overflow = true;
            } else {
                value = value * 10 + v;
            }
        }
        i += 1;
    }
    let e = i;
    let mut cents: u64 = 0;
    if i < len && bytes[i] == DOT {
        i += 1;
        let mut count: usize = 0;
        while i < len && count < 2 && digit(bytes[i])
            invariant
                s == bytes@,
                len == s.len(),
                i == e + 1 + count,
                i <= len,
                count <= 2,
                forall|k: int| e + 1 <= k < i ==> is_digit(#[trigger] s[k]),
                cents == decimal(s.subrange(e + 1, i as int)),
                cents <= 99,
                count < 2 ==> cents <= 9,
                count < 1 ==> cents == 0,
            decreases len - i,
        {
            proof {
                lemma_decimal_push(s, e + 1, i as int);
            }
            cents = cents * 10 + (bytes[i] - 0x30) as u64;
            count += 1;
            i += 1;
        }
        proof {
            let stop = non_digits();
            lemma_first_from(s, e + 1, stop);
            let f0 = first_from(s, e + 1, stop);
            if f0 < i {
                assert(is_digit(s[f0]));
            }
            if count < 2 {
                lemma_first_from_is(s, e + 1, stop, i as int);
            }
        }
    }
    let f = i;
    *cursor = if f < len {
        f + 1
    } else {
        len
    };
    if e == d || overflow {
        return None;
    }
    if value > (u64::MAX - cents) / 100 {
        return None;
    }
    Some(value * 100 + cents)
}

/// Reads the correlation id that follows the `correlationId` key: exactly
/// 36 bytes between two quotes. On return `cursor` stands where reading
/// stopped.
pub fn parse_string(bytes: &[u8], cursor: &mut usize) -> (r: Option<[u8; 36]>)
    ensures
        match r {
            Some(id) => id_at(bytes@, *old(cursor) as int).0 == Some(id@),
            None => id_at(bytes@, *old(cursor) as int).0 is None,
        },
        *final(cursor) == id_at(bytes@, *old(cursor) as int).1,
{
    let ghost s = bytes@;
    let start = *cursor;
    let len = bytes.len();
    if start >= len {
        return None;
    }
    let colon = find_byte(bytes, start, COLON);
    if colon >= len {
        *cursor = colon;
        return None;
    }
    let open = find_byte(bytes, colon + 1, QUOTE);
    if open >= len {
        *cursor = len;
        return None;
    }
    let mut value = [0u8;36];
    let mut index: usize = 0;
    let mut i: usize = open + 1;
    while i < len && index < 36 && bytes[i] != QUOTE
        invariant
            s == bytes@,
            len == s.len(),
            i == open + 1 + index,
            i <= len,
            index <= 36,
            forall|k: int| 0 <= k < index ==> value@[k] == s[open + 1 + k],
            forall|k: int| open + 1 <= k < i ==> s[k] != QUOTE,
        decreases len - i,
    {
        value[index] = bytes[i];
        index += 1;
        i += 1;
    }
    proof {
        let stop = set![QUOTE];
        lemma_first_from(s, open + 1, stop);
        let close = first_from(s, open + 1, stop);
        if close < i {
            assert(stop.contains(s[close]));
        }
        if i == len || s[i as int] == QUOTE {
            lemma_first_from_is(s, open + 1, stop, i as int);
        }
    }
    if index == 36 {
        if i < len && bytes[i] == QUOTE {
            *cursor = i + 1;
            assert(value@ =~= s.subrange(open + 1, i as int));
            Some(value)
        } else {
            *cursor = i;
            None
        }
    } else {
        *cursor = if i < len {
            i + 1
        } else {
            len
        };
        None
    }
}

/// The length of the blank line that ends the headers at position `i`.
fn blank_line(bytes: &[u8], i: usize) -> (n: usize)
    requires
        i < bytes@.len(),
    ensures
        n == blank_line_at(bytes@, i as int),
{
    let len = bytes.len();
    if bytes[i] == LINE_FEED && len - i > 1 && bytes[i + 1] == LINE_FEED {
        2
    } else if bytes[i] == CARRIAGE_RETURN && len - i > 3 && bytes[i + 1] == LINE_FEED && bytes[i
        + 2] == CARRIAGE_RETURN && bytes[i + 3] == LINE_FEED {
        4
    } else {
        0
    }
}

/// Reads amount and correlation id from the headers and body of a payment
/// request. Both fields must be present behind the blank line that ends
/// the headers; the order of the keys and any other keys do not matter.
pub fn parse_body(bytes: &[u8]) -> (r: Option<(u64, [u8; 36])>)
    ensures
        match r {
            Some((amount, id)) => body_fields(bytes@) == Some((amount, id@)),
            None => body_fields(bytes@) is None,
        },
{
    let ghost s = bytes@;
    let len = bytes.len();
    let amount_name: [u8; 6] = [0x61, 0x6d, 0x6f, 0x75, 0x6e, 0x74];
    let id_name: [u8; 13] = [
        0x63,
        0x6f,
        0x72,
        0x72,
        0x65,
        0x6c,
        0x61,
        0x74,
        0x69,
        0x6f,
        0x6e,
        0x49,
        0x64,
    ];
    assert(amount_name@ =~= amount_key());
    assert(id_name@ =~= id_key());
    let mut cursor: usize = 0;
    let mut blank: usize = 0;
    while cursor < len
        invariant_except_break
            blank == 0,
            headers_len(s, 0) == cursor + headers_len(s, cursor as int),
        invariant
            s == bytes@,
            len == s.len(),
            cursor <= len,
        ensures
            cursor <= len,
            headers_len(s, 0) == cursor,
            cursor < len ==> blank == blank_line_at(s, cursor as int) && blank > 0,
        decreases len - cursor,
    {
        blank = blank_line(bytes, cursor);
        if blank > 0 {
            break;
        }
        cursor += 1;
    }
    if cursor >= len {
        return None;
    }
    cursor += blank;
    let mut amount: u64 = 0;
    let mut has_amount = false;
    let mut correlation_id = [0u8;36];
    let mut has_id = false;
    while cursor < len && !(has_amount && has_id)
        invariant
            s == bytes@,
            len == s.len(),
            cursor <= len,
            amount_name@ == amount_key(),
            id_name@ == id_key(),
            body_fields(s) == scan_fields(
                s,
                cursor as int,
                if has_amount {
                    Some(amount)
                } else {
                    None
                },
                if has_id {
                    Some(correlation_id@)
                } else {
                    None
                },
            ),
        decreases len - cursor,
    {
        let b = bytes[cursor];
        if b == QUOTE && matches_key(bytes, cursor + 1, amount_name.as_slice()) {
            cursor += 7;
            proof {
                lemma_amount_at_end(s, cursor as int);
            }
            if let Some(value) = parse_float_as_u32_as_bytes(bytes, &mut cursor) {
                has_amount = true;
                amount = value;
            }
        } else if b == QUOTE && matches_key(bytes, cursor + 1, id_name.as_slice()) {
            cursor += 14;
            proof {
                lemma_id_at_end(s, cursor as int);
            }
            if let Some(value) = parse_string(bytes, &mut cursor) {
                correlation_id = value;
                has_id = true;
            }
        } else {
            cursor += 1;
        }
    }
    if has_amount && has_id {
        Some((amount, correlation_id))
    } else {
        None
    }
}

/// Reads the query string at the head of `bytes`, up to the space that ends
/// the request target. Returns the parameters and the number of bytes
/// consumed.
pub fn parse_params(bytes: &[u8]) -> (r: (Params, usize))
    ensures
        r.0@ == params_of(bytes@),
        r.1 == params_offset(bytes@),
        r.1 <= bytes@.len(),
{
    let ghost s = bytes@;
    let ghost qlen = query_len(s);
    let ghost q = s.take(qlen);
    let ghost p: int = 0;
    let mut entries: Vec<(Vec<u8>, Vec<u8>)> = Vec::new();
    let mut offset: usize = 0;
    let mut parse_key = true;
    let mut key: Vec<u8> = Vec::new();
    let mut value: Vec<u8> = Vec::new();
    proof {
        lemma_first_from(s, 0, set![SPACE]);
        assert(q.skip(0) =~= q);
        assert(entries_map(entries@).union_prefer_right(query_params(q)) =~= query_params(q));
        assert(q.subrange(0, 0) =~= Seq::<u8>::empty());
        lemma_first_from(Seq::<u8>::empty(), 0, set![EQUALS]);
        assert(pair_key(Seq::<u8>::empty()) =~= Seq::<u8>::empty());
    }
    while offset < bytes.len() && bytes[offset] != SPACE
        invariant
            s == bytes@,
            qlen == query_len(s),
            q == s.take(qlen),
            0 <= p <= offset <= qlen <= s.len(),
            forall|k: int| 0 <= k < qlen ==> s[k] != SPACE,
            qlen < s.len() ==> s[qlen] == SPACE,
            forall|k: int| p <= k < offset ==> q[k] != AMPERSAND,
            query_params(q) == entries_map(entries@).union_prefer_right(query_params(q.skip(p))),
            key@ == pair_key(q.subrange(p, offset as int)),
            value@ == pair_value(q.subrange(p, offset as int)),
            parse_key == (first_from(q.subrange(p, offset as int), 0, set![EQUALS]) == offset - p),
        decreases s.len() - offset,
    {
        let b = bytes[offset];
        let ghost seg = q.subrange(p, offset as int);
        proof {
            assert(offset < qlen);
            assert(q[offset as int] == b);
            assert(q.subrange(p, offset + 1) =~= seg.push(b));
            lemma_pair_push(seg, b);
        }
        if b == AMPERSAND {
            proof {
                let rest = q.skip(p);
                let amps = set![AMPERSAND];
                assert forall|k: int| 0 <= k < offset - p implies !amps.contains(
                    #[trigger] rest[k],
                ) by {
                    assert(rest[k] == q[p + k]);
                }
                assert(rest[offset - p] == b);
                lemma_first_from_is(rest, 0, amps, offset - p);
                assert(rest.take(offset - p) =~= seg);
                assert(rest.skip(offset - p + 1) =~= q.skip(offset + 1));
                let tail = query_params(q.skip(offset + 1));
                assert(query_params(rest) == map![key@ => value@].union_prefer_right(tail));
                let longer = entries@.push((key, value));
                assert(longer.drop_last() =~= entries@);
                assert(entries_map(longer) == entries_map(entries@).insert(key@, value@));
                assert(entries_map(entries@).union_prefer_right(
                    map![key@ => value@].union_prefer_right(tail),
                ) =~= entries_map(longer).union_prefer_right(tail));
            }
            entries.push((key, value));
            key = Vec::new();
            value = Vec::new();
            parse_key = true;
            proof {
                p = offset + 1;
                assert(q.subrange(p, p) =~= Seq::<u8>::empty());
                lemma_first_from(Seq::<u8>::empty(), 0, set![EQUALS]);
                assert(pair_key(Seq::<u8>::empty()) =~= Seq::<u8>::empty());
            }
        } else if b == EQUALS {
            parse_key = false;
        } else if parse_key {
            key.push(b);
        } else {
            value.push(b);
        }
        offset += 1;
    }
    proof {
        assert(offset == qlen);
        let rest = q.skip(p);
        let amps = set![AMPERSAND];
        assert(rest =~= q.subrange(p, offset as int));
        assert forall|k: int| 0 <= k < rest.len() implies !amps.contains(#[trigger] rest[k]) by {
            assert(rest[k] == q[p + k]);
        }
        lemma_first_from_is(rest, 0, amps, rest.len() as int);
        assert(rest.take(rest.len() as int) =~= rest);
    }
    if value.len() > 0 {
        proof {
            let longer = entries@.push((key, value));
            assert(longer.drop_last() =~= entries@);
            assert(entries_map(entries@).union_prefer_right(map![key@ => value@]) =~= entries_map(
                longer,
            ));
        }
        entries.push((key, value));
    } else {
        assert(entries_map(entries@).union_prefer_right(Map::<Seq<u8>, Seq<u8>>::empty())
            =~= entries_map(entries@));
    }
    if offset < bytes.len() {
        offset += 1;
    }
    (Params { entries }, offset)
}

} // verus!
