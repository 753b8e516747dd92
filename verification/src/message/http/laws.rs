//! What holds of the classifier for whole families of requests.
use vstd::prelude::*;

use crate::message::http::parse::{
    amount_at, amount_key, amount_value, blank_line_at, body_start, headers_len, id_at, id_key,
    key_at, lower, pair_key, pair_value, params_of, query_len, query_params, scan_fields, strip,
};
use crate::message::http::scan::{
    byte_sum, decimal, digits, is_digit, lemma_first_from_is, non_digits, weighted_sum,
    AMPERSAND, COLON, DOT, EQUALS, QUESTION, QUOTE, SLASH, SPACE,
};
use crate::message::http::{
    classify, classify_rest, from_key, lookup, payments_route, route_len, route_offset,
    route_token, summary_route, timestamp_of, to_key, token_of, Classified, PAYMENTS, SUMMARY,
};

verus! {

/// Whether every byte of `s` is an ASCII decimal digit.
pub open spec fn all_digits(s: Seq<u8>) -> bool {
    forall|k: int| 0 <= k < s.len() ==> is_digit(#[trigger] s[k])
}

/// An amount as it is written: an integer part, a dot and two digits of
/// cents.
pub open spec fn amount_text(whole: Seq<u8>, c1: u8, c2: u8) -> Seq<u8> {
    whole + seq![DOT, c1, c2]
}

/// The member `"amount": <text>` of a JSON body.
pub open spec fn amount_field(text: Seq<u8>) -> Seq<u8> {
    seq![QUOTE] + amount_key() + seq![QUOTE, COLON, SPACE] + text
}

/// The member `"correlationId": "<id>"` of a JSON body.
pub open spec fn id_field(id: Seq<u8>) -> Seq<u8> {
    seq![QUOTE] + id_key() + seq![QUOTE, COLON, SPACE, QUOTE] + id + seq![QUOTE]
}

/// The body `{"amount": <text>, "correlationId": "<id>"}`.
#[verifier::opaque]
pub open spec fn body_amount_first(text: Seq<u8>, id: Seq<u8>) -> Seq<u8> {
    seq![0x7bu8] + amount_field(text) + seq![0x2cu8, SPACE] + id_field(id) + seq![0x7du8]
}

/// The body `{"correlationId": "<id>", "amount": <text>}`.
#[verifier::opaque]
pub open spec fn body_id_first(text: Seq<u8>, id: Seq<u8>) -> Seq<u8> {
    seq![0x7bu8] + id_field(id) + seq![0x2cu8, SPACE] + amount_field(text) + seq![0x7du8]
}

/// A request for the payments route: the route, a space, and the rest.
pub open spec fn payment_request(rest: Seq<u8>) -> Seq<u8> {
    payments_route() + seq![SPACE] + rest
}

/// The sum of a prefix that is one byte longer.
proof fn lemma_sum_take(s: Seq<u8>, n: int)
    requires
        0 <= n < s.len(),
    ensures
        byte_sum(s.take(n + 1)) == byte_sum(s.take(n)) + s[n],
{
    assert(s.take(n + 1).drop_last() =~= s.take(n));
}

/// The two recognised routes have the tokens that the classifier compares
/// with.
pub proof fn lemma_route_tokens()
    ensures
        token_of(summary_route()) == SUMMARY,
        token_of(payments_route()) == PAYMENTS,
{
    let s = summary_route();
    assert(byte_sum(s.take(0)) == 0);
    lemma_sum_take(s, 0);
    assert(byte_sum(s.take(1)) == 71);
    lemma_sum_take(s, 1);
    assert(byte_sum(s.take(2)) == 140);
    lemma_sum_take(s, 2);
    assert(byte_sum(s.take(3)) == 224);
    lemma_sum_take(s, 3);
    assert(byte_sum(s.take(4)) == 256);
    lemma_sum_take(s, 4);
    assert(byte_sum(s.take(5)) == 303);
    lemma_sum_take(s, 5);
    assert(byte_sum(s.take(6)) == 415);
    lemma_sum_take(s, 6);
    assert(byte_sum(s.take(7)) == 512);
    lemma_sum_take(s, 7);
    assert(byte_sum(s.take(8)) == 633);
    lemma_sum_take(s, 8);
    assert(byte_sum(s.take(9)) == 742);
    lemma_sum_take(s, 9);
    assert(byte_sum(s.take(10)) == 843);
    lemma_sum_take(s, 10);
    assert(byte_sum(s.take(11)) == 953);
    lemma_sum_take(s, 11);
    assert(byte_sum(s.take(12)) == 1069);
    lemma_sum_take(s, 12);
    assert(byte_sum(s.take(13)) == 1184);
    lemma_sum_take(s, 13);
    assert(byte_sum(s.take(14)) == 1229);
    lemma_sum_take(s, 14);
    assert(byte_sum(s.take(15)) == 1344);
    lemma_sum_take(s, 15);
    assert(byte_sum(s.take(16)) == 1461);
    lemma_sum_take(s, 16);
    assert(byte_sum(s.take(17)) == 1570);
    lemma_sum_take(s, 17);
    assert(byte_sum(s.take(18)) == 1679);
    lemma_sum_take(s, 18);
    assert(byte_sum(s.take(19)) == 1776);
    lemma_sum_take(s, 19);
    assert(byte_sum(s.take(20)) == 1890);
    lemma_sum_take(s, 20);
    assert(byte_sum(s.take(21)) == 2011);
    assert(s.take(21) =~= s);
    let p = payments_route();
    assert(byte_sum(p.take(0)) == 0);
    lemma_sum_take(p, 0);
    assert(byte_sum(p.take(1)) == 80);
    lemma_sum_take(p, 1);
    assert(byte_sum(p.take(2)) == 159);
    lemma_sum_take(p, 2);
    assert(byte_sum(p.take(3)) == 242);
    lemma_sum_take(p, 3);
    assert(byte_sum(p.take(4)) == 326);
    lemma_sum_take(p, 4);
    assert(byte_sum(p.take(5)) == 358);
    lemma_sum_take(p, 5);
    assert(byte_sum(p.take(6)) == 405);
    lemma_sum_take(p, 6);
    assert(byte_sum(p.take(7)) == 517);
    lemma_sum_take(p, 7);
    assert(byte_sum(p.take(8)) == 614);
    lemma_sum_take(p, 8);
    assert(byte_sum(p.take(9)) == 735);
    lemma_sum_take(p, 9);
    assert(byte_sum(p.take(10)) == 844);
    lemma_sum_take(p, 10);
    assert(byte_sum(p.take(11)) == 945);
    lemma_sum_take(p, 11);
    assert(byte_sum(p.take(12)) == 1055);
    lemma_sum_take(p, 12);
    assert(byte_sum(p.take(13)) == 1171);
    lemma_sum_take(p, 13);
    assert(byte_sum(p.take(14)) == 1286);
    assert(p.take(14) =~= p);
}

/// A request that begins with the payments route and a space is taken for
/// a payment, and the rest of it is what is searched for the two fields.
pub proof fn lemma_payment_route(rest: Seq<u8>)
    ensures
        route_token(payment_request(rest)) == PAYMENTS,
        route_offset(payment_request(rest)) == 15,
        payment_request(rest).skip(15) == rest,
        classify(payment_request(rest)) == classify_rest(PAYMENTS, rest),
{
    let s = payment_request(rest);
    let p = payments_route();
    assert(s.len() == 15 + rest.len());
    assert forall|k: int| 0 <= k < 14 implies s[k] == p[k] by {}
    assert(s[14] == SPACE);
    lemma_first_from_is(s, 0, set![SLASH], 5);
    lemma_first_from_is(s, 5, set![SPACE, QUESTION], 14);
    assert(route_len(s) == 14);
    assert(s.take(14) =~= p);
    lemma_route_tokens();
    assert(s.skip(15) =~= rest);
}

/// The first blank line counted from `start` stands at `at`.
proof fn lemma_headers_len_is(s: Seq<u8>, start: int, at: int)
    requires
        0 <= start <= at <= s.len(),
        forall|k: int| start <= k < at ==> blank_line_at(s, k) == 0,
        at < s.len() ==> blank_line_at(s, at) > 0,
    ensures
        start + headers_len(s, start) == at,
    decreases at - start,
{
    if start < at {
        lemma_headers_len_is(s, start + 1, at);
    }
}

/// Where the first blank line counted from `start` stands.
proof fn lemma_headers_len(s: Seq<u8>, start: int)
    requires
        0 <= start <= s.len(),
    ensures
        start + headers_len(s, start) <= s.len(),
        forall|k: int| start <= k < start + headers_len(s, start) ==> blank_line_at(s, k) == 0,
        start + headers_len(s, start) < s.len() ==> blank_line_at(
            s,
            start + headers_len(s, start),
        ) > 0,
    decreases s.len() - start,
{
    if start < s.len() && blank_line_at(s, start) == 0 {
        lemma_headers_len(s, start + 1);
    }
}

/// Headers that end with their first blank line keep that end whatever
/// body follows them.
pub proof fn lemma_body_follows_headers(head: Seq<u8>, body: Seq<u8>)
    requires
        body_start(head) == Some(head.len() as int),
    ensures
        body_start(head + body) == Some(head.len() as int),
{
    let s = head + body;
    let h = headers_len(head, 0) as int;
    lemma_headers_len(head, 0);
    assert(h < head.len());
    assert(h + blank_line_at(head, h) == head.len());
    assert forall|k: int| 0 <= k < head.len() implies s[k] == head[k] by {}
    assert forall|k: int| 0 <= k < h implies blank_line_at(s, k) == 0 by {
        assert(blank_line_at(head, k) == 0);
        assert(blank_line_at(head, h) > 0);
    }
    assert(blank_line_at(s, h) == blank_line_at(head, h));
    lemma_headers_len_is(s, 0, h);
}

/// The search for the fields passes over a byte that is no quote.
proof fn lemma_scan_skips(s: Seq<u8>, pos: int, amount: Option<u64>, id: Option<Seq<u8>>)
    requires
        0 <= pos < s.len(),
        s[pos] != QUOTE,
        !(amount is Some && id is Some),
    ensures
        scan_fields(s, pos, amount, id) == scan_fields(s, pos + 1, amount, id),
{
}

/// The amount member, where it stands in `s` at `p` and a byte that is no
/// digit follows it, is recognised and read, and reading stops behind
/// that byte.
proof fn lemma_amount_member(s: Seq<u8>, p: int, whole: Seq<u8>, c1: u8, c2: u8)
    requires
        0 <= p,
        p + 13 + whole.len() < s.len(),
        s.subrange(p, p + 13 + whole.len()) == amount_field(amount_text(whole, c1, c2)),
        !is_digit(s[p + 13 + whole.len()]),
        whole.len() > 0,
        all_digits(whole),
        is_digit(c1),
        is_digit(c2),
    ensures
        s[p] == QUOTE,
        key_at(s, p + 1, amount_key()),
        amount_at(s, p + 7) == (
            amount_value(whole, seq![c1, c2]),
            p + 14 + whole.len() as int,
        ),
{
    let n = whole.len() as int;
    let text = amount_text(whole, c1, c2);
    let field = amount_field(text);
    let part = s.subrange(p, p + 13 + n);
    assert(field.len() == 13 + n);
    assert forall|k: int| 0 <= k < 13 + n implies s[p + k] == field[k] by {
        assert(part[k] == s[p + k]);
    }
    assert(field[0] == QUOTE);
    assert forall|k: int| 0 <= k < 6 implies field[1 + k] == amount_key()[k] by {}
    assert(field[7] == QUOTE);
    assert(field[8] == COLON);
    assert(field[9] == SPACE);
    assert forall|k: int| 0 <= k < n implies field[10 + k] == whole[k] by {
        assert(text[k] == whole[k]);
    }
    assert(field[10 + n] == DOT) by {
        assert(text[n] == DOT);
    }
    assert(field[11 + n] == c1) by {
        assert(text[n + 1] == c1);
    }
    assert(field[12 + n] == c2) by {
        assert(text[n + 2] == c2);
    }
    assert(key_at(s, p + 1, amount_key())) by {
        assert forall|k: int| 0 <= k < 6 implies lower(#[trigger] s[p + 1 + k]) == lower(
            amount_key()[k],
        ) by {
            assert(s[p + (1 + k)] == field[1 + k]);
        }
    }
    assert(s[p + 7] == QUOTE);
    assert(s[p + 8] == COLON);
    assert(s[p + 9] == SPACE);
    lemma_first_from_is(s, p + 7, set![COLON], p + 8);
    let wanted = digits().insert(DOT);
    assert(s[p + 10] == whole[0]) by {
        assert(s[p + 10] == field[10]);
    }
    assert(wanted.contains(s[p + 10]));
    lemma_first_from_is(s, p + 9, wanted, p + 10);
    let d = p + 10;
    let e = d + n;
    assert forall|k: int| d <= k < e implies !non_digits().contains(#[trigger] s[k]) by {
        assert(s[p + (10 + (k - d))] == field[10 + (k - d)]);
        assert(is_digit(whole[k - d]));
    }
    assert(s[e] == DOT) by {
        assert(s[p + (10 + n)] == field[10 + n]);
    }
    lemma_first_from_is(s, d, non_digits(), e);
    assert(s[e + 1] == c1) by {
        assert(s[p + (11 + n)] == field[11 + n]);
    }
    assert(s[e + 2] == c2) by {
        assert(s[p + (12 + n)] == field[12 + n]);
    }
    assert forall|k: int| e + 1 <= k < e + 3 implies !non_digits().contains(#[trigger] s[k]) by {}
    lemma_first_from_is(s, e + 1, non_digits(), e + 3);
    assert(s.subrange(d, e) =~= whole);
    assert(s.subrange(e + 1, e + 3) =~= seq![c1, c2]);
}

/// The correlation id member, where it stands in `s` at `p`, is not taken
/// for the amount, is recognised and read, and reading stops behind it.
proof fn lemma_id_member(s: Seq<u8>, p: int, id: Seq<u8>)
    requires
        0 <= p,
        p + 55 <= s.len(),
        s.subrange(p, p + 55) == id_field(id),
        id.len() == 36,
        forall|k: int| 0 <= k < 36 ==> id[k] != QUOTE,
    ensures
        s[p] == QUOTE,
        !key_at(s, p + 1, amount_key()),
        key_at(s, p + 1, id_key()),
        id_at(s, p + 14) == (Some(id), p + 55),
{
    let field = id_field(id);
    let part = s.subrange(p, p + 55);
    assert(field.len() == 55);
    assert forall|k: int| 0 <= k < 55 implies s[p + k] == field[k] by {
        assert(part[k] == s[p + k]);
    }
    assert(field[0] == QUOTE);
    assert forall|k: int| 0 <= k < 13 implies field[1 + k] == id_key()[k] by {}
    assert(field[14] == QUOTE);
    assert(field[15] == COLON);
    assert(field[16] == SPACE);
    assert(field[17] == QUOTE);
    assert forall|k: int| 0 <= k < 36 implies field[18 + k] == id[k] by {}
    assert(field[54] == QUOTE);
    assert(key_at(s, p + 1, id_key())) by {
        assert forall|k: int| 0 <= k < 13 implies lower(#[trigger] s[p + 1 + k]) == lower(
            id_key()[k],
        ) by {
            assert(s[p + (1 + k)] == field[1 + k]);
        }
    }
    assert(!key_at(s, p + 1, amount_key())) by {
        assert(s[p + 1] == field[1]);
        assert(s[p + 1 + 0] == 0x63);
        assert(amount_key()[0] == 0x61);
    }
    assert(s[p + 14] == QUOTE);
    assert(s[p + 15] == COLON);
    assert(s[p + 16] == SPACE);
    assert(s[p + 17] == QUOTE);
    assert(s[p + 54] == QUOTE);
    lemma_first_from_is(s, p + 14, set![COLON], p + 15);
    lemma_first_from_is(s, p + 16, set![QUOTE], p + 17);
    assert forall|k: int| p + 18 <= k < p + 54 implies !set![QUOTE].contains(#[trigger] s[k]) by {
        assert(s[p + (18 + (k - p - 18))] == field[18 + (k - p - 18)]);
    }
    lemma_first_from_is(s, p + 18, set![QUOTE], p + 54);
    assert(s.subrange(p + 18, p + 54) =~= id);
}

/// The number that two digits denote.
proof fn lemma_two_digits(c1: u8, c2: u8)
    requires
        is_digit(c1),
        is_digit(c2),
    ensures
        decimal(seq![c1, c2]) == (c1 - 0x30) * 10 + (c2 - 0x30),
{
    let s = seq![c1, c2];
    assert(s.drop_last() =~= seq![c1]);
    assert(seq![c1].drop_last() =~= Seq::<u8>::empty());
    assert(decimal(seq![c1]) == decimal(Seq::<u8>::empty()) * 10 + (c1 - 0x30));
}

/// Where the parts of a body with the amount first stand.
proof fn lemma_amount_first_layout(text: Seq<u8>, id: Seq<u8>)
    requires
        id.len() == 36,
    ensures
        ({
            let body = body_amount_first(text, id);
            let m = text.len() as int;
            &&& amount_field(text).len() == 10 + m
            &&& id_field(id).len() == 55
            &&& body.len() == 69 + m
            &&& body[0] == 0x7b
            &&& body.subrange(1, 11 + m) == amount_field(text)
            &&& body[11 + m] == 0x2c
            &&& body[12 + m] == SPACE
            &&& body.subrange(13 + m, 68 + m) == id_field(id)
            &&& body[68 + m] == 0x7d
        }),
{
    reveal(body_amount_first);
    let body = body_amount_first(text, id);
    let m = text.len() as int;
    assert(amount_field(text).len() == 10 + m);
    assert(id_field(id).len() == 55);
    assert(body.subrange(1, 11 + m) =~= amount_field(text));
    assert(body.subrange(13 + m, 68 + m) =~= id_field(id));
}

/// Where the parts of a body with the correlation id first stand.
proof fn lemma_id_first_layout(text: Seq<u8>, id: Seq<u8>)
    requires
        id.len() == 36,
    ensures
        ({
            let body = body_id_first(text, id);
            let m = text.len() as int;
            &&& amount_field(text).len() == 10 + m
            &&& id_field(id).len() == 55
            &&& body.len() == 69 + m
            &&& body[0] == 0x7b
            &&& body.subrange(1, 56) == id_field(id)
            &&& body[56] == 0x2c
            &&& body[57] == SPACE
            &&& body.subrange(58, 68 + m) == amount_field(text)
            &&& body[68 + m] == 0x7d
        }),
{
    reveal(body_id_first);
    let body = body_id_first(text, id);
    let m = text.len() as int;
    assert(amount_field(text).len() == 10 + m);
    assert(id_field(id).len() == 55);
    assert(body.subrange(1, 56) =~= id_field(id));
    assert(body.subrange(58, 68 + m) =~= amount_field(text));
}

/// A part of what follows `head` is the same part of `head + body`, moved
/// by the length of `head`.
proof fn lemma_behind_head(head: Seq<u8>, body: Seq<u8>, i: int, j: int)
    requires
        0 <= i <= j <= body.len(),
    ensures
        (head + body).subrange(head.len() + i, head.len() + j) == body.subrange(i, j),
        i < body.len() ==> (head + body)[head.len() + i] == body[i],
{
    assert((head + body).subrange(head.len() + i, head.len() + j) =~= body.subrange(i, j));
}

/// What the search for the fields finds in `s` from `b` on, where a body
/// with the amount first stands there.
proof fn lemma_scan_amount_first(
    s: Seq<u8>,
    b: int,
    whole: Seq<u8>,
    c1: u8,
    c2: u8,
    id: Seq<u8>,
)
    requires
        0 <= b,
        s.len() == b + 72 + whole.len(),
        s[b] == 0x7b,
        s.subrange(b + 1, b + 14 + whole.len()) == amount_field(amount_text(whole, c1, c2)),
        s[b + 14 + whole.len()] == 0x2c,
        s[b + 15 + whole.len()] == SPACE,
        s.subrange(b + 16 + whole.len(), b + 71 + whole.len()) == id_field(id),
        whole.len() > 0,
        all_digits(whole),
        is_digit(c1),
        is_digit(c2),
        amount_value(whole, seq![c1, c2]) is Some,
        id.len() == 36,
        forall|k: int| 0 <= k < 36 ==> id[k] != QUOTE,
    ensures
        scan_fields(s, b, None, None) == Some((amount_value(whole, seq![c1, c2])->0, id)),
{
    let n = whole.len() as int;
    let amount = amount_value(whole, seq![c1, c2]);
    lemma_scan_skips(s, b, None, None);
    lemma_amount_member(s, b + 1, whole, c1, c2);
    assert(scan_fields(s, b + 1, None, None) == scan_fields(s, b + 15 + n, amount, None));
    lemma_scan_skips(s, b + 15 + n, amount, None);
    lemma_id_member(s, b + 16 + n, id);
    assert(scan_fields(s, b + 16 + n, amount, None) == scan_fields(
        s,
        b + 71 + n,
        amount,
        Some(id),
    ));
}

/// What the search for the fields finds in `s` from `b` on, where a body
/// with the correlation id first stands there.
proof fn lemma_scan_id_first(s: Seq<u8>, b: int, whole: Seq<u8>, c1: u8, c2: u8, id: Seq<u8>)
    requires
        0 <= b,
        s.len() == b + 72 + whole.len(),
        s[b] == 0x7b,
        s.subrange(b + 1, b + 56) == id_field(id),
        s[b + 56] == 0x2c,
        s[b + 57] == SPACE,
        s.subrange(b + 58, b + 71 + whole.len()) == amount_field(amount_text(whole, c1, c2)),
        s[b + 71 + whole.len()] == 0x7d,
        whole.len() > 0,
        all_digits(whole),
        is_digit(c1),
        is_digit(c2),
        amount_value(whole, seq![c1, c2]) is Some,
        id.len() == 36,
        forall|k: int| 0 <= k < 36 ==> id[k] != QUOTE,
    ensures
        scan_fields(s, b, None, None) == Some((amount_value(whole, seq![c1, c2])->0, id)),
{
    let n = whole.len() as int;
    let amount = amount_value(whole, seq![c1, c2]);
    lemma_scan_skips(s, b, None, None);
    lemma_id_member(s, b + 1, id);
    assert(scan_fields(s, b + 1, None, None) == scan_fields(s, b + 56, None, Some(id)));
    lemma_scan_skips(s, b + 56, None, Some(id));
    lemma_scan_skips(s, b + 57, None, Some(id));
    lemma_amount_member(s, b + 58, whole, c1, c2);
    assert(scan_fields(s, b + 58, None, Some(id)) == scan_fields(
        s,
        b + 72 + n,
        amount,
        Some(id),
    ));
}

/// The amount that an integer part below 2^56 and two digits of cents
/// denote fits into 64 bits.
proof fn lemma_amount_fits(whole: Seq<u8>, c1: u8, c2: u8)
    requires
        whole.len() > 0,
        decimal(whole) < 0x100_0000_0000_0000,
        is_digit(c1),
        is_digit(c2),
    ensures
        amount_value(whole, seq![c1, c2]) == Some(
            (decimal(whole) * 100 + (c1 - 0x30) * 10 + (c2 - 0x30)) as u64,
        ),
{
    lemma_two_digits(c1, c2);
}

/// A payment request whose headers end with their first blank line, and
/// in whose body the search finds both fields, is classified as that
/// payment.
proof fn lemma_payment_classified(head: Seq<u8>, body: Seq<u8>, amount: u64, id: Seq<u8>)
    requires
        body_start(head) == Some(head.len() as int),
        scan_fields(head + body, head.len() as int, None, None) == Some((amount, id)),
    ensures
        classify(payment_request(head + body)) == (Classified::Payment { amount, id }),
{
    lemma_payment_route(head + body);
    lemma_body_follows_headers(head, body);
}

/// What the search finds behind the headers in a body that is laid out
/// with the amount first.
proof fn lemma_fields_amount_first(
    head: Seq<u8>,
    body: Seq<u8>,
    whole: Seq<u8>,
    c1: u8,
    c2: u8,
    id: Seq<u8>,
)
    requires
        body.len() == 72 + whole.len() as int,
        body[0] == 0x7b,
        body.subrange(1, 14 + whole.len() as int) == amount_field(amount_text(whole, c1, c2)),
        body[14 + whole.len() as int] == 0x2c,
        body[15 + whole.len() as int] == SPACE,
        body.subrange(16 + whole.len() as int, 71 + whole.len() as int) == id_field(id),
        whole.len() > 0,
        all_digits(whole),
        is_digit(c1),
        is_digit(c2),
        amount_value(whole, seq![c1, c2]) is Some,
        id.len() == 36,
        forall|k: int| 0 <= k < 36 ==> id[k] != QUOTE,
    ensures
        scan_fields(head + body, head.len() as int, None, None) == Some(
            (amount_value(whole, seq![c1, c2])->0, id),
        ),
{
    let n = whole.len() as int;
    lemma_behind_head(head, body, 0, 0);
    lemma_behind_head(head, body, 1, 14 + n);
    lemma_behind_head(head, body, 14 + n, 14 + n);
    lemma_behind_head(head, body, 15 + n, 15 + n);
    lemma_behind_head(head, body, 16 + n, 71 + n);
    lemma_scan_amount_first(head + body, head.len() as int, whole, c1, c2, id);
}

/// What the search finds behind the headers in a body that is laid out
/// with the correlation id first.
proof fn lemma_fields_id_first(
    head: Seq<u8>,
    body: Seq<u8>,
    whole: Seq<u8>,
    c1: u8,
    c2: u8,
    id: Seq<u8>,
)
    requires
        body.len() == 72 + whole.len() as int,
        body[0] == 0x7b,
        body.subrange(1, 56) == id_field(id),
        body[56] == 0x2c,
        body[57] == SPACE,
        body.subrange(58, 71 + whole.len() as int) == amount_field(amount_text(whole, c1, c2)),
        body[71 + whole.len() as int] == 0x7d,
        whole.len() > 0,
        all_digits(whole),
        is_digit(c1),
        is_digit(c2),
        amount_value(whole, seq![c1, c2]) is Some,
        id.len() == 36,
        forall|k: int| 0 <= k < 36 ==> id[k] != QUOTE,
    ensures
        scan_fields(head + body, head.len() as int, None, None) == Some(
            (amount_value(whole, seq![c1, c2])->0, id),
        ),
{
    let n = whole.len() as int;
    lemma_behind_head(head, body, 0, 0);
    lemma_behind_head(head, body, 1, 56);
    lemma_behind_head(head, body, 56, 56);
    lemma_behind_head(head, body, 57, 57);
    lemma_behind_head(head, body, 58, 71 + n);
    lemma_behind_head(head, body, 71 + n, 71 + n);
    lemma_scan_id_first(head + body, head.len() as int, whole, c1, c2, id);
}

/// A payment whose body names the amount first, then the correlation id,
/// is classified as that payment, with the amount in cents.
///
/// The request is the payments route, a space, and then headers that end
/// with their first blank line, followed by the body
/// `{"amount": N.CC, "correlationId": "<id>"}`. `N` is any string of
/// digits whose value is below 2^56, `CC` are two digits, and the id is
/// any 36 bytes without a quote.
pub proof fn lemma_payment_amount_first(
    head: Seq<u8>,
    whole: Seq<u8>,
    c1: u8,
    c2: u8,
    id: Seq<u8>,
)
    requires
        body_start(head) == Some(head.len() as int),
        whole.len() > 0,
        all_digits(whole),
        decimal(whole) < 0x100_0000_0000_0000,
        is_digit(c1),
        is_digit(c2),
        id.len() == 36,
        forall|k: int| 0 <= k < 36 ==> id[k] != QUOTE,
    ensures
        classify(payment_request(head + body_amount_first(amount_text(whole, c1, c2), id)))
            == (Classified::Payment {
            amount: (decimal(whole) * 100 + (c1 - 0x30) * 10 + (c2 - 0x30)) as u64,
            id,
        }),
{
    lemma_amount_fits(whole, c1, c2);
    lemma_amount_first_layout(amount_text(whole, c1, c2), id);
    assert(amount_text(whole, c1, c2).len() == whole.len() + 3);
    lemma_fields_amount_first(
        head,
        body_amount_first(amount_text(whole, c1, c2), id),
        whole,
        c1,
        c2,
        id,
    );
    lemma_payment_classified(
        head,
        body_amount_first(amount_text(whole, c1, c2), id),
        amount_value(whole, seq![c1, c2])->0,
        id,
    );
}

/// A payment whose body names the correlation id first, then the amount,
/// is classified as the same payment as with the amount first: the order
/// of the keys does not matter.
pub proof fn lemma_payment_id_first(head: Seq<u8>, whole: Seq<u8>, c1: u8, c2: u8, id: Seq<u8>)
    requires
        body_start(head) == Some(head.len() as int),
        whole.len() > 0,
        all_digits(whole),
        decimal(whole) < 0x100_0000_0000_0000,
        is_digit(c1),
        is_digit(c2),
        id.len() == 36,
        forall|k: int| 0 <= k < 36 ==> id[k] != QUOTE,
    ensures
        classify(payment_request(head + body_id_first(amount_text(whole, c1, c2), id))) == (
        Classified::Payment {
            amount: (decimal(whole) * 100 + (c1 - 0x30) * 10 + (c2 - 0x30)) as u64,
            id,
        }),
        classify(payment_request(head + body_id_first(amount_text(whole, c1, c2), id)))
            == classify(
            payment_request(head + body_amount_first(amount_text(whole, c1, c2), id)),
        ),
{
    lemma_payment_amount_first(head, whole, c1, c2, id);
    lemma_amount_fits(whole, c1, c2);
    lemma_id_first_layout(amount_text(whole, c1, c2), id);
    assert(amount_text(whole, c1, c2).len() == whole.len() + 3);
    lemma_fields_id_first(
        head,
        body_id_first(amount_text(whole, c1, c2), id),
        whole,
        c1,
        c2,
        id,
    );
    lemma_payment_classified(
        head,
        body_id_first(amount_text(whole, c1, c2), id),
        amount_value(whole, seq![c1, c2])->0,
        id,
    );
}

/// Whether `v` can stand as a value in a query string: it holds no space,
/// no `&` and no `=`.
pub open spec fn plain(v: Seq<u8>) -> bool {
    forall|k: int|
        0 <= k < v.len() ==> #[trigger] v[k] != SPACE && v[k] != AMPERSAND && v[k] != EQUALS
}

/// The query string `from=<from>&to=<to>`.
#[verifier::opaque]
pub open spec fn summary_query(from: Seq<u8>, to: Seq<u8>) -> Seq<u8> {
    from_key() + seq![EQUALS] + from + seq![AMPERSAND] + to_key() + seq![EQUALS] + to
}

/// A request for the summary route with a query string: the route, a
/// question mark, the query string, a space and what follows.
pub open spec fn summary_request(query: Seq<u8>, tail: Seq<u8>) -> Seq<u8> {
    summary_route() + seq![QUESTION] + query + seq![SPACE] + tail
}

/// A request that begins with the summary route and a question mark is
/// taken for a summary, and the rest of it is what is read as the query.
pub proof fn lemma_summary_route(rest: Seq<u8>)
    ensures
        route_token(summary_route() + seq![QUESTION] + rest) == SUMMARY,
        route_offset(summary_route() + seq![QUESTION] + rest) == 22,
        (summary_route() + seq![QUESTION] + rest).skip(22) == rest,
        classify(summary_route() + seq![QUESTION] + rest) == classify_rest(SUMMARY, rest),
{
    let s = summary_route() + seq![QUESTION] + rest;
    let p = summary_route();
    assert(s.len() == 22 + rest.len());
    assert forall|k: int| 0 <= k < 21 implies s[k] == p[k] by {}
    assert(s[21] == QUESTION);
    lemma_first_from_is(s, 0, set![SLASH], 4);
    lemma_first_from_is(s, 4, set![SPACE, QUESTION], 21);
    assert(route_len(s) == 21);
    assert(s.take(21) =~= p);
    lemma_route_tokens();
    assert(s.skip(22) =~= rest);
}

/// Nothing is taken out of a byte string that does not hold the byte.
proof fn lemma_strip_nothing(v: Seq<u8>, b: u8)
    requires
        forall|k: int| 0 <= k < v.len() ==> v[k] != b,
    ensures
        strip(v, b) == v,
    decreases v.len(),
{
    if v.len() > 0 {
        lemma_strip_nothing(v.drop_last(), b);
        assert(v.drop_last().push(v.last()) =~= v);
    }
}

/// Name and value of the pair `<name>=<value>`, where neither holds an
/// `=`.
proof fn lemma_pair(pair: Seq<u8>, name: Seq<u8>, value: Seq<u8>)
    requires
        pair == name + seq![EQUALS] + value,
        forall|k: int| 0 <= k < name.len() ==> name[k] != EQUALS,
        forall|k: int| 0 <= k < value.len() ==> value[k] != EQUALS,
    ensures
        pair_key(pair) == name,
        pair_value(pair) == value,
{
    let n = name.len() as int;
    assert forall|k: int| 0 <= k < n implies !set![EQUALS].contains(#[trigger] pair[k]) by {
        assert(pair[k] == name[k]);
    }
    assert(pair[n] == EQUALS);
    lemma_first_from_is(pair, 0, set![EQUALS], n);
    assert(pair.take(n) =~= name);
    assert(pair.skip(n + 1) =~= value);
    lemma_strip_nothing(value, EQUALS);
}

/// The parameters of the query string `from=<from>&to=<to>`.
proof fn lemma_summary_params(from: Seq<u8>, to: Seq<u8>)
    requires
        plain(from),
        plain(to),
    ensures
        lookup(query_params(summary_query(from, to)), from_key()) == Some(from),
        lookup(query_params(summary_query(from, to)), to_key()) == if to.len() > 0 {
            Some(to)
        } else {
            None
        },
{
    reveal(summary_query);
    let q = summary_query(from, to);
    let first = from_key() + seq![EQUALS] + from;
    let second = to_key() + seq![EQUALS] + to;
    let amp = first.len() as int;
    assert(q =~= first + seq![AMPERSAND] + second);
    assert forall|k: int| 0 <= k < amp implies !set![AMPERSAND].contains(#[trigger] q[k]) by {
        assert(q[k] == first[k]);
        if k >= 5 {
            assert(first[k] == from[k - 5]);
        }
    }
    assert(q[amp] == AMPERSAND);
    lemma_first_from_is(q, 0, set![AMPERSAND], amp);
    assert(q.take(amp) =~= first);
    assert(q.skip(amp + 1) =~= second);
    lemma_pair(first, from_key(), from);
    assert forall|k: int| 0 <= k < second.len() implies !set![AMPERSAND].contains(
        #[trigger] second[k],
    ) by {
        if k >= 3 {
            assert(second[k] == to[k - 3]);
        }
    }
    lemma_first_from_is(second, 0, set![AMPERSAND], second.len() as int);
    assert(second.take(second.len() as int) =~= second);
    lemma_pair(second, to_key(), to);
    assert(from_key() != to_key()) by {
        assert(from_key().len() != to_key().len());
    }
    let later = query_params(second);
    assert(later == if to.len() > 0 {
        map![to_key() => to]
    } else {
        Map::<Seq<u8>, Seq<u8>>::empty()
    });
    let all = query_params(q);
    assert(all == map![from_key() => from].union_prefer_right(later));
    assert(!later.contains_key(from_key()));
    assert(all.contains_key(from_key()) && all[from_key()] == from);
    assert(all.contains_key(to_key()) == later.contains_key(to_key()));
}

/// The query string `from=<from>&to=<to>` holds no space.
proof fn lemma_summary_query_unbroken(from: Seq<u8>, to: Seq<u8>)
    requires
        plain(from),
        plain(to),
    ensures
        forall|k: int|
            0 <= k < summary_query(from, to).len() ==> #[trigger] summary_query(from, to)[k]
                != SPACE,
{
    reveal(summary_query);
    let q = summary_query(from, to);
    assert forall|k: int| 0 <= k < q.len() implies #[trigger] q[k] != SPACE by {
        if 5 <= k < 5 + from.len() {
            assert(q[k] == from[k - 5]);
        } else if k >= 9 + from.len() {
            assert(q[k] == to[k - 9 - from.len()]);
        }
    }
}

/// A query string without a space, followed by a space, is read to its
/// end and no further.
proof fn lemma_query_ends(q: Seq<u8>, tail: Seq<u8>)
    requires
        forall|k: int| 0 <= k < q.len() ==> #[trigger] q[k] != SPACE,
    ensures
        params_of(q + seq![SPACE] + tail) == query_params(q),
{
    let rest = q + seq![SPACE] + tail;
    let n = q.len() as int;
    assert forall|k: int| 0 <= k < n implies !set![SPACE].contains(#[trigger] rest[k]) by {
        assert(rest[k] == q[k]);
    }
    assert(rest[n] == SPACE);
    lemma_first_from_is(rest, 0, set![SPACE], n);
    assert(rest.take(n) =~= q);
}

/// A summary whose query string names both parameters is classified with
/// the timestamps of the two values.
///
/// The request is the summary route, a question mark, the query string
/// `from=<from>&to=<to>`, a space and whatever follows. The two values are
/// any bytes but space, `&` and `=`.
pub proof fn lemma_summary_classified(from: Seq<u8>, to: Seq<u8>, tail: Seq<u8>)
    requires
        plain(from),
        plain(to),
    ensures
        classify(summary_request(summary_query(from, to), tail)) == (Classified::Summary {
            from: timestamp_of(Some(from)),
            to: timestamp_of(Some(to)),
        }),
{
    let q = summary_query(from, to);
    let rest = q + seq![SPACE] + tail;
    assert(summary_request(q, tail) =~= summary_route() + seq![QUESTION] + rest);
    lemma_summary_route(rest);
    lemma_summary_query_unbroken(from, to);
    lemma_query_ends(q, tail);
    lemma_summary_params(from, to);
    if to.len() == 0 {
        assert(weighted_sum(to) == 0);
    }
}

/// The timestamps of a summary depend on the query string alone: two
/// summary requests with the same query string are classified alike,
/// whatever else they hold.
pub proof fn lemma_summary_depends_on_query(a: Seq<u8>, b: Seq<u8>)
    requires
        route_token(a) == SUMMARY,
        route_token(b) == SUMMARY,
        ({
            let ra = a.skip(route_offset(a));
            let rb = b.skip(route_offset(b));
            ra.take(query_len(ra)) == rb.take(query_len(rb))
        }),
    ensures
        classify(a) is Summary,
        classify(a) == classify(b),
{
}

/// A summary whose query string lacks a parameter has zero for it.
pub proof fn lemma_summary_missing_parameter(s: Seq<u8>)
    requires
        route_token(s) == SUMMARY,
    ensures
        classify(s) is Summary,
        !params_of(s.skip(route_offset(s))).contains_key(from_key()) ==> classify(s)->Summary_from
            == 0,
        !params_of(s.skip(route_offset(s))).contains_key(to_key()) ==> classify(s)->Summary_to
            == 0,
        classify(s)->Summary_from == timestamp_of(
            lookup(params_of(s.skip(route_offset(s))), from_key()),
        ),
        classify(s)->Summary_to == timestamp_of(
            lookup(params_of(s.skip(route_offset(s))), to_key()),
        ),
{
}

/// Only the token of the route decides what a request is taken for: two
/// requests with the same token and the same bytes behind the route are
/// classified alike, whether or not their routes are the same. A route
/// whose bytes add up to the token of a recognised route is therefore
/// accepted as that route.
pub proof fn lemma_token_decides(a: Seq<u8>, b: Seq<u8>)
    requires
        route_token(a) == route_token(b),
        a.skip(route_offset(a)) == b.skip(route_offset(b)),
    ensures
        classify(a) == classify(b),
        route_token(a) == PAYMENTS ==> classify(a) is Payment || classify(a) is BadRequest,
        route_token(a) == SUMMARY ==> classify(a) is Summary,
        route_token(a) != PAYMENTS && route_token(a) != SUMMARY ==> classify(a) is NotFound,
{
}

} // verus!
