//! The request classifier of the gateway.
//!
//! A request is recognised by a deliberately weak hash of its method and
//! route: the wrapping sum of their bytes. Two different routes with the
//! same sum are not told apart; this is accepted for the sake of speed.
use vstd::prelude::*;
use vstd::string::StringSliceAdditionalSpecFns;

use crate::message::http::parse::{body_fields, params_of, parse_body, parse_params};
use crate::message::http::scan::{
    byte_sum, first_from, lemma_byte_sum_push, lemma_first_from, lemma_weighted_sum_push,
    weighted_sum, QUESTION, SLASH, SPACE, WRAP,
};
use crate::message::CorrelationId;

pub mod laws;
pub mod parse;
pub mod response;
pub mod scan;

verus! {

/// A classified request.
#[derive(Clone, Copy, Debug)]
pub enum Request {
    Summary(u32, u32),
    Payment(u64, CorrelationId),
    NotFound,
    BadRequest,
}

/// The mathematical content of a [`Request`].
pub ghost enum Classified {
    Summary { from: u32, to: u32 },
    Payment { amount: u64, id: Seq<u8> },
    NotFound,
    BadRequest,
}

impl View for Request {
    type V = Classified;

    open spec fn view(&self) -> Classified {
        match *self {
            Request::Summary(from, to) => Classified::Summary { from, to },
            Request::Payment(amount, id) => Classified::Payment { amount, id: id@ },
            Request::NotFound => Classified::NotFound,
            Request::BadRequest => Classified::BadRequest,
        }
    }
}

/// Token of `GET /payments-summary`.
pub const SUMMARY: u32 = 2011;

/// Token of `POST /payments`.
pub const PAYMENTS: u32 = 1286;

/// The bytes of `GET /payments-summary`.
pub open spec fn summary_route() -> Seq<u8> {
    seq![
        0x47u8, 0x45, 0x54, 0x20, 0x2f, 0x70, 0x61, 0x79, 0x6d, 0x65, 0x6e, 0x74, 0x73, 0x2d, 0x73,
        0x75, 0x6d, 0x6d, 0x61, 0x72, 0x79,
    ]
}

/// The bytes of `POST /payments`.
pub open spec fn payments_route() -> Seq<u8> {
    seq![0x50u8, 0x4f, 0x53, 0x54, 0x20, 0x2f, 0x70, 0x61, 0x79, 0x6d, 0x65, 0x6e, 0x74, 0x73]
}

/// The token of a byte string: the sum of its bytes, wrapping at 2^32.
pub open spec fn token_of(s: Seq<u8>) -> u32 {
    (byte_sum(s) % (WRAP as nat)) as u32
}

/// The ordinal timestamp of a parameter value: the weighted sum of its
/// bytes, wrapping at 2^32; zero for a missing parameter.
pub open spec fn timestamp_of(value: Option<Seq<u8>>) -> u32 {
    match value {
        Some(s) => (weighted_sum(s) % (WRAP as nat)) as u32,
        None => 0,
    }
}

/// The number of bytes of method and route: everything before the first
/// space or question mark that follows the first slash.
pub open spec fn route_len(s: Seq<u8>) -> int {
    first_from(s, first_from(s, 0, set![SLASH]), set![SPACE, QUESTION])
}

/// The token of the method and route of a request.
pub open spec fn route_token(s: Seq<u8>) -> u32 {
    token_of(s.take(route_len(s)))
}

/// Where the rest of the request begins: behind the byte that ends the
/// route, or at the end of the input if nothing ends it.
pub open spec fn route_offset(s: Seq<u8>) -> int {
    if route_len(s) < s.len() {
        route_len(s) + 1
    } else {
        s.len() as int
    }
}

/// The wrapping sum of `sum` and one more byte.
fn wrapping_step(sum: u32, b: u8) -> (next: u32)
    ensures
        next == (sum + b) % (WRAP as int),
{
    ((sum as u64 + b as u64) % WRAP) as u32
}

/// Folding a byte into a wrapped sum is the same as wrapping the longer sum.
proof fn lemma_wrap_add(total: nat, wrapped: u32, extra: nat)
    requires
        wrapped == total % (WRAP as nat),
    ensures
        (wrapped + extra) % (WRAP as int) == (total + extra) % (WRAP as nat),
{
    vstd::arithmetic::div_mod::lemma_add_mod_noop(total as int, extra as int, WRAP as int);
    vstd::arithmetic::div_mod::lemma_add_mod_noop(wrapped as int, extra as int, WRAP as int);
    vstd::arithmetic::div_mod::lemma_mod_twice(total as int, WRAP as int);
}

/// The token of a route given as text, as used for the recognised routes.
pub fn static_token(endpoint: &str) -> (token: u32)
    ensures
        token == token_of(endpoint.spec_bytes()),
{
    let bytes = endpoint.as_bytes();
    let mut token: u32 = 0;
    let mut i: usize = 0;
    while i < bytes.len()
        invariant
            i <= bytes@.len(),
            token == token_of(bytes@.take(i as int)),
        decreases bytes@.len() - i,
    {
        proof {
            let before = bytes@.take(i as int);
            assert(bytes@.take(i + 1) =~= before.push(bytes@[i as int]));
            lemma_byte_sum_push(before, bytes@[i as int]);
            lemma_wrap_add(byte_sum(before), token, bytes@[i as int] as nat);
        }
        token = wrapping_step(token, bytes[i]);
        i += 1;
    }
    assert(bytes@.take(i as int) =~= bytes@);
    token
}

/// The ordinal timestamp of a parameter value.
pub fn simple_timestamp(date_str: Option<&Vec<u8>>) -> (timestamp: u32)
    ensures
        timestamp == timestamp_of(
            match date_str {
                Some(v) => Some(v@),
                None => None,
            },
        ),
{
    match date_str {
        None => 0,
        Some(value) => {
            let mut sum: u32 = 0;
            let mut timestamp: u32 = 0;
            let mut i: usize = 0;
            while i < value.len()
                invariant
                    i <= value@.len(),
                    sum == byte_sum(value@.take(i as int)) % (WRAP as nat),
                    timestamp == weighted_sum(value@.take(i as int)) % (WRAP as nat),
                decreases value@.len() - i,
            {
                let ghost before = value@.take(i as int);
                let ghost b = value@[i as int];
                proof {
                    assert(value@.take(i + 1) =~= before.push(b));
                    lemma_byte_sum_push(before, b);
                    lemma_weighted_sum_push(before, b);
                    lemma_wrap_add(byte_sum(before), sum, b as nat);
                }
                sum = wrapping_step(sum, value[i]);
                proof {
                    lemma_wrap_add(weighted_sum(before), timestamp, byte_sum(before) + b as nat);
                    vstd::arithmetic::div_mod::lemma_add_mod_noop_right(
                        timestamp as int,
                        byte_sum(before) + b,
                        WRAP as int,
                    );
                }
                timestamp = ((timestamp as u64 + sum as u64) % WRAP) as u32;
                i += 1;
            }
            assert(value@.take(i as int) =~= value@);
            timestamp
        },
    }
}

/// Token and offset of a request: the token of its method and route, and
/// the position behind the byte that ends the route.
pub fn endpoint_token(endpoint: &[u8]) -> (r: (u32, usize))
    ensures
        r.0 == route_token(endpoint@),
        r.1 == route_offset(endpoint@),
        r.1 <= endpoint@.len(),
{
    let ghost s = endpoint@;
    let ghost slash = first_from(s, 0, set![SLASH]);
    let ghost stop = set![SPACE, QUESTION];
    let mut parsing_route = false;
    let mut offset: usize = 0;
    let mut token: u32 = 0;
    proof {
        lemma_first_from(s, 0, set![SLASH]);
        lemma_first_from(s, slash, stop);
    }
    while offset < endpoint.len()
        invariant
            s == endpoint@,
            slash == first_from(s, 0, set![SLASH]),
            stop == set![SPACE, QUESTION],
            0 <= slash <= route_len(s) <= s.len(),
            offset <= route_len(s),
            parsing_route == (slash < offset),
            token == token_of(s.take(offset as int)),
            forall|k: int| 0 <= k < slash ==> s[k] != SLASH,
            slash < s.len() ==> s[slash] == SLASH,
            forall|k: int| slash <= k < route_len(s) ==> !stop.contains(#[trigger] s[k]),
            route_len(s) < s.len() ==> stop.contains(s[route_len(s)]),
        decreases s.len() - offset,
    {
        let byte = endpoint[offset];
        if byte == SLASH {
            parsing_route = true;
        }
        if parsing_route && (byte == SPACE || byte == QUESTION) {
            assert(stop.contains(byte));
            assert(offset == route_len(s));
            return (token, offset + 1);
        }
        proof {
            let before = s.take(offset as int);
            assert(s.take(offset + 1) =~= before.push(byte));
            lemma_byte_sum_push(before, byte);
            lemma_wrap_add(byte_sum(before), token, byte as nat);
            if offset as int == route_len(s) {
                assert(stop.contains(byte));
                assert(slash <= offset);
                assert(byte != SLASH);
                assert(slash < offset);
            }
        }
        token = wrapping_step(token, byte);
        offset += 1;
    }
    (token, offset)
}

/// The bytes of the parameter name `from`.
pub open spec fn from_key() -> Seq<u8> {
    seq![0x66u8, 0x72, 0x6f, 0x6d]
}

/// The bytes of the parameter name `to`.
pub open spec fn to_key() -> Seq<u8> {
    seq![0x74u8, 0x6f]
}

/// The value of a parameter, if there is one.
pub open spec fn lookup(params: Map<Seq<u8>, Seq<u8>>, key: Seq<u8>) -> Option<Seq<u8>> {
    if params.contains_key(key) {
        Some(params[key])
    } else {
        None
    }
}

/// What a request is, given the token of its route and what follows the
/// route. A payment needs both of its fields; a summary takes its two
/// timestamps from the query string, zero for a missing one. Only the
/// token decides the kind: a route with the token of a recognised route is
/// taken for that route.
pub open spec fn classify_rest(token: u32, rest: Seq<u8>) -> Classified {
    if token == PAYMENTS {
        match body_fields(rest) {
            Some((amount, id)) => Classified::Payment { amount, id },
            None => Classified::BadRequest,
        }
    } else if token == SUMMARY {
        Classified::Summary {
            from: timestamp_of(lookup(params_of(rest), from_key())),
            to: timestamp_of(lookup(params_of(rest), to_key())),
        }
    } else {
        Classified::NotFound
    }
}

/// What a request is.
pub open spec fn classify(s: Seq<u8>) -> Classified {
    classify_rest(route_token(s), s.skip(route_offset(s)))
}

impl Request {
    /// Classifies the head of a request.
    pub fn from_bytes(bytes: &[u8]) -> (r: Request)
        ensures
            r@ == classify(bytes@),
    {
        let (token, offset) = endpoint_token(bytes);
        let rest = vstd::slice::slice_subrange(bytes, offset, bytes.len());
        assert(rest@ =~= bytes@.skip(offset as int));
        if token == PAYMENTS {
            match parse_body(rest) {
                Some((amount, correlation_id)) => Request::Payment(
                    amount,
                    CorrelationId(correlation_id),
                ),
                None => Request::BadRequest,
            }
        } else if token == SUMMARY {
            let (params, _) = parse_params(rest);
            let from_name: [u8; 4] = [0x66, 0x72, 0x6f, 0x6d];
            let to_name: [u8; 2] = [0x74, 0x6f];
            assert(from_name@ =~= from_key());
            assert(to_name@ =~= to_key());
            let from = simple_timestamp(params.get(from_name.as_slice()));
            let to = simple_timestamp(params.get(to_name.as_slice()));
            Request::Summary(from, to)
        } else {
            Request::NotFound
        }
    }
}

} // verus!
