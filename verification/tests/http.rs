use gateway::message::http::parse::{
    parse_body, parse_float_as_u32_as_bytes, parse_params, parse_string,
};
use gateway::message::http::{
    endpoint_token, simple_timestamp, static_token, Request, PAYMENTS, SUMMARY,
};

const ID: &[u8; 36] = b"4a7b1e2c-3d4f-5e6a-7b8c-9d0e1f2a3b4c";

#[test]
fn test_match_tokens() {
    let one = static_token("GET /one");
    let two = static_token("POST /two");
    let one_match = endpoint_token(b"GET /one HTTP1.1");
    let two_match = endpoint_token(b"POST /two?d=x");

    assert_eq!(one_match.0, one);
    assert_eq!(one_match.1, 9);
    assert_eq!(two_match.0, two);
    assert_eq!(two_match.1, 10);
}

#[test]
fn test_parse_summary() {
    let params = b"from=2020-07-10T12%3A34%3A56.000Z&to=2020-07-10T12%3A35%3A56.000Z HTTP/1.1";
    let (params, offset) = parse_params(params);
    assert_eq!(offset, 66);
    assert_eq!(
        params.get(b"from"),
        Some(&b"2020-07-10T12%3A34%3A56.000Z".to_vec())
    );
    assert_eq!(
        params.get(b"to"),
        Some(&b"2020-07-10T12%3A35%3A56.000Z".to_vec())
    );
    let params = b"to=2020-07-10T12%3A35%3A56.000Z HTTP/1.1";
    let (params, offset) = parse_params(params);
    assert_eq!(params.get(b"from"), None);
    assert_eq!(offset, 32);
}

#[test]
fn recognised_route_tokens() {
    assert_eq!(static_token("GET /payments-summary"), SUMMARY);
    assert_eq!(static_token("POST /payments"), PAYMENTS);
    assert_eq!(SUMMARY, 2011);
    assert_eq!(PAYMENTS, 1286);
}

#[test]
fn endpoint_token_without_terminator() {
    assert_eq!(endpoint_token(b""), (0, 0));
    assert_eq!(endpoint_token(b"GET"), (71 + 69 + 84, 3));
    // a space before the first slash does not end the route
    assert_eq!(endpoint_token(b"A B"), (65 + 32 + 66, 3));
    assert_eq!(endpoint_token(b"A /b"), (65 + 32 + 47 + 98, 4));
    assert_eq!(endpoint_token(b"/?"), (47, 2));
}

#[test]
fn timestamp_is_the_weighted_byte_sum() {
    assert_eq!(simple_timestamp(None), 0);
    assert_eq!(simple_timestamp(Some(&Vec::new())), 0);
    assert_eq!(simple_timestamp(Some(&b"a".to_vec())), 97);
    // 'a' * 3 + 'b' * 2 + 'c' * 1
    assert_eq!(
        simple_timestamp(Some(&b"abc".to_vec())),
        97 * 3 + 98 * 2 + 99
    );
}

#[test]
fn timestamp_wraps() {
    let big = vec![0xffu8; 6000];
    let mut expected: u64 = 0;
    for i in 0..6000u64 {
        expected += 255 * (6000 - i);
    }
    assert!(expected > u32::MAX as u64);
    assert_eq!(
        simple_timestamp(Some(&big)),
        (expected % (1u64 << 32)) as u32
    );
}

#[test]
fn params_edge_cases() {
    let (params, offset) = parse_params(b"");
    assert_eq!(params.entries.len(), 0);
    assert_eq!(offset, 0);

    // a later pair of the same name wins
    let (params, offset) = parse_params(b"a=1&a=2");
    assert_eq!(params.get(b"a"), Some(&b"2".to_vec()));
    assert_eq!(offset, 7);

    // a pair closed by '&' is entered even with an empty value,
    // the last pair only with a value
    let (params, _) = parse_params(b"a&b");
    assert_eq!(params.get(b"a"), Some(&Vec::new()));
    assert_eq!(params.get(b"b"), None);

    // further '=' signs are dropped from the value
    let (params, _) = parse_params(b"k=v=w x=y");
    assert_eq!(params.get(b"k"), Some(&b"vw".to_vec()));
    assert_eq!(params.get(b"x"), None);
}

#[test]
fn amount_with_cents() {
    let mut cursor = 0;
    assert_eq!(
        parse_float_as_u32_as_bytes(b"\": 19.90, ", &mut cursor),
        Some(1990)
    );
    assert_eq!(cursor, 9);
}

#[test]
fn amount_forms() {
    let amount = |text: &[u8]| {
        let mut cursor = 0;
        let value = parse_float_as_u32_as_bytes(text, &mut cursor);
        (value, cursor)
    };
    assert_eq!(amount(b":10}"), (Some(1000), 4));
    assert_eq!(amount(b":10"), (Some(1000), 3));
    assert_eq!(amount(b": 7.5,"), (Some(705), 6));
    assert_eq!(amount(b":1.239,"), (Some(123), 6));
    assert_eq!(amount(b":1."), (Some(100), 3));
    assert_eq!(amount(b":0.00}"), (Some(0), 6));
    assert_eq!(amount(b": -5.25 "), (Some(525), 8));
    assert_eq!(amount(b":.5 "), (None, 4));
    assert_eq!(amount(b"no colon"), (None, 8));
    assert_eq!(amount(b": abc"), (None, 5));
    assert_eq!(amount(b""), (None, 0));
    assert_eq!(
        amount(b":184467440737095516.15}"),
        (Some(u64::MAX), 23)
    );
    assert_eq!(amount(b":184467440737095516.16}"), (None, 23));
    assert_eq!(amount(b":99999999999999999999999999.00}"), (None, 31));
}

#[test]
fn correlation_id_forms() {
    let id = |text: &[u8]| {
        let mut cursor = 0;
        let value = parse_string(text, &mut cursor);
        (value, cursor)
    };
    let mut exact = b"\": \"".to_vec();
    exact.extend_from_slice(ID);
    exact.extend_from_slice(b"\"}");
    assert_eq!(id(&exact), (Some(*ID), 41));

    let mut short = b": \"".to_vec();
    short.extend_from_slice(&ID[..35]);
    short.extend_from_slice(b"\"}");
    assert_eq!(id(&short), (None, 39));

    let mut long = b": \"".to_vec();
    long.extend_from_slice(ID);
    long.extend_from_slice(b"x\"}");
    assert_eq!(id(&long), (None, 39));

    let mut open = b": \"".to_vec();
    open.extend_from_slice(ID);
    assert_eq!(id(&open), (None, 39));

    assert_eq!(id(b"no colon"), (None, 8));
    assert_eq!(id(b": no quote"), (None, 10));
    assert_eq!(id(b""), (None, 0));
}

fn payment_request(headers: &str, body: &str) -> Vec<u8> {
    let mut request = b"POST /payments HTTP/1.1\r\n".to_vec();
    request.extend_from_slice(headers.as_bytes());
    request.extend_from_slice(b"\r\n");
    request.extend_from_slice(body.as_bytes());
    request
}

fn expect_payment(request: &[u8], amount: u64) {
    match Request::from_bytes(request) {
        Request::Payment(got, id) => {
            assert_eq!(got, amount);
            assert_eq!(&id.0, ID);
        }
        other => panic!("expected a payment, got {:?}", other),
    }
}

#[test]
fn payment_is_classified() {
    let request = b"POST /payments HTTP/1.1\r\nHost: x\r\n\r\n{\"amount\": 19.90, \"correlationId\": \"4a7b1e2c-3d4f-5e6a-7b8c-9d0e1f2a3b4c\"}";
    expect_payment(request, 1990);
}

#[test]
fn summary_is_classified() {
    let request = b"GET /payments-summary?from=2020-07-10T12%3A34%3A56.000Z&to=2020-07-10T12%3A35%3A56.000Z HTTP/1.1\r\n\r\n";
    match Request::from_bytes(request) {
        Request::Summary(from, to) => {
            assert_ne!(from, 0);
            assert_ne!(to, 0);
            assert_eq!(
                from,
                simple_timestamp(Some(&b"2020-07-10T12%3A34%3A56.000Z".to_vec()))
            );
            assert_eq!(
                to,
                simple_timestamp(Some(&b"2020-07-10T12%3A35%3A56.000Z".to_vec()))
            );
        }
        other => panic!("expected a summary, got {:?}", other),
    }
}

#[test]
fn summary_without_parameters() {
    assert!(matches!(
        Request::from_bytes(b"GET /payments-summary HTTP/1.1\r\n\r\n"),
        Request::Summary(0, 0)
    ));
    match Request::from_bytes(b"GET /payments-summary?to=b HTTP/1.1\r\n\r\n") {
        Request::Summary(from, to) => {
            assert_eq!(from, 0);
            assert_eq!(to, 98);
        }
        other => panic!("expected a summary, got {:?}", other),
    }
}

#[test]
fn summary_depends_on_the_query_alone() {
    let a = Request::from_bytes(b"GET /payments-summary?from=ab&to=c HTTP/1.1\r\nHost: x\r\n\r\n");
    let b = Request::from_bytes(b"GET /payments-summary?from=ab&to=c HTTP/1.0\r\nAccept: y\r\n\r\nbody");
    match (a, b) {
        (Request::Summary(f1, t1), Request::Summary(f2, t2)) => {
            assert_eq!((f1, t1), (f2, t2));
            assert_eq!(f1, 97 * 2 + 98);
            assert_eq!(t1, 99);
        }
        _ => panic!("expected two summaries"),
    }
}

#[test]
fn unknown_route_is_not_found() {
    assert!(matches!(
        Request::from_bytes(b"GET /unknown HTTP/1.1\r\n\r\n"),
        Request::NotFound
    ));
    assert!(matches!(Request::from_bytes(b""), Request::NotFound));
}

#[test]
fn missing_correlation_id_is_a_bad_request() {
    assert!(matches!(
        Request::from_bytes(b"POST /payments HTTP/1.1\r\n\r\n{\"amount\": 10}"),
        Request::BadRequest
    ));
}

#[test]
fn missing_amount_is_a_bad_request() {
    let request = payment_request(
        "",
        "{\"correlationId\": \"4a7b1e2c-3d4f-5e6a-7b8c-9d0e1f2a3b4c\"}",
    );
    assert!(matches!(Request::from_bytes(&request), Request::BadRequest));
}

#[test]
fn missing_blank_line_is_a_bad_request() {
    let request = b"POST /payments HTTP/1.1\r\n{\"amount\": 19.90, \"correlationId\": \"4a7b1e2c-3d4f-5e6a-7b8c-9d0e1f2a3b4c\"}";
    assert!(matches!(Request::from_bytes(request), Request::BadRequest));
    assert!(matches!(
        Request::from_bytes(b"POST /payments HTTP/1.1\r\n\r"),
        Request::BadRequest
    ));
    assert!(matches!(
        Request::from_bytes(b"POST /payments HTTP/1.1\n"),
        Request::BadRequest
    ));
}

#[test]
fn key_order_does_not_matter() {
    let first = payment_request(
        "Host: x\r\n",
        "{\"amount\": 19.90, \"correlationId\": \"4a7b1e2c-3d4f-5e6a-7b8c-9d0e1f2a3b4c\"}",
    );
    let second = payment_request(
        "Host: x\r\n",
        "{\"correlationId\": \"4a7b1e2c-3d4f-5e6a-7b8c-9d0e1f2a3b4c\", \"amount\": 19.90}",
    );
    expect_payment(&first, 1990);
    expect_payment(&second, 1990);
}

#[test]
fn integer_amount_before_the_id() {
    let request = payment_request(
        "",
        "{\"amount\": 10, \"correlationId\": \"4a7b1e2c-3d4f-5e6a-7b8c-9d0e1f2a3b4c\"}",
    );
    expect_payment(&request, 1000);
}

#[test]
fn extra_keys_are_ignored() {
    let request = payment_request(
        "Content-Type: application/json\r\n",
        "{\"amount\": 7.05, \"note\": \"x\", \"requestedAt\": 3, \"correlationId\": \"4a7b1e2c-3d4f-5e6a-7b8c-9d0e1f2a3b4c\"}",
    );
    expect_payment(&request, 705);
}

#[test]
fn keys_are_matched_without_regard_to_case() {
    let request = payment_request(
        "",
        "{\"AMOUNT\": 1.00, \"CorrelationID\": \"4a7b1e2c-3d4f-5e6a-7b8c-9d0e1f2a3b4c\"}",
    );
    expect_payment(&request, 100);
}

#[test]
fn line_feed_only_headers() {
    let request = b"POST /payments HTTP/1.1\nHost: x\n\n{\"amount\": 2.50, \"correlationId\": \"4a7b1e2c-3d4f-5e6a-7b8c-9d0e1f2a3b4c\"}";
    expect_payment(request, 250);
}

#[test]
fn wrong_size_ids_are_bad_requests() {
    let short = payment_request(
        "",
        "{\"amount\": 19.90, \"correlationId\": \"4a7b1e2c-3d4f-5e6a-7b8c-9d0e1f2a3b4\"}",
    );
    let long = payment_request(
        "",
        "{\"amount\": 19.90, \"correlationId\": \"4a7b1e2c-3d4f-5e6a-7b8c-9d0e1f2a3b4c5\"}",
    );
    assert!(matches!(Request::from_bytes(&short), Request::BadRequest));
    assert!(matches!(Request::from_bytes(&long), Request::BadRequest));
}

#[test]
fn large_amounts() {
    let body = format!(
        "{{\"amount\": {}.99, \"correlationId\": \"4a7b1e2c-3d4f-5e6a-7b8c-9d0e1f2a3b4c\"}}",
        (1u64 << 56) - 1
    );
    let request = payment_request("", &body);
    expect_payment(&request, ((1u64 << 56) - 1) * 100 + 99);
}

#[test]
fn colliding_route_is_accepted() {
    // same bytes in another order: same sum, so the same token
    let request = b"POST /paymenst HTTP/1.1\r\n\r\n{\"amount\": 19.90, \"correlationId\": \"4a7b1e2c-3d4f-5e6a-7b8c-9d0e1f2a3b4c\"}";
    expect_payment(request, 1990);
    assert!(matches!(
        Request::from_bytes(b"TEG /payments-summary?from=a HTTP/1.1\r\n\r\n"),
        Request::Summary(97, 0)
    ));
}

#[test]
fn parse_body_needs_both_fields() {
    assert_eq!(parse_body(b""), None);
    assert_eq!(parse_body(b"\n\n"), None);
    assert_eq!(parse_body(b"\n\n\"amount\":1.00"), None);
    let mut body = b"HTTP/1.1\r\n\r\n\"amount\":1.00,\"correlationId\":\"".to_vec();
    body.extend_from_slice(ID);
    body.extend_from_slice(b"\"");
    assert_eq!(parse_body(&body), Some((100, *ID)));
}
