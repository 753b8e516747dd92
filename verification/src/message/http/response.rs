//! The four canned responses of the gateway, byte for byte.
use vstd::prelude::*;

verus! {

/// The response to a request for an unknown route: 404, empty body.
///
/// Text: `HTTP/1.1 404 Not Found\r\nContent-Length: 0\r\n\r\n`
pub const NOT_FOUND: [u8; 45] = [
    0x48, 0x54, 0x54, 0x50, 0x2f, 0x31, 0x2e, 0x31, 0x20, 0x34, 0x30, 0x34,
    0x20, 0x4e, 0x6f, 0x74, 0x20, 0x46, 0x6f, 0x75, 0x6e, 0x64, 0x0d, 0x0a,
    0x43, 0x6f, 0x6e, 0x74, 0x65, 0x6e, 0x74, 0x2d, 0x4c, 0x65, 0x6e, 0x67,
    0x74, 0x68, 0x3a, 0x20, 0x30, 0x0d, 0x0a, 0x0d, 0x0a,
];

/// The response to a payment whose body cannot be read: 400, empty body.
///
/// Text: `HTTP/1.1 400 Bad Request\r\nContent-Length: 0\r\n\r\n`
pub const BAD_REQUEST: [u8; 47] = [
    0x48, 0x54, 0x54, 0x50, 0x2f, 0x31, 0x2e, 0x31, 0x20, 0x34, 0x30, 0x30,
    0x20, 0x42, 0x61, 0x64, 0x20, 0x52, 0x65, 0x71, 0x75, 0x65, 0x73, 0x74,
    0x0d, 0x0a, 0x43, 0x6f, 0x6e, 0x74, 0x65, 0x6e, 0x74, 0x2d, 0x4c, 0x65,
    0x6e, 0x67, 0x74, 0x68, 0x3a, 0x20, 0x30, 0x0d, 0x0a, 0x0d, 0x0a,
];

/// The response to an accepted payment: 200, keep-alive headers, empty body.
///
/// Text: `HTTP/1.1 200 OK\r\nConnection: Keep-Alive\r\nKeep-Alive: timeout=30, max=500\r\nContent-Length: 0\r\n\r\n`
pub const OK: [u8; 95] = [
    0x48, 0x54, 0x54, 0x50, 0x2f, 0x31, 0x2e, 0x31, 0x20, 0x32, 0x30, 0x30,
    0x20, 0x4f, 0x4b, 0x0d, 0x0a, 0x43, 0x6f, 0x6e, 0x6e, 0x65, 0x63, 0x74,
    0x69, 0x6f, 0x6e, 0x3a, 0x20, 0x4b, 0x65, 0x65, 0x70, 0x2d, 0x41, 0x6c,
    0x69, 0x76, 0x65, 0x0d, 0x0a, 0x4b, 0x65, 0x65, 0x70, 0x2d, 0x41, 0x6c,
    0x69, 0x76, 0x65, 0x3a, 0x20, 0x74, 0x69, 0x6d, 0x65, 0x6f, 0x75, 0x74,
    0x3d, 0x33, 0x30, 0x2c, 0x20, 0x6d, 0x61, 0x78, 0x3d, 0x35, 0x30, 0x30,
    0x0d, 0x0a, 0x43, 0x6f, 0x6e, 0x74, 0x65, 0x6e, 0x74, 0x2d, 0x4c, 0x65,
    0x6e, 0x67, 0x74, 0x68, 0x3a, 0x20, 0x30, 0x0d, 0x0a, 0x0d, 0x0a,
];

/// The response to a summary request: 200 and a body of 98 bytes with all counters at zero.
///
/// Text: `HTTP/1.1 200 OK\r\nContent-Length: 98\r\n\r\n{"default":{"totalRequests": 0,"totalAmount": 0},"fallback":{"totalRequests": 0,"totalAmount": 0}}`
pub const SUMMARY: [u8; 137] = [
    0x48, 0x54, 0x54, 0x50, 0x2f, 0x31, 0x2e, 0x31, 0x20, 0x32, 0x30, 0x30,
    0x20, 0x4f, 0x4b, 0x0d, 0x0a, 0x43, 0x6f, 0x6e, 0x74, 0x65, 0x6e, 0x74,
    0x2d, 0x4c, 0x65, 0x6e, 0x67, 0x74, 0x68, 0x3a, 0x20, 0x39, 0x38, 0x0d,
    0x0a, 0x0d, 0x0a, 0x7b, 0x22, 0x64, 0x65, 0x66, 0x61, 0x75, 0x6c, 0x74,
    0x22, 0x3a, 0x7b, 0x22, 0x74, 0x6f, 0x74, 0x61, 0x6c, 0x52, 0x65, 0x71,
    0x75, 0x65, 0x73, 0x74, 0x73, 0x22, 0x3a, 0x20, 0x30, 0x2c, 0x22, 0x74,
    0x6f, 0x74, 0x61, 0x6c, 0x41, 0x6d, 0x6f, 0x75, 0x6e, 0x74, 0x22, 0x3a,
    0x20, 0x30, 0x7d, 0x2c, 0x22, 0x66, 0x61, 0x6c, 0x6c, 0x62, 0x61, 0x63,
    0x6b, 0x22, 0x3a, 0x7b, 0x22, 0x74, 0x6f, 0x74, 0x61, 0x6c, 0x52, 0x65,
    0x71, 0x75, 0x65, 0x73, 0x74, 0x73, 0x22, 0x3a, 0x20, 0x30, 0x2c, 0x22,
    0x74, 0x6f, 0x74, 0x61, 0x6c, 0x41, 0x6d, 0x6f, 0x75, 0x6e, 0x74, 0x22,
    0x3a, 0x20, 0x30, 0x7d, 0x7d,
];

/// The length of the headers of the summary response, blank line included.
pub const SUMMARY_HEAD: usize = 39;

/// Each response announces the length of its body: the summary response
/// carries 98 bytes behind its headers, the others end with the blank
/// line, which every response has.
pub proof fn lemma_content_lengths()
    ensures
        SUMMARY@.len() == SUMMARY_HEAD + 98,
        SUMMARY@.subrange(SUMMARY_HEAD - 4, SUMMARY_HEAD as int) == seq![0x0du8, 0x0a, 0x0d, 0x0a],
        OK@.subrange(OK@.len() - 4, OK@.len() as int) == seq![0x0du8, 0x0a, 0x0d, 0x0a],
        NOT_FOUND@.subrange(NOT_FOUND@.len() - 4, NOT_FOUND@.len() as int) == seq![
            0x0du8,
            0x0a,
            0x0d,
            0x0a,
        ],
        BAD_REQUEST@.subrange(BAD_REQUEST@.len() - 4, BAD_REQUEST@.len() as int) == seq![
            0x0du8,
            0x0a,
            0x0d,
            0x0a,
        ],
{
    assert(SUMMARY@.subrange(SUMMARY_HEAD - 4, SUMMARY_HEAD as int) =~= seq![
        0x0du8,
        0x0a,
        0x0d,
        0x0a,
    ]);
    assert(OK@.subrange(OK@.len() - 4, OK@.len() as int) =~= seq![0x0du8, 0x0a, 0x0d, 0x0a]);
    assert(NOT_FOUND@.subrange(NOT_FOUND@.len() - 4, NOT_FOUND@.len() as int) =~= seq![
        0x0du8,
        0x0a,
        0x0d,
        0x0a,
    ]);
    assert(BAD_REQUEST@.subrange(BAD_REQUEST@.len() - 4, BAD_REQUEST@.len() as int) =~= seq![
        0x0du8,
        0x0a,
        0x0d,
        0x0a,
    ]);
}

} // verus!
