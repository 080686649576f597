use momento_ws::cache_response;
use momento_ws::codec::{decode_request, decode_response, encode_request, encode_response};
use momento_ws::commands::{build_get_request, build_set_request};
use momento_ws::get_response;
use momento_ws::socket_response;
use momento_ws::socket_response::{CacheResponse, Status};
use momento_ws::websocket::{GetResponse, SetResponse, SocketResponse};

fn hit_response(request_id: u64, body: Vec<u8>) -> SocketResponse {
    SocketResponse {
        request_id,
        kind: Some(socket_response::Kind::Cache(CacheResponse {
            kind: Some(cache_response::Kind::Get(GetResponse {
                kind: Some(get_response::Kind::Hit(body)),
            })),
        })),
    }
}

#[test]
fn encode_get_request_exact_bytes() {
    let mut r = build_get_request(b"a".to_vec());
    r.request_id = 7;
    let bytes = encode_request(&r);
    assert_eq!(bytes, vec![0x08, 0x07, 0x12, 0x05, 0x22, 0x03, 0x0a, 0x01, 0x61]);
}

#[test]
fn encode_set_request_exact_bytes() {
    let r = build_set_request(b"k".to_vec(), vec![9], 60000);
    let bytes = encode_request(&r);
    assert_eq!(
        bytes,
        vec![0x12, 0x0c, 0x2a, 0x0a, 0x0a, 0x01, 0x6b, 0x12, 0x01, 0x09, 0x18, 0xe0, 0xd4, 0x03]
    );
}

#[test]
fn request_round_trips_through_the_codec() {
    let mut r = build_set_request(b"a".to_vec(), vec![1, 2, 3], 60000);
    r.request_id = 12345;
    let bytes = encode_request(&r);
    assert_eq!(decode_request(&bytes), Some(r));
}

#[test]
fn get_request_round_trips_with_large_id() {
    let mut r = build_get_request(b"missing".to_vec());
    r.request_id = u64::MAX;
    let bytes = encode_request(&r);
    assert_eq!(decode_request(&bytes), Some(r));
}

#[test]
fn hit_response_round_trips() {
    let r = hit_response(5, vec![1, 2, 3]);
    let bytes = encode_response(&r);
    assert_eq!(decode_response(&bytes), Some(r));
}

#[test]
fn decode_hit_response_exact_bytes() {
    let bytes = vec![0x08, 0x05, 0x1a, 0x07, 0x0a, 0x05, 0x0a, 0x03, 0x01, 0x02, 0x03];
    let r = decode_response(&bytes).expect("well-formed frame");
    assert_eq!(r, hit_response(5, vec![1, 2, 3]));
}

#[test]
fn miss_response_round_trips() {
    let r = SocketResponse {
        request_id: 9,
        kind: Some(socket_response::Kind::Cache(CacheResponse {
            kind: Some(cache_response::Kind::Get(GetResponse {
                kind: Some(get_response::Kind::Miss(true)),
            })),
        })),
    };
    let bytes = encode_response(&r);
    assert_eq!(decode_response(&bytes), Some(r));
}

#[test]
fn set_response_round_trips() {
    let r = SocketResponse {
        request_id: 2,
        kind: Some(socket_response::Kind::Cache(CacheResponse {
            kind: Some(cache_response::Kind::SetOp(SetResponse {})),
        })),
    };
    let bytes = encode_response(&r);
    assert_eq!(decode_response(&bytes), Some(r));
}

#[test]
fn error_status_with_negative_code_round_trips() {
    let r = SocketResponse {
        request_id: 3,
        kind: Some(socket_response::Kind::Error(Status {
            code: -3,
            message: String::from("resource exhausted"),
        })),
    };
    let bytes = encode_response(&r);
    assert_eq!(decode_response(&bytes), Some(r));
}

#[test]
fn decode_rejects_truncated_frame() {
    assert_eq!(decode_response(&vec![0x12]), None);
    assert_eq!(decode_response(&vec![0x12, 0x05, 0x22]), None);
}

#[test]
fn decode_rejects_wide_key() {
    assert_eq!(decode_response(&vec![0xff, 0x01]), None);
}

#[test]
fn decode_rejects_invalid_utf8_status_message() {
    // Status with field 2 holding the lone continuation byte 0x80.
    let bytes = vec![0x12, 0x03, 0x12, 0x01, 0x80];
    assert_eq!(decode_response(&bytes), None);
}

#[test]
fn decode_skips_unknown_field() {
    // Field 7 (varint 1) is not part of the request schema: skipped.
    let bytes = vec![0x38, 0x01, 0x08, 0x07];
    let r = decode_request(&bytes).expect("unknown fields are skipped");
    assert_eq!(r.request_id, 7);
    assert_eq!(r.kind, None);
}

#[test]
fn decode_empty_frame_gives_defaults() {
    let r = decode_request(&Vec::new()).expect("empty body decodes to defaults");
    assert_eq!(r.request_id, 0);
    assert_eq!(r.kind, None);
}
