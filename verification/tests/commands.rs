use momento_ws::cache_request;
use momento_ws::cache_response;
use momento_ws::commands::{
    build_get_request, build_set_request, classify_get_response, classify_set_response,
    GetOutcome, SetOutcome, DEFAULT_TTL_MILLISECONDS,
};
use momento_ws::get_response;
use momento_ws::socket_request;
use momento_ws::socket_response;
use momento_ws::socket_response::{CacheResponse, Status};
use momento_ws::websocket::{GetResponse, SetResponse, SocketResponse};

#[test]
fn build_get_request_wraps_the_key() {
    let r = build_get_request(vec![1, 2]);
    assert_eq!(r.request_id, 0);
    match r.kind {
        Some(socket_request::Kind::Cache(c)) => match c.kind {
            Some(cache_request::Kind::Get(g)) => assert_eq!(g.cache_key, vec![1, 2]),
            _ => panic!("a get request carries a get operation"),
        },
        _ => panic!("a get request carries a cache payload"),
    }
}

#[test]
fn build_set_request_wraps_key_value_and_ttl() {
    let r = build_set_request(b"k".to_vec(), vec![7], DEFAULT_TTL_MILLISECONDS);
    match r.kind {
        Some(socket_request::Kind::Cache(c)) => match c.kind {
            Some(cache_request::Kind::SetOp(s)) => {
                assert_eq!(s.cache_key, b"k".to_vec());
                assert_eq!(s.cache_body, vec![7]);
                assert_eq!(s.ttl_milliseconds, 60000);
            }
            _ => panic!("a set request carries a set operation"),
        },
        _ => panic!("a set request carries a cache payload"),
    }
}

fn error_status_response() -> SocketResponse {
    SocketResponse {
        request_id: 1,
        kind: Some(socket_response::Kind::Error(Status {
            code: 8,
            message: String::from("resource exhausted"),
        })),
    }
}

#[test]
fn error_status_classifies_as_exception_for_get() {
    assert_eq!(classify_get_response(error_status_response()), GetOutcome::Exception);
}

#[test]
fn error_status_classifies_as_exception_for_set() {
    assert_eq!(classify_set_response(&error_status_response()), SetOutcome::Exception);
}

#[test]
fn wrong_operation_result_classifies_as_exception() {
    // A set result arriving for a get, and the other way round.
    let set_result = SocketResponse {
        request_id: 1,
        kind: Some(socket_response::Kind::Cache(CacheResponse {
            kind: Some(cache_response::Kind::SetOp(SetResponse {})),
        })),
    };
    let get_result = SocketResponse {
        request_id: 1,
        kind: Some(socket_response::Kind::Cache(CacheResponse {
            kind: Some(cache_response::Kind::Get(GetResponse {
                kind: Some(get_response::Kind::Miss(true)),
            })),
        })),
    };
    assert_eq!(classify_get_response(set_result), GetOutcome::Exception);
    assert_eq!(classify_set_response(&get_result), SetOutcome::Exception);
}

#[test]
fn empty_response_classifies_as_exception() {
    let empty = SocketResponse { request_id: 1, kind: None };
    assert_eq!(classify_set_response(&empty), SetOutcome::Exception);
    assert_eq!(classify_get_response(empty), GetOutcome::Exception);
}
