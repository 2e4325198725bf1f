use aphrora::http::{Request, RequestMethod, Response, ResponseStatus};
use aphrora::{continue_after, dispatch, ConnectionError, ConnectionOutcome};

fn ok_handler(request: Request) -> Response {
    assert_eq!(request.method, RequestMethod::GET);
    assert_eq!(request.view, "/");
    Response { status: ResponseStatus::OK, message: String::from("ok") }
}

#[test]
fn dispatch_well_formed_request() {
    let bytes = b"GET / HTTP/1.1\r\n\r\n".to_vec();
    let out = dispatch(bytes, ok_handler);
    let expected = Response { status: ResponseStatus::OK, message: String::from("ok") };
    assert_eq!(out.unwrap().as_bytes(), expected.to_string().as_bytes());
}

#[test]
fn dispatch_undecodable_bytes_is_a_decode_failure() {
    let bytes = vec![0xff, 0xfe, 0xfd];
    let out = dispatch(bytes, |_request| Response {
        status: ResponseStatus::OK,
        message: String::new(),
    });
    assert_eq!(out.unwrap_err(), ConnectionError::Decode);
}

#[test]
fn dispatch_failure_does_not_poison_the_next_connection() {
    // one connection's undecodable bytes abort only that connection: the
    // same handler then serves a well-formed one correctly.
    let bad = dispatch(vec![0x80, 0x80], ok_handler);
    assert_eq!(bad.unwrap_err(), ConnectionError::Decode);
    let good = dispatch(b"GET / HTTP/1.1\r\n\r\n".to_vec(), ok_handler);
    assert_eq!(good.unwrap(), "HTTP/1.1 200 OK\r\n\r\nok");
}

#[test]
fn no_connection_outcome_stops_the_accept_loop() {
    assert!(continue_after(&ConnectionOutcome::AcceptFailed));
    assert!(continue_after(&ConnectionOutcome::Served));
    assert!(continue_after(&ConnectionOutcome::Aborted(ConnectionError::Decode)));
    assert!(continue_after(&ConnectionOutcome::Aborted(ConnectionError::Write)));
}

#[test]
fn dispatch_malformed_text_still_gets_a_response() {
    let out = dispatch(b"nonsense".to_vec(), |request: Request| {
        assert_eq!(request.method, RequestMethod::Unsupported);
        Response { status: ResponseStatus::NotFound, message: String::new() }
    });
    assert_eq!(out.unwrap(), "HTTP/1.1 404 Not Found \r\n\r\n");
}
