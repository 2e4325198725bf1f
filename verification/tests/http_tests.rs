use aphrora::http::{Request, RequestMethod, Response, ResponseStatus};

#[test]
fn parse_get_with_body() {
    let r = Request::from("GET /x HTTP/1.1\r\n\r\nBODY");
    assert_eq!(r.method, RequestMethod::GET);
    assert_eq!(r.view, "/x");
    assert_eq!(r.message, "BODY");
}

#[test]
fn parse_post_empty_body() {
    let r = Request::from("POST /y HTTP/1.1\r\n\r\n");
    assert_eq!(r.method, RequestMethod::POST);
    assert_eq!(r.view, "/y");
    assert_eq!(r.message, "");
}

#[test]
fn parse_empty_input_is_unsupported() {
    let r = Request::from("");
    assert_eq!(r.method, RequestMethod::Unsupported);
    assert_eq!(r.view, "");
    assert_eq!(r.message, "");
}

#[test]
fn parse_garbage_is_unsupported() {
    let r = Request::from("garbage");
    assert_eq!(r.method, RequestMethod::Unsupported);
    assert_eq!(r.view, "");
    assert_eq!(r.message, "");
}

#[test]
fn parse_wrong_protocol_marker_is_unsupported() {
    let r = Request::from("GET /x HTTP/1.0\r\n\r\nBODY");
    assert_eq!(r.method, RequestMethod::Unsupported);
    assert_eq!(r.view, "");
    assert_eq!(r.message, "");
}

#[test]
fn parse_four_tokens_is_unsupported() {
    // the start line ends with the protocol marker but splits into four
    // tokens, so the structural check rejects it.
    let r = Request::from("GET /x /y HTTP/1.1\r\n\r\nBODY");
    assert_eq!(r.method, RequestMethod::Unsupported);
    assert_eq!(r.view, "");
    assert_eq!(r.message, "");
}

#[test]
fn parse_two_tokens_is_unsupported() {
    let r = Request::from("/x HTTP/1.1\r\n\r\n");
    assert_eq!(r.method, RequestMethod::Unsupported);
    assert_eq!(r.view, "");
    assert_eq!(r.message, "");
}

#[test]
fn parse_unknown_method_keeps_view() {
    let r = Request::from("PUT /z HTTP/1.1\r\n\r\ndata");
    assert_eq!(r.method, RequestMethod::Unsupported);
    assert_eq!(r.view, "/z");
    assert_eq!(r.message, "data");
}

#[test]
fn parse_start_line_without_terminator() {
    let r = Request::from("GET /x HTTP/1.1");
    assert_eq!(r.method, RequestMethod::GET);
    assert_eq!(r.view, "/x");
    assert_eq!(r.message, "");
}

#[test]
fn parse_message_takes_everything_after_first_blank_line() {
    let r = Request::from("GET /x HTTP/1.1\r\nHost: h\r\n\r\nA\r\n\r\nB");
    assert_eq!(r.method, RequestMethod::GET);
    assert_eq!(r.view, "/x");
    assert_eq!(r.message, "A\r\n\r\nB");
}

#[test]
fn parse_keeps_non_ascii_target_and_body_verbatim() {
    let r = Request::from("GET /s\u{e9}ite HTTP/1.1\r\n\r\nb\u{f6}dy");
    assert_eq!(r.method, RequestMethod::GET);
    assert_eq!(r.view, "/s\u{e9}ite");
    assert_eq!(r.message, "b\u{f6}dy");
}

#[test]
fn parse_message_without_separator_is_empty() {
    assert_eq!(Request::parse_message("GET /x HTTP/1.1\r\nHost: h"), "");
}

#[test]
fn parse_message_with_separator() {
    assert_eq!(Request::parse_message("x\r\n\r\ntail"), "tail");
}

#[test]
fn method_from_exact_tokens() {
    assert_eq!(RequestMethod::from("GET"), RequestMethod::GET);
    assert_eq!(RequestMethod::from("POST"), RequestMethod::POST);
    assert_eq!(RequestMethod::from("PUT"), RequestMethod::Unsupported);
    assert_eq!(RequestMethod::from("get"), RequestMethod::Unsupported);
    assert_eq!(RequestMethod::from(""), RequestMethod::Unsupported);
}

#[test]
fn default_unsupported_is_canonical() {
    let r = Request::default_unsupported();
    assert_eq!(r.method, RequestMethod::Unsupported);
    assert_eq!(r.view, "");
    assert_eq!(r.message, "");
}

#[test]
fn serialize_ok_with_body() {
    let r = Response { status: ResponseStatus::OK, message: String::from("hi") };
    assert_eq!(r.to_string(), "HTTP/1.1 200 OK\r\n\r\nhi");
}

#[test]
fn serialize_not_found_keeps_trailing_space() {
    let r = Response { status: ResponseStatus::NotFound, message: String::new() };
    assert_eq!(r.to_string(), "HTTP/1.1 404 Not Found \r\n\r\n");
}

#[test]
fn serialize_forbidden_keeps_trailing_space() {
    let r = Response { status: ResponseStatus::Forbidden, message: String::from("no") };
    assert_eq!(r.to_string(), "HTTP/1.1 403 Forbidden \r\n\r\nno");
}

#[test]
fn serialize_internal_server_error() {
    let r = Response { status: ResponseStatus::InternalServerError, message: String::from("x") };
    assert_eq!(r.to_string(), "HTTP/1.1 500 Internal Server Error\r\n\r\nx");
}

#[test]
fn first_lines_of_all_statuses() {
    assert_eq!(ResponseStatus::OK.to_first_line(), "HTTP/1.1 200 OK\r\n\r\n");
    assert_eq!(ResponseStatus::NotFound.to_first_line(), "HTTP/1.1 404 Not Found \r\n\r\n");
    assert_eq!(ResponseStatus::Forbidden.to_first_line(), "HTTP/1.1 403 Forbidden \r\n\r\n");
    assert_eq!(
        ResponseStatus::InternalServerError.to_first_line(),
        "HTTP/1.1 500 Internal Server Error\r\n\r\n"
    );
}

#[test]
fn serialize_never_empty() {
    let r = Response { status: ResponseStatus::OK, message: String::new() };
    assert!(!r.to_string().is_empty());
}
