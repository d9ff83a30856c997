use rusty_http::parser::{
    parse_header_line, HTTPHeaders, HTTPRequest, HTTPResponse, Method, ParseError, RequestLine,
    StatusCode, StatusLine,
};
use rusty_http::text::split_lines;

fn make_text(lines: &[&str]) -> String {
    lines.join("\r\n")
}

#[test]
fn parse_request_simple_get() {
    let text = make_text(&[
        "GET /uri HTTP/1.1",
        "Host: mockhost:2020",
        "User-Agent: mock_agent/0.0.0",
        "Accept: */*",
        "",
    ]);

    let req = HTTPRequest::parse(&text).expect("parsing GET");
    assert_eq!(req.request_line.method, String::from("GET"));
    assert_eq!(req.request_line.uri, "/uri");
    assert_eq!(req.request_line.http_version, "HTTP/1.1");

    // header values are trimmed
    assert_eq!(req.headers.get("Host").as_deref(), Some("mockhost:2020"));
    // empty body
    assert!(req.body.is_none());
}

#[test]
fn parse_request_post_with_body() {
    let body = r#"field=valor&otro=2"#;
    let content_length = body.len();
    let text = make_text(&[
        "POST /form HTTP/1.1",
        "Host: 127.0.0.1:2020",
        &format!("Content-Length: {content_length}"),
        "",
        body,
    ]);

    let req = HTTPRequest::parse(&text).expect("parsing POST");

    assert_eq!(req.request_line.method, String::from("POST"));
    assert_eq!(req.body.as_deref(), Some(body));
}

#[test]
fn request_invalid_method_fails() {
    let text = make_text(&["BREW / HTTP/1.1", "", ""]);
    // the request keeps its method verbatim; recognising it is what fails
    let req = HTTPRequest::parse(&text).expect("method is kept verbatim");
    assert_eq!(req.request_line.method, "BREW");
    assert!(Method::from_str(&req.request_line.method).is_err());
}

#[test]
fn parse_response_ok() {
    let text = make_text(&["HTTP/1.1 200 Ok", "Content-Type: text/plain", "", "hola"]);

    let res = HTTPResponse::parse(&text).expect("parsing response");

    assert_eq!(res.status_line.http_version, "HTTP/1.1");
    assert_eq!(res.status_line.status_code.0, 200);
    assert_eq!(res.status_line.status_data, "Ok");
    assert_eq!(res.body.as_deref(), Some("hola"));
}

#[test]
fn response_without_body() {
    let text = make_text(&["HTTP/1.1 204 No-Content", "Date: hoy", ""]);

    let res = HTTPResponse::parse(&text).expect("parsing 204");
    assert!(res.body.is_none());
}

#[test]
fn request_line_three_fields() {
    let l = RequestLine::from_str("DELETE /a/b?x=1 HTTP/1.0").unwrap();
    assert_eq!(l.method, "DELETE");
    assert_eq!(l.uri, "/a/b?x=1");
    assert_eq!(l.http_version, "HTTP/1.0");
}

#[test]
fn request_line_ignores_extra_fields() {
    let l = RequestLine::from_str("GET / HTTP/1.1 extra").unwrap();
    assert_eq!(l.http_version, "HTTP/1.1");
}

#[test]
fn request_line_missing_fields() {
    assert_eq!(RequestLine::from_str("").unwrap_err(), ParseError::MissingMethod);
    assert_eq!(RequestLine::from_str("GET").unwrap_err(), ParseError::MissingUri);
    assert_eq!(RequestLine::from_str("GET /").unwrap_err(), ParseError::MissingVersion);
}

#[test]
fn request_single_token_fails() {
    let text = make_text(&["GARBAGE", ""]);
    assert_eq!(HTTPRequest::parse(&text).unwrap_err(), ParseError::MissingUri);
}

#[test]
fn request_without_lines_fails() {
    assert_eq!(HTTPRequest::parse("").unwrap_err(), ParseError::MissingRequestLine);
}

#[test]
fn method_names() {
    assert_eq!(Method::from_str("GET"), Ok(Method::GET));
    assert_eq!(Method::from_str("POST"), Ok(Method::POST));
    assert_eq!(Method::from_str("PUT"), Ok(Method::PUT));
    assert_eq!(Method::from_str("put"), Ok(Method::PUT));
    assert_eq!(Method::from_str("DELETE"), Ok(Method::DELETE));
    assert_eq!(Method::from_str("HEAD"), Ok(Method::HEAD));
    assert_eq!(Method::from_str("OPTIONS"), Ok(Method::OPTIONS));
    assert_eq!(Method::from_str("CONNECT"), Ok(Method::CONNECT));
    assert_eq!(Method::from_str("TRACE"), Ok(Method::TRACE));
    assert_eq!(Method::from_str("get"), Err(ParseError::InvalidMethod));
    assert_eq!(Method::from_str("BREW"), Err(ParseError::InvalidMethod));
}

#[test]
fn header_line_trims_name_and_value() {
    let (k, v) = parse_header_line("  Accept :\t text/html  ").unwrap();
    assert_eq!(k, "Accept");
    assert_eq!(v, "text/html");
}

#[test]
fn header_value_keeps_later_colons() {
    let (k, v) = parse_header_line("Date: Tue, 15 Nov 1994 08:12:31 GMT").unwrap();
    assert_eq!(k, "Date");
    assert_eq!(v, "Tue, 15 Nov 1994 08:12:31 GMT");
}

#[test]
fn host_header_joins_port() {
    let (k, v) = parse_header_line("Host: h:p").unwrap();
    assert_eq!(k, "Host");
    assert_eq!(v, "h:p");
    let (_, v) = parse_header_line("Host: ::1:80").unwrap();
    assert_eq!(v, ":");
}

#[test]
fn header_errors() {
    assert_eq!(parse_header_line("NoColon"), Err(ParseError::MissingHeaderValue));
    assert_eq!(parse_header_line("  : value"), Err(ParseError::EmptyHeaderName));
    assert_eq!(parse_header_line("Host: localhost"), Err(ParseError::MissingHostPort));
}

#[test]
fn header_block_stops_at_blank_line() {
    let lines: Vec<String> = vec!["GET / HTTP/1.1", "A: 1", "B: 2", "", "body"]
        .into_iter()
        .map(String::from)
        .collect();
    let mut cursor: usize = 1;
    let h = HTTPHeaders::new(&lines, &mut cursor).unwrap();
    assert_eq!(cursor, 4);
    assert_eq!(h.len(), 2);
    assert_eq!(h.get("A").as_deref(), Some("1"));
    assert_eq!(h.get("B").as_deref(), Some("2"));
    assert_eq!(h.get("C"), None);
}

#[test]
fn header_duplicate_last_wins() {
    let text = make_text(&["GET / HTTP/1.1", "X: first", "Y: other", "X: second", ""]);
    let req = HTTPRequest::parse(&text).unwrap();
    assert_eq!(req.headers.len(), 2);
    assert_eq!(req.headers.get("X").as_deref(), Some("second"));
}

#[test]
fn header_error_fails_request() {
    let text = make_text(&["GET / HTTP/1.1", "Broken", ""]);
    assert_eq!(HTTPRequest::parse(&text).unwrap_err(), ParseError::MissingHeaderValue);
}

#[test]
fn header_insert_replaces() {
    let mut h = HTTPHeaders::empty();
    h.insert("K".to_string(), "1".to_string());
    h.insert("K".to_string(), "2".to_string());
    assert_eq!(h.len(), 1);
    assert_eq!(h.get("K").as_deref(), Some("2"));
    let copy = h.clone();
    assert_eq!(copy.len(), 1);
    assert_eq!(copy.get("K").as_deref(), Some("2"));
}

#[test]
fn body_lines_joined_with_crlf() {
    let text = make_text(&["POST / HTTP/1.1", "", "one", "two", "", "three"]);
    let req = HTTPRequest::parse(&text).unwrap();
    assert_eq!(req.body.as_deref(), Some("one\r\ntwo\r\n\r\nthree"));
}

#[test]
fn request_from_lines() {
    let lines: Vec<String> = vec!["PUT /x HTTP/1.1", "Host: a:1"]
        .into_iter()
        .map(String::from)
        .collect();
    let req = HTTPRequest::from_lines(&lines).unwrap();
    assert_eq!(req.request_line.method, "PUT");
    assert_eq!(req.headers.get("Host").as_deref(), Some("a:1"));
    assert!(req.body.is_none());
}

#[test]
fn status_codes() {
    assert_eq!(StatusCode::from_str("200"), Ok(StatusCode(200)));
    assert_eq!(StatusCode::from_str("+404"), Ok(StatusCode(404)));
    assert_eq!(StatusCode::from_str("65535"), Ok(StatusCode(65535)));
    assert_eq!(StatusCode::from_str("65536"), Err(ParseError::InvalidStatusCode));
    assert_eq!(StatusCode::from_str("1000000"), Err(ParseError::InvalidStatusCode));
    assert_eq!(StatusCode::from_str(""), Err(ParseError::InvalidStatusCode));
    assert_eq!(StatusCode::from_str("+"), Err(ParseError::InvalidStatusCode));
    assert_eq!(StatusCode::from_str("2x0"), Err(ParseError::InvalidStatusCode));
    assert_eq!(StatusCode::from_str("-1"), Err(ParseError::InvalidStatusCode));
}

#[test]
fn status_line_errors() {
    assert_eq!(StatusLine::from_str("HTTP/1.1").unwrap_err(), ParseError::MissingStatusCode);
    assert_eq!(StatusLine::from_str("HTTP/1.1 abc Ok").unwrap_err(), ParseError::InvalidStatusCode);
    assert_eq!(StatusLine::from_str("HTTP/1.1 200").unwrap_err(), ParseError::MissingStatusData);
    let l = StatusLine::from_str("HTTP/1.1 404 Not Found").unwrap();
    assert_eq!(l.status_code, StatusCode(404));
    assert_eq!(l.status_data, "Not");
}

#[test]
fn response_without_lines_fails() {
    assert_eq!(HTTPResponse::parse("").unwrap_err(), ParseError::MissingStatusLine);
}

#[test]
fn lines_of_text() {
    assert_eq!(split_lines(""), Vec::<String>::new());
    assert_eq!(split_lines("a\r\nb"), vec!["a".to_string(), "b".to_string()]);
    assert_eq!(split_lines("a\n"), vec!["a".to_string()]);
    assert_eq!(split_lines("a\r\n\r\n"), vec!["a".to_string(), String::new()]);
    assert_eq!(split_lines("\n"), vec![String::new()]);
}
