use rusty_http::parser::HTTPResponse;
use rusty_http::server::{
    build_response, create_response, decimal, format_response, handle_request, reason_phrase,
    status_and_body, ConnectionAction, LookupOutcome,
};

fn lines(ls: &[&str]) -> Vec<String> {
    ls.iter().map(|l| l.to_string()).collect()
}

#[test]
fn format_fixed_response() {
    let r = format_response(200, "hola", "text/html", "Tue, 15 Nov 1994 08:12:31 GMT");
    assert_eq!(
        r,
        "HTTP/1.1 200 Ok\r\nDate: Tue, 15 Nov 1994 08:12:31 GMT\r\nContent-Type: text/html\r\nContent-Length: 4\r\nConnection: close\r\n\r\nhola"
    );
}

#[test]
fn format_is_same_but_for_date() {
    let a = format_response(200, "hola", "text/html", "Tue, 15 Nov 1994 08:12:31 GMT");
    let b = format_response(200, "hola", "text/html", "Wed, 16 Nov 1994 09:00:00 GMT");
    let c = format_response(200, "hola", "text/html", "Tue, 15 Nov 1994 08:12:31 GMT");
    assert_eq!(a, c);
    let strip = |s: &str| -> String {
        s.lines().filter(|l| !l.starts_with("Date: ")).collect::<Vec<_>>().join("\n")
    };
    assert_eq!(strip(&a), strip(&b));
}

#[test]
fn content_length_counts_bytes() {
    let r = format_response(200, "héllo €", "text/plain", "D");
    assert!(r.contains("\r\nContent-Length: 10\r\n"));
    assert!(r.ends_with("\r\n\r\nhéllo €"));
    let r = format_response(204, "", "text/plain", "D");
    assert!(r.contains("\r\nContent-Length: 0\r\n"));
}

#[test]
fn unknown_status_uses_fallback() {
    let r = format_response(599, "x", "text/html", "D");
    assert!(r.starts_with("HTTP/1.1 599 Unknown status\r\n"));
}

#[test]
fn reason_table() {
    assert_eq!(reason_phrase(100), "Continue");
    assert_eq!(reason_phrase(200), "Ok");
    assert_eq!(reason_phrase(400), "Bad Request");
    assert_eq!(reason_phrase(401), "Unauthorized");
    assert_eq!(reason_phrase(404), "Not Found");
    assert_eq!(reason_phrase(500), "Internal Server Error");
    assert_eq!(reason_phrase(302), "Unknown status");
}

#[test]
fn decimal_numbers() {
    assert_eq!(decimal(0), "0");
    assert_eq!(decimal(7), "7");
    assert_eq!(decimal(10), "10");
    assert_eq!(decimal(65535), "65535");
    assert_eq!(decimal(u64::MAX), "18446744073709551615");
}

#[test]
fn build_response_dates_from_epoch_seconds() {
    let r = build_response(200, "hola", "text/html", 784111777);
    assert_eq!(
        r,
        "HTTP/1.1 200 Ok\r\nDate: Sun, 06 Nov 1994 08:49:37 GMT\r\nContent-Type: text/html\r\nContent-Length: 4\r\nConnection: close\r\n\r\nhola"
    );
    let r = build_response(200, "", "text/html", 0);
    assert!(r.contains("\r\nDate: Thu, 01 Jan 1970 00:00:00 GMT\r\n"));
}

#[test]
fn lookup_outcomes() {
    assert_eq!(status_and_body(LookupOutcome::Found("<p>hi</p>".to_string())), (200, "<p>hi</p>".to_string()));
    assert_eq!(status_and_body(LookupOutcome::NotFound), (404, "Not found".to_string()));
    assert_eq!(status_and_body(LookupOutcome::Failed), (500, "Internal server error".to_string()));
}

#[test]
fn missing_resource_is_404() {
    let action = handle_request(&lines(&["GET /missing HTTP/1.1", "Host: localhost:8080"]));
    match action {
        ConnectionAction::Lookup { method, uri } => {
            assert_eq!(method, "GET");
            assert_eq!(uri, "/missing");
        }
        ConnectionAction::Close => panic!("request should parse"),
    }
    let text = create_response(LookupOutcome::NotFound, 784111777);
    let res = HTTPResponse::parse(&text).expect("own response parses");
    assert_eq!(res.status_line.status_code.0, 404);
    assert_eq!(res.body.as_deref(), Some("Not found"));
    assert_eq!(res.headers.get("Content-Type").as_deref(), Some("text/html"));
    assert_eq!(res.headers.get("Content-Length").as_deref(), Some("9"));
    assert_eq!(res.headers.get("Connection").as_deref(), Some("close"));
}

#[test]
fn found_and_failed_responses() {
    let text = create_response(LookupOutcome::Found("<h1>hi</h1>".to_string()), 0);
    assert!(text.starts_with("HTTP/1.1 200 Ok\r\n"));
    assert!(text.ends_with("\r\n\r\n<h1>hi</h1>"));
    let text = create_response(LookupOutcome::Failed, 0);
    assert!(text.starts_with("HTTP/1.1 500 Internal Server Error\r\n"));
    assert!(text.ends_with("\r\n\r\nInternal server error"));
}

#[test]
fn unparsable_request_closes_without_response() {
    assert!(matches!(handle_request(&lines(&["GARBAGE"])), ConnectionAction::Close));
    assert!(matches!(handle_request(&lines(&[])), ConnectionAction::Close));
    assert!(matches!(
        handle_request(&lines(&["GET / HTTP/1.1", "no colon here"])),
        ConnectionAction::Close
    ));
}
