use orchestrator::framing::request_span;

fn span(req: &str) -> Option<u128> {
    request_span(&req.as_bytes().to_vec())
}

#[test]
fn span_waits_for_the_full_head() {
    assert_eq!(span(""), None);
    assert_eq!(span("POST /tasks HTTP/1.1\r\nContent-Le"), None);
    assert_eq!(span("POST /tasks HTTP/1.1\r\nContent-Length: 5\r\n"), None);
}

#[test]
fn span_counts_head_and_declared_body() {
    let req = "POST /tasks HTTP/1.1\r\nContent-Length: 5\r\n\r\nhello";
    assert_eq!(span(req), Some(req.len() as u128));
}

#[test]
fn span_without_content_length_ends_at_the_blank_line() {
    let req = "GET /tasks HTTP/1.1\r\n\r\n";
    assert_eq!(span(req), Some(req.len() as u128));
}

#[test]
fn span_reads_the_header_case_insensitively_and_trimmed() {
    let req = "POST /x HTTP/1.1\r\nCONTENT-LENGTH: \t 3 \r\n\r\nabc";
    assert_eq!(span(req), Some(req.len() as u128));
}

#[test]
fn span_treats_an_unreadable_length_as_zero() {
    let head = "POST /x HTTP/1.1\r\nContent-Length: abc\r\n\r\n";
    assert_eq!(span(head), Some(head.len() as u128));
    let huge = "POST /x HTTP/1.1\r\nContent-Length: 99999999999999999999999999\r\n\r\n";
    assert_eq!(span(huge), Some(huge.len() as u128));
}

#[test]
fn span_ignores_other_headers() {
    let req = "PUT /tasks/x/status HTTP/1.1\r\nHost: a:1\r\nContent-Length: 2\r\n\r\n{}";
    assert_eq!(span(req), Some(req.len() as u128));
}
