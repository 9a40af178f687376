use mini_http::http::{Header, MimeType, Request, Response, Status, CRLF, VERSION};

fn pairs(request: &Request) -> Vec<(String, String)> {
    request.headers.iter().map(|h| (h.name.clone(), h.value.clone())).collect()
}

fn pair(name: &str, value: &str) -> (String, String) {
    (name.to_owned(), value.to_owned())
}

#[test]
fn constants_of_the_wire_format() {
    assert_eq!(CRLF, "\r\n");
    assert_eq!(VERSION, "HTTP/1.1");
}

#[test]
fn parse_reads_the_path_and_the_headers_in_wire_order() {
    let raw = "GET /index.html HTTP/1.1\r\nHost: localhost:4221\r\nUser-Agent: curl/7.64.1\r\nAccept: */*\r\n\r\n";
    let request = Request::parse(raw);
    assert_eq!(request.path, "/index.html");
    assert_eq!(
        pairs(&request),
        vec![pair("Host", "localhost:4221"), pair("User-Agent", "curl/7.64.1"), pair("Accept", "*/*")]
    );
}

#[test]
fn parse_does_not_read_past_the_blank_line() {
    let raw = "POST /submit HTTP/1.1\r\nA: 1\r\n\r\nB: 2\r\nnot a header\r\n";
    let request = Request::parse(raw);
    assert_eq!(request.path, "/submit");
    assert_eq!(pairs(&request), vec![pair("A", "1")]);
}

#[test]
fn parse_accepts_a_buffer_without_terminator() {
    let request = Request::parse("GET / HTTP/1.1");
    assert_eq!(request.path, "/");
    assert!(request.headers.is_empty());
}

#[test]
fn parse_accepts_headers_without_a_blank_line_after_them() {
    let request = Request::parse("GET /a HTTP/1.1\r\nHost: x");
    assert_eq!(request.path, "/a");
    assert_eq!(pairs(&request), vec![pair("Host", "x")]);
}

#[test]
fn parse_takes_the_second_token_whatever_follows() {
    assert_eq!(Request::parse("GET /only-two").path, "/only-two");
    assert_eq!(Request::parse("GET /a b c d\r\n\r\n").path, "/a");
}

#[test]
fn parse_takes_whitespace_delimited_tokens_of_the_request_line() {
    assert_eq!(Request::parse("GET  /two-spaces HTTP/1.1\r\n\r\n").path, "/two-spaces");
    assert_eq!(Request::parse("GET  /x HTTP/1.1\r\n\r\n").path, "/x");
    assert!(Request::parse("GET  /x HTTP/1.1\r\n\r\n").headers.is_empty());
    assert_eq!(Request::parse("GET\t/x HTTP/1.1").path, "/x");
    assert_eq!(Request::parse("GET \t \u{a0}/x\tHTTP/1.1\r\n\r\n").path, "/x");
    assert_eq!(Request::parse("  GET /leading HTTP/1.1\r\n\r\n").path, "/leading");
    assert_eq!(Request::parse("GET /trailing   ").path, "/trailing");
}

#[test]
fn try_parse_rejects_a_request_line_of_whitespace_or_one_token() {
    assert!(Request::try_parse("   \t ").is_none());
    assert!(Request::try_parse("GET   \r\nHost: x\r\n\r\n").is_none());
    assert!(Request::try_parse("  GET\t\r\n\r\n").is_none());
    assert!(Request::try_parse("GET\n/x").is_some());
}

#[test]
fn parse_keeps_the_query_in_the_path() {
    assert_eq!(Request::parse("GET /search?q=a%20b HTTP/1.1\r\n\r\n").path, "/search?q=a%20b");
}

#[test]
fn parse_twice_gives_equal_requests() {
    let raw = "GET /echo/abc HTTP/1.1\r\nHost: localhost\r\nUser-Agent: test-client/1.0\r\n\r\n";
    let first = Request::parse(raw);
    let second = Request::parse(raw);
    assert_eq!(first.path, second.path);
    assert_eq!(pairs(&first), pairs(&second));
}

#[test]
fn try_parse_gives_what_parse_gives() {
    let raw = "GET /user-agent HTTP/1.1\r\nUser-Agent: test-client/1.0\r\n\r\n";
    let request = Request::try_parse(raw).expect("well formed");
    assert_eq!(request.path, "/user-agent");
    assert_eq!(pairs(&request), vec![pair("User-Agent", "test-client/1.0")]);
}

#[test]
fn try_parse_rejects_a_request_line_without_target() {
    assert!(Request::try_parse("").is_none());
    assert!(Request::try_parse("GET").is_none());
    assert!(Request::try_parse("GET\r\nHost: x\r\n\r\n").is_none());
    assert!(Request::try_parse("\r\nGET / HTTP/1.1\r\n\r\n").is_none());
}

#[test]
fn try_parse_rejects_a_header_line_without_separator() {
    assert!(Request::try_parse("GET / HTTP/1.1\r\nBroken\r\n\r\n").is_none());
    assert!(Request::try_parse("GET / HTTP/1.1\r\nHost: x\r\nUser-Ag").is_none());
    assert!(Request::try_parse("GET / HTTP/1.1\r\nName:value\r\n\r\n").is_none());
}

#[test]
fn try_parse_rejects_a_header_line_of_whitespace() {
    assert!(Request::try_parse("GET / HTTP/1.1\r\n   \r\n\r\n").is_none());
}

#[test]
fn try_parse_ignores_malformed_lines_after_the_blank_line() {
    assert!(Request::try_parse("GET / HTTP/1.1\r\n\r\nno separator here").is_some());
}

#[test]
fn header_parse_parts_the_line_at_the_first_separator() {
    let header = Header::parse("Content-Type: text/plain");
    assert_eq!(header.name, "Content-Type");
    assert_eq!(header.value, "text/plain");
    let header = Header::parse("X-Note: a: b: c");
    assert_eq!(header.name, "X-Note");
    assert_eq!(header.value, "a: b: c");
}

#[test]
fn header_parse_trims_trailing_whitespace_only() {
    let header = Header::parse("Name: value \t\r");
    assert_eq!(header.name, "Name");
    assert_eq!(header.value, "value");
    let header = Header::parse("  Name: value");
    assert_eq!(header.name, "  Name");
    assert_eq!(header.value, "value");
}

#[test]
fn header_parse_accepts_an_empty_name() {
    let header = Header::parse(": value");
    assert_eq!(header.name, "");
    assert_eq!(header.value, "value");
}

#[test]
fn header_try_parse_rejects_a_line_without_separator() {
    assert!(Header::try_parse("no separator").is_none());
    assert!(Header::try_parse("Name:value").is_none());
    assert!(Header::try_parse("").is_none());
}

#[test]
fn header_try_parse_rejects_a_name_with_nothing_after_it() {
    assert!(Header::try_parse("Name: ").is_none());
    assert!(Header::try_parse("Name:   ").is_none());
}

#[test]
fn header_new_and_to_string() {
    let header = Header::new("Content-Length", "3");
    assert_eq!(header.name, "Content-Length");
    assert_eq!(header.value, "3");
    assert_eq!(header.to_string(), "Content-Length: 3\r\n");
}

#[test]
fn header_to_string_then_parse_gives_the_header_back() {
    let line = Header::new("User-Agent", "test-client/1.0").to_string();
    let header = Header::parse(&line);
    assert_eq!(header.name, "User-Agent");
    assert_eq!(header.value, "test-client/1.0");
}

#[test]
fn get_header_gives_the_first_header_of_that_name() {
    let request = Request::parse("GET / HTTP/1.1\r\nA: 1\r\nB: 2\r\nA: 3\r\n\r\n");
    assert_eq!(request.get_header("A"), Some("1".to_owned()));
    assert_eq!(request.get_header("B"), Some("2".to_owned()));
}

#[test]
fn get_header_gives_none_for_a_missing_name() {
    let request = Request::parse("GET / HTTP/1.1\r\nUser-Agent: x\r\n\r\n");
    assert_eq!(request.get_header("Host"), None);
    assert_eq!(request.get_header("user-agent"), None);
    assert_eq!(request.get_header(""), None);
}

#[test]
fn get_header_on_a_hand_built_request() {
    let request = Request {
        path: "/".to_owned(),
        headers: vec![Header::new("X", "1"), Header::new("X", "2")],
    };
    assert_eq!(request.get_header("X"), Some("1".to_owned()));
}

#[test]
fn every_status_has_a_code_and_a_reason() {
    for status in [Status::OK, Status::NotFound] {
        assert_eq!(status.code().len(), 3);
        assert!(status.code().chars().all(|c| c.is_ascii_digit()));
        assert!(!status.name().is_empty());
    }
}

#[test]
fn status_codes_and_reasons() {
    assert_eq!(Status::OK.code(), "200");
    assert_eq!(Status::OK.name(), "OK");
    assert_eq!(Status::NotFound.code(), "404");
    assert_eq!(Status::NotFound.name(), "Not Found");
}

#[test]
fn mime_type_identifier() {
    assert_eq!(MimeType::TextPlain.to_string(), "text/plain");
}

#[test]
fn ok_is_written_without_headers_and_body() {
    assert_eq!(Response::ok().to_string(), "HTTP/1.1 200 OK\r\n\r\n");
}

#[test]
fn not_found_is_written_without_headers_and_body() {
    assert_eq!(Response::not_found().to_string(), "HTTP/1.1 404 Not Found\r\n\r\n");
}

#[test]
fn body_adds_content_type_and_content_length() {
    assert_eq!(
        Response::ok().body("abc", MimeType::TextPlain).to_string(),
        "HTTP/1.1 200 OK\r\nContent-Type: text/plain\r\nContent-Length: 3\r\n\r\nabc"
    );
}

#[test]
fn body_keeps_the_status() {
    assert_eq!(
        Response::not_found().body("gone", MimeType::TextPlain).to_string(),
        "HTTP/1.1 404 Not Found\r\nContent-Type: text/plain\r\nContent-Length: 4\r\n\r\ngone"
    );
}

#[test]
fn body_counts_bytes_not_characters() {
    assert_eq!(
        Response::ok().body("héllo €", MimeType::TextPlain).to_string(),
        "HTTP/1.1 200 OK\r\nContent-Type: text/plain\r\nContent-Length: 10\r\n\r\nhéllo €"
    );
}

#[test]
fn body_of_no_characters_has_length_zero() {
    assert_eq!(
        Response::ok().body("", MimeType::TextPlain).to_string(),
        "HTTP/1.1 200 OK\r\nContent-Type: text/plain\r\nContent-Length: 0\r\n\r\n"
    );
}

#[test]
fn body_called_again_appends_its_headers_and_replaces_the_body() {
    assert_eq!(
        Response::ok().body("first", MimeType::TextPlain).body("2nd", MimeType::TextPlain).to_string(),
        "HTTP/1.1 200 OK\r\nContent-Type: text/plain\r\nContent-Length: 5\r\nContent-Type: text/plain\r\nContent-Length: 3\r\n\r\n2nd"
    );
}

#[test]
fn body_is_written_as_it_is_with_nothing_after_it() {
    let text = Response::ok().body("line one\r\nline two\r\n", MimeType::TextPlain).to_string();
    assert!(text.ends_with("\r\n\r\nline one\r\nline two\r\n"));
    assert!(text.contains("Content-Length: 20\r\n"));
}

#[test]
fn serialized_response_has_one_blank_line_before_the_body() {
    let text = Response::ok().body("abc", MimeType::TextPlain).to_string();
    let at = text.find("\r\n\r\n").expect("a blank line");
    assert_eq!(&text[at + 4..], "abc");
    assert!(!text[..at + 2].contains("\r\n\r\n"));
}

#[test]
fn content_length_is_the_byte_length_of_the_body() {
    for body in ["", "a", "abc", "0123456789", "żółć", "a\r\n\r\nb"] {
        let text = Response::ok().body(body, MimeType::TextPlain).to_string();
        let (head, written) = text.split_once("\r\n\r\n").expect("a blank line");
        let length = head
            .split("\r\n")
            .find_map(|line| line.strip_prefix("Content-Length: "))
            .expect("a content length");
        assert_eq!(length.parse::<usize>(), Ok(body.len()));
        assert_eq!(written, body);
    }
}

#[test]
fn first_blank_line_is_the_separator_whatever_the_body_holds() {
    for body in ["", "\r\n", "\r\n\r\n", "\n\r\n\r", "a\r\n\r\nb"] {
        let text = Response::not_found().body(body, MimeType::TextPlain).to_string();
        let head_end = text.len() - body.len() - 2;
        assert_eq!(text.find("\r\n\r\n"), Some(head_end - 2));
        assert_eq!(&text[head_end + 2..], body);
    }
}

#[test]
fn response_without_headers_has_the_blank_line_after_the_status_line() {
    let text = Response::ok().to_string();
    assert_eq!(text.find("\r\n\r\n"), Some("HTTP/1.1 200 OK".len()));
}
