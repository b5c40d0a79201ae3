use aero::request::{has_http, is_parsable, process_header_line, process_req_line, HttpRequest};
use aero::text::{find_char, next_word, split_lines, starts_with, str_equal};

#[test]
fn parses_request_line_headers_and_body() {
    let text = "GET /greeting HTTP/1.1\r\nHost: localhost:3000\r\nUser-Agent: curl/7.64.1\r\nAccept: */*\r\n\r\nname=aero".to_string();
    assert!(is_parsable(&text));
    let req = HttpRequest::from(text);
    assert_eq!(req.method, "GET");
    assert_eq!(req.path, "/greeting");
    assert_eq!(req.version, "HTTP/1.1");
    assert_eq!(req.headers.len(), 3);
    assert_eq!(req.headers.get("Host").unwrap(), " localhost");
    assert_eq!(req.headers.get("User-Agent").unwrap(), " curl/7.64.1");
    assert_eq!(req.headers.get("Accept").unwrap(), " */*");
    assert_eq!(req.msg_body, "name=aero");
}

#[test]
fn empty_text_gives_initial_request() {
    let req = HttpRequest::from(String::new());
    assert_eq!(req.method, "");
    assert_eq!(req.path, "");
    assert_eq!(req.version, "1,0");
    assert_eq!(req.headers.len(), 0);
    assert_eq!(req.msg_body, "");
}

#[test]
fn later_header_with_same_name_wins() {
    let req = HttpRequest::from("POST /a HTTP/1.0\nX-Key: one\nX-Key: two\n".to_string());
    assert_eq!(req.method, "POST");
    assert_eq!(req.version, "HTTP/1.0");
    assert_eq!(req.headers.len(), 1);
    assert_eq!(req.headers.get("X-Key").unwrap(), " two");
    assert!(req.headers.get("X-Other").is_none());
}

#[test]
fn last_plain_line_is_the_body() {
    let req = HttpRequest::from("GET / HTTP/1.1\r\n\r\nfirst\r\nsecond".to_string());
    assert_eq!(req.msg_body, "second");
}

#[test]
fn later_request_line_replaces_earlier() {
    let req = HttpRequest::from("GET /a HTTP/1.1\r\nPUT /b HTTP/2\r\n".to_string());
    assert_eq!(req.method, "PUT");
    assert_eq!(req.path, "/b");
    assert_eq!(req.version, "HTTP/2");
}

#[test]
fn short_request_line_is_not_parsable() {
    assert!(!is_parsable("HTTP\r\n"));
    assert!(!is_parsable("GET HTTP/1.1\r\n"));
    assert!(is_parsable("GET / HTTP/1.1\r\nHost: x\r\n"));
    assert!(is_parsable("no request line at all"));
}

#[test]
fn request_line_words() {
    let (m, p, v) = process_req_line("  GET\t/x   HTTP/1.1 extra");
    assert_eq!(m, "GET");
    assert_eq!(p, "/x");
    assert_eq!(v, "HTTP/1.1");
}

#[test]
fn header_line_splits_at_colons() {
    assert_eq!(process_header_line("Host: localhost:3000"), ("Host".to_string(), " localhost".to_string()));
    assert_eq!(process_header_line("Key:"), ("Key".to_string(), "".to_string()));
    assert_eq!(process_header_line("NoColon"), ("NoColon".to_string(), "".to_string()));
    assert_eq!(process_header_line(":v"), ("".to_string(), "v".to_string()));
}

#[test]
fn http_search() {
    assert!(has_http("GET / HTTP/1.1"));
    assert!(has_http("HTTP"));
    assert!(!has_http("HTT"));
    assert!(!has_http("http/1.1"));
}

#[test]
fn lines_follow_std() {
    let cases = ["", "a", "a\n", "a\r\nb", "a\r", "\n\n", "x\r\n\r\ny\n", "\r\n"];
    for c in cases.iter() {
        let expected: Vec<String> = c.lines().map(|l| l.to_string()).collect();
        assert_eq!(split_lines(c), expected, "text {:?}", c);
    }
}

#[test]
fn words_and_search() {
    assert_eq!(next_word("  ab c", 0), Some((2, 4)));
    assert_eq!(next_word("  ab c", 4), Some((5, 6)));
    assert_eq!(next_word("  ab c ", 6), None);
    assert_eq!(find_char("a:b", 0, ':'), 1);
    assert_eq!(find_char("a:b", 2, ':'), 3);
    assert!(str_equal("abc", "abc"));
    assert!(!str_equal("abc", "abd"));
    assert!(starts_with("/api/book", "/api"));
    assert!(!starts_with("/ap", "/api"));
}
