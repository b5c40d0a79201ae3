use aero::headers::HeaderMap;
use aero::response::{push_decimal, status_text_of, HttpResponse};

#[test]
fn new_without_headers_uses_text_html() {
    let res = HttpResponse::new("200", None, "", Some("hi".to_string()));
    assert_eq!(res.version(), "HTTP/1.1");
    assert_eq!(res.status_code(), "200");
    assert_eq!(res.status_text(), "OK");
    assert_eq!(res.headers(), "Content-Type:text/html\r\n");
    assert_eq!(res.body(), "hi");
    assert_eq!(
        res.into_string(),
        "HTTP/1.1 200 OK\r\nContent-Type:text/html\r\nContent-Length: 2\r\n\r\nhi"
    );
}

#[test]
fn content_type_replaces_default() {
    let res = HttpResponse::new("200", None, "application/json", Some("{}".to_string()));
    assert_eq!(res.headers(), "Content-Type:application/json\r\n");
}

#[test]
fn given_headers_keep_order_and_gain_content_type() {
    let mut h = HeaderMap::new();
    h.insert("X-A".to_string(), "1".to_string());
    let res = HttpResponse::new("500", Some(h), "text/plain", Some("oops".to_string()));
    assert_eq!(res.status_text(), "Internal Server Error");
    assert_eq!(res.headers(), "X-A:1\r\nContent-Type:text/plain\r\n");
    let mut h2 = HeaderMap::new();
    h2.insert("X-B".to_string(), "2".to_string());
    let res2 = HttpResponse::new("400", Some(h2), "", None);
    assert_eq!(res2.headers(), "X-B:2\r\n");
    assert_eq!(res2.status_text(), "Bad Request");
    assert_eq!(res2.body(), "");
}

#[test]
fn not_found_response_text() {
    let res = HttpResponse::new("404", None, "", Some("Not Found".to_string()));
    assert_eq!(
        res.into_string(),
        "HTTP/1.1 404 Not Found\r\nContent-Type:text/html\r\nContent-Length: 9\r\n\r\nNot Found"
    );
}

#[test]
fn status_texts() {
    assert_eq!(status_text_of("200"), "OK");
    assert_eq!(status_text_of("400"), "Bad Request");
    assert_eq!(status_text_of("404"), "Not Found");
    assert_eq!(status_text_of("500"), "Internal Server Error");
    assert_eq!(status_text_of("201"), "Not Found");
    assert_eq!(HttpResponse::new("302", None, "", None).status_code(), "302");
}

#[test]
fn content_length_counts_bytes() {
    let res = HttpResponse::new("200", None, "", Some("é€".to_string()));
    assert_eq!(
        res.into_string(),
        "HTTP/1.1 200 OK\r\nContent-Type:text/html\r\nContent-Length: 5\r\n\r\né€"
    );
}

#[test]
fn decimal_notation() {
    let mut s = String::from("n=");
    push_decimal(&mut s, 0);
    assert_eq!(s, "n=0");
    let mut t = String::new();
    push_decimal(&mut t, 1234567);
    assert_eq!(t, "1234567");
    let mut u = String::new();
    push_decimal(&mut u, usize::MAX);
    assert_eq!(u, usize::MAX.to_string());
}

#[test]
fn default_response() {
    let res = HttpResponse::default();
    assert_eq!(res.version(), "HTTP/1.1");
    assert_eq!(res.status_code(), "200");
    assert_eq!(res.status_text(), "OK");
    assert_eq!(res.body(), "");
}

#[test]
fn cloned_response_renders_alike() {
    let res = HttpResponse::new("200", None, "", Some("x".to_string()));
    let copy = res.clone();
    assert_eq!(copy, res);
    assert_eq!(copy.into_string(), res.into_string());
}

#[test]
fn completeness_and_other_headers_kept() {
    assert!(!HttpResponse::default().is_complete());
    assert!(HttpResponse::new("200", None, "", Some("x".to_string())).is_complete());
    assert!(!HttpResponse::new("200", None, "", None).is_complete());
    let mut h = HeaderMap::new();
    h.insert("Content-Type".to_string(), "a".to_string());
    h.insert("X".to_string(), "1".to_string());
    let res = HttpResponse::new("200", Some(h), "b", Some(String::new()));
    assert_eq!(res.headers(), "Content-Type:b\r\nX:1\r\n");
}
