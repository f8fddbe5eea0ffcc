use chat_wire::request::{http_request_body, request_is_complete, request_text};

#[test]
fn request_ends_with_its_declared_body() {
    let head = "POST /v1 HTTP/1.1\r\nHost: x\r\nCONTENT-length:  5 \r\n\r\n";
    assert!(!request_is_complete(b""));
    assert!(!request_is_complete(&head.as_bytes()[..head.len() - 1]));
    assert!(!request_is_complete(head.as_bytes()));
    assert!(!request_is_complete(format!("{head}hell").as_bytes()));
    assert!(request_is_complete(format!("{head}hello").as_bytes()));
    assert!(request_is_complete(format!("{head}hello\r\n\r\n").as_bytes()));
}

#[test]
fn request_without_a_length_ends_with_its_headers() {
    assert!(request_is_complete(b"\r\n\r\n"));
    assert!(request_is_complete(b"GET / HTTP/1.1\r\nHost: x\r\n\r\n"));
    assert!(request_is_complete(b"A: 1\nContent-Length: x\r\n\r\n"));
    assert!(!request_is_complete(b"A: 1\nContent-Length: x\nContent-Length: 1\r\n\r\n"));
    assert!(request_is_complete(b"Content-Length: 99999999999999999999\r\n\r\n"));
    assert!(!request_is_complete(b"Content-Length: 18446744073709551615\r\n\r\n"));
    assert!(!request_is_complete(b"\xff\xfe\r\nContent-Length: 1\r\n\r\n"));
}

#[test]
fn body_of_a_request() {
    let body = http_request_body("POST / HTTP/1.1\r\nA: b\r\n\r\n{\"model\":\"m\"}").unwrap();
    assert_eq!(body["model"], "m");
    assert_eq!(http_request_body("POST / HTTP/1.1\r\n\r\nno JSON"), None);
    assert_eq!(http_request_body("{\"model\":\"m\"}"), None);
    assert_eq!(http_request_body("a\r\n\r\n[1]\r\n\r\n[2]"), None);
}

#[test]
fn text_of_a_request() {
    assert_eq!(request_text(b""), "");
    assert_eq!(request_text("GET /h\u{e9}\r\n\r\n".as_bytes()), "GET /h\u{e9}\r\n\r\n");
    assert_eq!(request_text(b"a\xffb"), "a\u{fffd}b");
}
