use dev_utils::http::{HttpMethod, HttpRequest, HttpResponse, HttpStatus, HttpVersion};

#[test]
fn status_codes_and_messages() {
    let status = HttpStatus::new(404).unwrap();
    assert_eq!(status, HttpStatus::_404);
    assert_eq!(status.code(), 404);
    assert_eq!(status.message(), "Not Found");
    assert_eq!(HttpStatus::from_u16(200), Some(HttpStatus::_200));
    assert_eq!(HttpStatus::new(402), None);
    assert_eq!(HttpStatus::default(), HttpStatus::_501);
    assert_eq!(HttpStatus::_200.to_string(), "\x1b[32m200\x1b[0m OK");
    assert_eq!(
        HttpStatus::_503.to_string(),
        "\x1b[31m503\x1b[0m Service Unavailable"
    );
}

#[test]
fn methods_and_versions() {
    assert_eq!(HttpMethod::from_str("POST"), Some(HttpMethod::POST));
    assert_eq!(HttpMethod::from_str("post"), None);
    assert_eq!(HttpMethod::DELETE.as_str(), "DELETE");
    assert_eq!(HttpMethod::default(), HttpMethod::GET);
    assert_eq!(HttpVersion::from_str("HTTP/2.0"), Some(HttpVersion::Http2_0));
    assert_eq!(HttpVersion::from_str("HTTP/3"), None);
    assert_eq!(HttpVersion::default().as_str(), "HTTP/1.1");
}

#[test]
fn request_text() {
    let request = HttpRequest::new(
        HttpMethod::GET,
        HttpVersion::Http1_1,
        "/index.html",
        "Hello, Rust!",
    );
    assert_eq!(
        request.to_string(),
        "GET /index.html HTTP/1.1\r\n\r\nHello, Rust!"
    );
}

#[test]
fn response_text() {
    let response = HttpResponse::new_1_1(HttpStatus::_200, "héllo");
    assert_eq!(response.http_version, HttpVersion::Http1_1);
    assert_eq!(
        response.to_string_at("2023-05-01 12:00:00"),
        "HTTP/1.1 200 OK\r\nDate: 2023-05-01 12:00:00\r\nServer: Rust Server\r\nContent-Length: 6\r\nContent-Type: text/html\r\nConnection: Closed\r\n\r\nhéllo"
    );
    let other = HttpResponse::new(HttpStatus::_404, HttpVersion::Http1_0, "");
    assert!(other.to_string().starts_with("HTTP/1.0 404 Not Found\r\nDate: "));
}

#[test]
fn clock_strings() {
    assert_eq!(HttpResponse::clock_string(0), "1970-01-01 00:00:00");
    assert_eq!(HttpResponse::clock_string(1682944496), "2023-05-01 12:34:56");
    assert_eq!(HttpResponse::now_hour_minute_second().len(), 19);
}
