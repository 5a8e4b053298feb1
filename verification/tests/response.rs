use syne::response::Response;

fn header(response: &Response, name: &str) -> Option<String> {
    response.headers.get(name).cloned()
}

#[test]
fn content_length_follows_the_body() {
    let mut response = Response::new(200, "OK", "hi");
    assert_eq!(header(&response, "Content-Length"), Some("2".to_string()));
    response.set_header("X-Test", "v");
    assert_eq!(header(&response, "Content-Length"), Some("2".to_string()));
    assert_eq!(header(&response, "X-Test"), Some("v".to_string()));
}

#[test]
fn a_new_response_has_the_default_headers() {
    let response = Response::new(404, "Not Found", "missing");
    assert_eq!(response.status_code, 404);
    assert_eq!(response.status_text, "Not Found");
    assert_eq!(response.body, "missing");
    assert_eq!(response.headers.len(), 2);
    assert_eq!(header(&response, "Content-Type"), Some("text/html; charset=utf-8".to_string()));
    assert_eq!(header(&response, "Content-Length"), Some("7".to_string()));
}

#[test]
fn content_length_counts_bytes_not_characters() {
    assert_eq!(header(&Response::new(200, "OK", ""), "Content-Length"), Some("0".to_string()));
    assert_eq!(header(&Response::new(200, "OK", "é"), "Content-Length"), Some("2".to_string()));
    assert_eq!(header(&Response::new(200, "OK", "€"), "Content-Length"), Some("3".to_string()));
    assert_eq!(header(&Response::new(200, "OK", "𝄞"), "Content-Length"), Some("4".to_string()));
    let body = "x".repeat(1234);
    let long = Response::new(200, "OK", &body);
    assert_eq!(header(&long, "Content-Length"), Some("1234".to_string()));
}

#[test]
fn the_convenience_constructors_set_the_content_type() {
    let json = Response::json(201, "{}");
    assert_eq!(json.status_code, 201);
    assert_eq!(json.status_text, "OK");
    assert_eq!(header(&json, "Content-Type"), Some("application/json".to_string()));
    assert_eq!(header(&json, "Content-Length"), Some("2".to_string()));
    let html = Response::html(200, "<p>x</p>");
    assert_eq!(header(&html, "Content-Type"), Some("text/html; charset=utf-8".to_string()));
    assert_eq!(header(&html, "Content-Length"), Some("8".to_string()));
    let text = Response::text(200, "plain");
    assert_eq!(header(&text, "Content-Type"), Some("text/plain; charset=utf-8".to_string()));
    assert_eq!(header(&text, "Content-Length"), Some("5".to_string()));
    assert_eq!(text.body, "plain");
}

#[test]
fn setting_a_header_recomputes_the_length_from_the_body_as_it_is() {
    let mut response = Response::new(200, "OK", "hi");
    response.body = "longer".to_string();
    assert_eq!(header(&response, "Content-Length"), Some("2".to_string()));
    response.set_header("X-Any", "1");
    assert_eq!(header(&response, "Content-Length"), Some("6".to_string()));
}

#[test]
fn setting_content_length_itself_is_left_alone() {
    let mut response = Response::new(200, "OK", "hi");
    response.set_header("Content-Length", "99");
    assert_eq!(header(&response, "Content-Length"), Some("99".to_string()));
    assert_eq!(response.headers.len(), 2);
    let mut response = Response::new(200, "OK", "hi");
    response.set_header("content-length", "5");
    assert_eq!(header(&response, "content-length"), Some("5".to_string()));
    assert_eq!(header(&response, "Content-Length"), Some("2".to_string()));
    assert_eq!(response.headers.len(), 3);
    let mut response = Response::new(200, "OK", "hi");
    response.body = "hello".to_string();
    response.set_header("CONTENT-LENGTH", "1");
    assert_eq!(header(&response, "Content-Length"), Some("2".to_string()));
}

#[test]
fn setting_a_header_again_overwrites_it() {
    let mut response = Response::new(200, "OK", "");
    response.set_header("X-A", "1");
    response.set_header("X-A", "2");
    assert_eq!(header(&response, "X-A"), Some("2".to_string()));
    assert_eq!(response.headers.len(), 3);
}

#[test]
fn header_lines_are_joined_by_line_ends() {
    let mut response = Response::new(200, "OK", "hi");
    assert_eq!(
        response.headers_string(),
        "Content-Type: text/html; charset=utf-8\r\nContent-Length: 2"
    );
    response.set_header("X-Test", "v");
    assert_eq!(
        response.headers_string(),
        "Content-Type: text/html; charset=utf-8\r\nContent-Length: 2\r\nX-Test: v"
    );
}

#[test]
fn the_wire_form_is_status_line_headers_blank_line_body() {
    let response = Response::new(200, "OK", "hi");
    assert_eq!(
        response.serialize(),
        "HTTP/1.1 200 OK\r\nContent-Type: text/html; charset=utf-8\r\nContent-Length: 2\r\n\r\nhi"
    );
    let response = Response::new(500, "Internal Server Error", "");
    assert_eq!(
        response.serialize(),
        "HTTP/1.1 500 Internal Server Error\r\n\
         Content-Type: text/html; charset=utf-8\r\n\
         Content-Length: 0\r\n\r\n"
    );
}

#[test]
fn the_wire_form_matches_headers_string() {
    let mut response = Response::json(201, "{\"id\": 6}");
    response.set_header("X-Request", "abc");
    let expected = format!(
        "HTTP/1.1 {} {}\r\n{}\r\n\r\n{}",
        response.status_code,
        response.status_text,
        response.headers_string(),
        response.body
    );
    assert_eq!(response.serialize(), expected);
}
