use syne::connection::{
    bad_request, handle_lines, parse_request, parse_request_line, read_headers, take_header_line,
};
use syne::request::Request;
use syne::response::Response;
use syne::router::{Outcome, Router};
use syne::text_map::TextMap;

type Handler = Box<dyn Fn(&Request) -> Response + Send + Sync>;

fn lines(all: &[&str]) -> Vec<String> {
    all.iter().map(|line| line.to_string()).collect()
}

#[test]
fn a_request_line_gives_method_and_target() {
    assert_eq!(
        parse_request_line("GET /index.html HTTP/1.1"),
        Some(("GET".to_string(), "/index.html".to_string()))
    );
    assert_eq!(parse_request_line("GET /x"), Some(("GET".to_string(), "/x".to_string())));
    assert_eq!(parse_request_line("GET  /x"), Some(("GET".to_string(), "".to_string())));
    assert_eq!(parse_request_line(" "), Some(("".to_string(), "".to_string())));
}

#[test]
fn a_request_line_with_fewer_than_two_tokens_is_malformed() {
    assert_eq!(parse_request_line(""), None);
    assert_eq!(parse_request_line("GET"), None);
    assert_eq!(parse_request_line("GET\t/x"), None);
}

#[test]
fn a_header_line_splits_at_the_first_colon_and_space() {
    let mut headers: TextMap<String> = TextMap::new();
    take_header_line(&mut headers, "Host: example.org");
    take_header_line(&mut headers, "X-Time: 12: 30");
    take_header_line(&mut headers, "No-Space:value");
    take_header_line(&mut headers, "Trailing:");
    take_header_line(&mut headers, ": empty name");
    take_header_line(&mut headers, "Empty-Value: ");
    assert_eq!(headers.len(), 4);
    assert_eq!(headers.get("Host").cloned(), Some("example.org".to_string()));
    assert_eq!(headers.get("X-Time").cloned(), Some("12: 30".to_string()));
    assert_eq!(headers.get("").cloned(), Some("empty name".to_string()));
    assert_eq!(headers.get("Empty-Value").cloned(), Some("".to_string()));
}

#[test]
fn headers_end_at_the_first_empty_line() {
    let headers = read_headers(&lines(&["A: 1", "B: 2", "", "C: 3"]));
    assert_eq!(headers.len(), 2);
    assert_eq!(headers.get("A").cloned(), Some("1".to_string()));
    assert_eq!(headers.get("B").cloned(), Some("2".to_string()));
    assert_eq!(headers.get("C"), None);
    assert_eq!(read_headers(&lines(&[])).len(), 0);
    assert_eq!(read_headers(&lines(&["", "A: 1"])).len(), 0);
}

#[test]
fn of_two_headers_with_one_name_the_later_counts() {
    let headers = read_headers(&lines(&["A: 1", "a: 2", "A: 3"]));
    assert_eq!(headers.len(), 2);
    assert_eq!(headers.get("A").cloned(), Some("3".to_string()));
    assert_eq!(headers.get("a").cloned(), Some("2".to_string()));
}

#[test]
fn a_request_is_built_from_its_lines() {
    let request =
        parse_request("GET /p?a=1 HTTP/1.1", &lines(&["Host: h", "Content-Length: 9", ""]));
    let request = request.expect("the request line is well formed");
    assert_eq!(request.method, "GET");
    assert_eq!(request.path, "/p");
    assert_eq!(request.get_query_param("a").cloned(), Some("1".to_string()));
    assert_eq!(request.get_header("Host").cloned(), Some("h".to_string()));
    assert_eq!(request.body, "");
    assert!(parse_request("BROKEN", &lines(&["Host: h"])).is_none());
}

#[test]
fn a_malformed_request_line_is_answered_with_400() {
    let response = bad_request();
    assert_eq!(response.status_code, 400);
    assert_eq!(response.status_text, "Bad Request");
    assert_eq!(response.body, "Invalid request format");
    let mut router: Router<Handler> = Router::new();
    router.get("/", Box::new(|_request: &Request| Response::text(200, "home")));
    match handle_lines(&router, "NONSENSE", &lines(&["Host: h"])) {
        Outcome::Respond(response) => {
            assert_eq!(response.status_code, 400);
            assert_eq!(
                response.serialize(),
                "HTTP/1.1 400 Bad Request\r\n\
                 Content-Type: text/html; charset=utf-8\r\n\
                 Content-Length: 22\r\n\r\n\
                 Invalid request format"
            );
        }
        Outcome::ServeFile(_) => panic!("no file expected"),
    }
}

#[test]
fn the_lines_of_a_connection_are_answered_by_the_router() {
    let mut router: Router<Handler> = Router::new();
    router.get(
        "/hello",
        Box::new(|request: &Request| {
            let agent = request.get_header("User-Agent").cloned().unwrap_or_default();
            Response::text(200, &format!("hello {}", agent))
        }),
    );
    router.static_files("/assets", "./assets");
    match handle_lines(&router, "GET /hello?x=1 HTTP/1.1", &lines(&["User-Agent: test", ""])) {
        Outcome::Respond(response) => {
            assert_eq!(response.status_code, 200);
            assert_eq!(response.body, "hello test");
        }
        Outcome::ServeFile(_) => panic!("no file expected"),
    }
    match handle_lines(&router, "GET /assets/logo.png HTTP/1.1", &lines(&[])) {
        Outcome::ServeFile(file) => assert_eq!(file, "./assets/logo.png"),
        Outcome::Respond(_) => panic!("a file should be served"),
    }
    match handle_lines(&router, "GET /nowhere HTTP/1.1", &lines(&[])) {
        Outcome::Respond(response) => assert_eq!(response.status_code, 404),
        Outcome::ServeFile(_) => panic!("no file expected"),
    }
}
