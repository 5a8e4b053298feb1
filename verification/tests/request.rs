use syne::request::Request;
use syne::text_map::TextMap;

fn target(path: &str) -> Request {
    Request::new("GET", path, TextMap::new(), String::new())
}

fn param(request: &Request, name: &str) -> Option<String> {
    request.get_query_param(name).cloned()
}

#[test]
fn query_parameters_are_split_and_decoded() {
    let request = target("/p?a=1&b=two%20words");
    assert_eq!(request.method, "GET");
    assert_eq!(request.path, "/p");
    assert_eq!(request.query_params.len(), 2);
    assert_eq!(param(&request, "a"), Some("1".to_string()));
    assert_eq!(param(&request, "b"), Some("two words".to_string()));
    assert_eq!(param(&request, "c"), None);
}

#[test]
fn plus_decodes_to_a_space() {
    assert_eq!(Request::url_decode("a+b"), "a b");
    let request = target("/search?q=a+b");
    assert_eq!(param(&request, "q"), Some("a b".to_string()));
}

#[test]
fn a_target_without_a_query_has_no_parameters() {
    let request = target("/plain/path");
    assert_eq!(request.path, "/plain/path");
    assert_eq!(request.query_params.len(), 0);
}

#[test]
fn only_the_first_question_mark_splits_the_target() {
    let request = target("/p?a=b?c");
    assert_eq!(request.path, "/p");
    assert_eq!(param(&request, "a"), Some("b?c".to_string()));
}

#[test]
fn a_segment_splits_at_its_first_equals_sign() {
    let request = target("/p?a=b=c&=v&k=");
    assert_eq!(param(&request, "a"), Some("b=c".to_string()));
    assert_eq!(param(&request, ""), Some("v".to_string()));
    assert_eq!(param(&request, "k"), Some("".to_string()));
}

#[test]
fn segments_without_an_equals_sign_are_ignored() {
    let request = target("/p?flag&a=1&&");
    assert_eq!(request.query_params.len(), 1);
    assert_eq!(param(&request, "flag"), None);
    assert_eq!(param(&request, "a"), Some("1".to_string()));
    assert_eq!(target("/p?").query_params.len(), 0);
}

#[test]
fn a_repeated_parameter_takes_the_last_value() {
    let request = target("/p?a=1&b=2&a=3");
    assert_eq!(request.query_params.len(), 2);
    assert_eq!(param(&request, "a"), Some("3".to_string()));
    assert_eq!(request.query_params.key_at(0), "a");
    assert_eq!(request.query_params.key_at(1), "b");
}

#[test]
fn keys_are_decoded_too() {
    let request = target("/p?first%20name=J%2E+D");
    assert_eq!(param(&request, "first name"), Some("J. D".to_string()));
}

#[test]
fn escapes_decode_in_both_cases_of_hex_digits() {
    assert_eq!(Request::url_decode("%41%6a%4A%7e"), "AjJ~");
    assert_eq!(Request::url_decode("%00"), "\0");
    assert_eq!(Request::url_decode("%7F"), "\u{7f}");
}

#[test]
fn malformed_escapes_pass_through() {
    assert_eq!(Request::url_decode("%zz"), "%zz");
    assert_eq!(Request::url_decode("%4g"), "%4g");
    assert_eq!(Request::url_decode("100%"), "100%");
    assert_eq!(Request::url_decode("%4"), "%4");
    assert_eq!(Request::url_decode("%+"), "%+");
    assert_eq!(Request::url_decode("%%41"), "%%41");
    assert_eq!(Request::url_decode("%é1x"), "%é1x");
}

#[test]
fn escapes_of_bytes_from_128_on_stay_as_written() {
    assert_eq!(Request::url_decode("%80"), "%80");
    assert_eq!(Request::url_decode("%C3%A9"), "%C3%A9");
    assert_eq!(Request::url_decode("%ff+%7F"), "%ff \u{7f}");
}

#[test]
fn text_without_escapes_is_unchanged() {
    assert_eq!(Request::url_decode(""), "");
    assert_eq!(Request::url_decode("héllo/wörld"), "héllo/wörld");
}

#[test]
fn hex_digits_have_their_values() {
    assert_eq!(Request::hex_to_u8('0'), Some(0));
    assert_eq!(Request::hex_to_u8('9'), Some(9));
    assert_eq!(Request::hex_to_u8('a'), Some(10));
    assert_eq!(Request::hex_to_u8('f'), Some(15));
    assert_eq!(Request::hex_to_u8('A'), Some(10));
    assert_eq!(Request::hex_to_u8('F'), Some(15));
    assert_eq!(Request::hex_to_u8('g'), None);
    assert_eq!(Request::hex_to_u8('G'), None);
    assert_eq!(Request::hex_to_u8('/'), None);
    assert_eq!(Request::hex_to_u8(':'), None);
    assert_eq!(Request::hex_to_u8('@'), None);
    assert_eq!(Request::hex_to_u8('`'), None);
    assert_eq!(Request::hex_to_u8('é'), None);
}

#[test]
fn headers_are_found_by_their_exact_name() {
    let mut headers = TextMap::new();
    headers.insert("Host", "example.org".to_string());
    headers.insert("Accept", "*/*".to_string());
    let request = Request::new("POST", "/submit", headers, "payload".to_string());
    assert_eq!(request.method, "POST");
    assert_eq!(request.body, "payload");
    assert_eq!(request.get_header("Host").cloned(), Some("example.org".to_string()));
    assert_eq!(request.get_header("host"), None);
    assert_eq!(request.get_header("Accept").cloned(), Some("*/*".to_string()));
}

#[test]
fn parse_path_and_query_gives_both_parts() {
    let (path, params) = Request::parse_path_and_query("/a/b?x=1");
    assert_eq!(path, "/a/b");
    assert_eq!(params.get("x").cloned(), Some("1".to_string()));
    let (path, params) = Request::parse_path_and_query("?x=%31");
    assert_eq!(path, "");
    assert_eq!(params.get("x").cloned(), Some("1".to_string()));
}
