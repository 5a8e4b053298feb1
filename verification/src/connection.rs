//! The lines of a connection: the request line, the header lines up to the
//! first empty one, and the answer that the router gives to them.

use crate::request::{path_of, query_of, Request};
use crate::response::Response;
use crate::router::{Outcome, Router};
use crate::text::{
    chars_of, push_range, split, split_chars, string_of, string_texts, texts_of,
};
use crate::text_map::{pairs_map, set_pair, TextMap};
use vstd::prelude::*;

verus! {

/// The method and the target of a request line: its first two pieces
/// between single spaces, where it has at least two.
pub open spec fn request_line_parts(line: Seq<char>) -> Option<(Seq<char>, Seq<char>)> {
    let parts = split(line, ' ');
    if parts.len() >= 2 {
        Some((parts[0], parts[1]))
    } else {
        None
    }
}

/// The first position at or after `from` at which `s` holds a colon and a
/// space after it; the length of `s` where there is none.
pub open spec fn find_header_break(s: Seq<char>, from: int) -> int
    decreases s.len() - from,
{
    if from + 1 >= s.len() {
        s.len() as int
    } else if s[from] == ':' && s[from + 1] == ' ' {
        from
    } else {
        find_header_break(s, from + 1)
    }
}

/// The headers after the line `line` is taken in: a line with a colon and a
/// space sets what stands before the first such pair to what stands after
/// it; any other line changes nothing.
pub open spec fn with_header_line(
    pairs: Seq<(Seq<char>, Seq<char>)>,
    line: Seq<char>,
) -> Seq<(Seq<char>, Seq<char>)> {
    let at = find_header_break(line, 0);
    if at < line.len() {
        set_pair(pairs, line.subrange(0, at), line.subrange(at + 2, line.len() as int))
    } else {
        pairs
    }
}

/// The headers that the lines before the first empty line give, taken in
/// from the first on; `i` is the line at which the reading stands.
pub open spec fn headers_from(
    lines: Seq<Seq<char>>,
    i: int,
    pairs: Seq<(Seq<char>, Seq<char>)>,
) -> Seq<(Seq<char>, Seq<char>)>
    decreases lines.len() - i,
{
    if i >= lines.len() || lines[i].len() == 0 {
        pairs
    } else {
        headers_from(lines, i + 1, with_header_line(pairs, lines[i]))
    }
}

/// The headers that the lines before the first empty line give.
pub open spec fn headers_of(lines: Seq<Seq<char>>) -> Seq<(Seq<char>, Seq<char>)> {
    headers_from(lines, 0, Seq::empty())
}

/// Whether `request` is the request that the request line parts and the
/// header lines describe: an empty body, the path and the query parameters
/// of the target, and the headers of the lines.
pub open spec fn describes(
    request: &Request,
    method: Seq<char>,
    target: Seq<char>,
    lines: Seq<Seq<char>>,
) -> bool {
    &&& request.method@ == method
    &&& request.path@ == path_of(target)
    &&& request.query_params.pairs() == query_of(target)
    &&& request.query_params.texts() == pairs_map(query_of(target))
    &&& request.headers.pairs() == headers_of(lines)
    &&& request.headers.texts() == pairs_map(headers_of(lines))
    &&& request.body@ == Seq::<char>::empty()
}

/// The method and the target of a request line, if it has both.
pub fn parse_request_line(line: &str) -> (parts: Option<(String, String)>)
    ensures
        match parts {
            Some((method, target)) => request_line_parts(line@) == Some((method@, target@)),
            None => request_line_parts(line@) is None,
        },
{
    let chars = chars_of(line);
    let pieces = split_chars(&chars, ' ');
    assert(texts_of(pieces@).len() == pieces@.len());
    if pieces.len() >= 2 {
        assert(texts_of(pieces@)[0] == pieces@[0]@);
        assert(texts_of(pieces@)[1] == pieces@[1]@);
        Some((string_of(&pieces[0]), string_of(&pieces[1])))
    } else {
        None
    }
}

/// Takes one header line into the headers.
pub fn take_header_line(headers: &mut TextMap<String>, line: &str)
    ensures
        final(headers).pairs() == with_header_line(old(headers).pairs(), line@),
{
    let chars = chars_of(line);
    let mut i: usize = 0;
    while chars.len() - i > 1 && !(chars[i] == ':' && chars[i + 1] == ' ')
        invariant
            i <= chars.len(),
            find_header_break(chars@, 0) == find_header_break(chars@, i as int),
        decreases chars.len() - i,
    {
        i += 1;
    }
    if chars.len() - i > 1 {
        let mut name: Vec<char> = Vec::new();
        push_range(&mut name, &chars, 0, i);
        let mut value: Vec<char> = Vec::new();
        push_range(&mut value, &chars, i + 2, chars.len());
        headers.set(string_of(&name).as_str(), string_of(&value).as_str());
    }
}

/// The headers that the lines before the first empty line give. Of two
/// lines with one name the later one counts.
pub fn read_headers(lines: &Vec<String>) -> (headers: TextMap<String>)
    ensures
        headers.pairs() == headers_of(string_texts(lines@)),
        headers.texts() == pairs_map(headers_of(string_texts(lines@))),
{
    let mut headers: TextMap<String> = TextMap::new();
    assert(headers.pairs() =~= Seq::empty());
    let mut i: usize = 0;
    while i < lines.len() && !lines[i].as_str().is_empty()
        invariant
            i <= lines.len(),
            headers_of(string_texts(lines@)) == headers_from(
                string_texts(lines@),
                i as int,
                headers.pairs(),
            ),
        decreases lines.len() - i,
    {
        assert(string_texts(lines@)[i as int] == lines@[i as int]@);
        take_header_line(&mut headers, lines[i].as_str());
        i += 1;
    }
    assert(i < lines.len() ==> string_texts(lines@)[i as int] == lines@[i as int]@);
    proof {
        headers.lemma_texts_are_pairs();
    }
    headers
}

/// The request that a request line and the header lines after it describe,
/// if the request line has a method and a target. The body is empty.
pub fn parse_request(request_line: &str, header_lines: &Vec<String>) -> (request: Option<Request>)
    ensures
        match request_line_parts(request_line@) {
            Some((method, target)) => request matches Some(r) && describes(
                &r,
                method,
                target,
                string_texts(header_lines@),
            ),
            None => request is None,
        },
{
    match parse_request_line(request_line) {
        Some((method, target)) => {
            let headers = read_headers(header_lines);
            Some(Request::new(method.as_str(), target.as_str(), headers, String::new()))
        },
        None => None,
    }
}

/// The response to a request line without a method and a target.
pub fn bad_request() -> (response: Response)
    ensures
        response.is_plain(400, "Bad Request"@, "Invalid request format"@),
{
    Response::new(400, "Bad Request", "Invalid request format")
}

/// Answers the lines of one connection: a request line that has no method
/// and target gets the 400 response and the header lines are not looked at;
/// any other is parsed and handed to the router.
pub fn handle_lines<H: Fn(&Request) -> Response>(
    router: &Router<H>,
    request_line: &str,
    header_lines: &Vec<String>,
) -> (outcome: Outcome)
    ensures
        match request_line_parts(request_line@) {
            Some((method, target)) => exists|request: Request|
                describes(&request, method, target, string_texts(header_lines@))
                    && #[trigger] router.answers(&request, outcome),
            None => outcome matches Outcome::Respond(response) && response.is_plain(
                400,
                "Bad Request"@,
                "Invalid request format"@,
            ),
        },
{
    match parse_request(request_line, header_lines) {
        Some(request) => {
            let outcome = router.handle_request(&request);
            assert(router.answers(&request, outcome));
            outcome
        },
        None => Outcome::Respond(bad_request()),
    }
}

} // verus!
