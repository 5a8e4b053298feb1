//! The response model: status, headers and body, the rule that keeps
//! `Content-Length` in step with the body, and the wire format.

use crate::text::{
    ascii_lowercase, byte_len, chars_of, decimal, decimal_string, push_decimal, push_text,
    same_ignoring_ascii_case, string_of, utf8_len,
};
use crate::text_map::{lemma_no_pairs, lemma_set_pair, pair_keys, pairs_map, set_pair, TextMap};
use vstd::prelude::*;

verus! {

/// An HTTP response under construction.
pub struct Response {
    pub status_code: u16,
    pub status_text: String,
    pub headers: TextMap<String>,
    pub body: String,
}

/// The value that `Content-Length` takes for `body`: the decimal numeral of
/// the number of bytes of its UTF-8 form.
pub open spec fn content_length_of(body: Seq<char>) -> Seq<char> {
    decimal(utf8_len(body))
}

/// Whether `name` is `Content-Length`, in any mix of ASCII upper and lower
/// case.
pub open spec fn is_content_length(name: Seq<char>) -> bool {
    ascii_lowercase(name) == ascii_lowercase("Content-Length"@)
}

/// The headers after `name` is set to `value` on a response with body
/// `body`: the header is set, and unless it is `Content-Length` itself,
/// `Content-Length` is set anew from the body.
pub open spec fn headers_after_set(
    pairs: Seq<(Seq<char>, Seq<char>)>,
    name: Seq<char>,
    value: Seq<char>,
    body: Seq<char>,
) -> Seq<(Seq<char>, Seq<char>)> {
    let set = set_pair(pairs, name, value);
    if is_content_length(name) {
        set
    } else {
        set_pair(set, "Content-Length"@, content_length_of(body))
    }
}

/// The headers of a fresh response with body `body`.
pub open spec fn default_headers(body: Seq<char>) -> Seq<(Seq<char>, Seq<char>)> {
    seq![
        ("Content-Type"@, "text/html; charset=utf-8"@),
        ("Content-Length"@, content_length_of(body)),
    ]
}

/// The headers of a fresh response with body `body`, by name.
pub open spec fn default_headers_map(body: Seq<char>) -> Map<Seq<char>, Seq<char>> {
    Map::<Seq<char>, Seq<char>>::empty().insert(
        "Content-Type"@,
        "text/html; charset=utf-8"@,
    ).insert("Content-Length"@, content_length_of(body))
}

/// The headers, by name, after `name` is set to `value` on a response with
/// body `body`: the header has the value, and unless it is `Content-Length`
/// itself, `Content-Length` has the length of the body.
pub open spec fn headers_map_after_set(
    headers: Map<Seq<char>, Seq<char>>,
    name: Seq<char>,
    value: Seq<char>,
    body: Seq<char>,
) -> Map<Seq<char>, Seq<char>> {
    let set = headers.insert(name, value);
    if is_content_length(name) {
        set
    } else {
        set.insert("Content-Length"@, content_length_of(body))
    }
}

/// One header as it stands on the wire, without the line end.
pub open spec fn header_line(pair: (Seq<char>, Seq<char>)) -> Seq<char> {
    pair.0 + ": "@ + pair.1
}

/// The header lines, in order, with a line end between each two.
pub open spec fn header_lines(pairs: Seq<(Seq<char>, Seq<char>)>) -> Seq<char>
    decreases pairs.len(),
{
    if pairs.len() == 0 {
        Seq::empty()
    } else if pairs.len() == 1 {
        header_line(pairs[0])
    } else {
        header_lines(pairs.drop_last()) + "\r\n"@ + header_line(pairs.last())
    }
}

/// The wire form of a response: status line, header lines, an empty line,
/// and the body as it is.
pub open spec fn wire_form(
    status_code: u16,
    status_text: Seq<char>,
    pairs: Seq<(Seq<char>, Seq<char>)>,
    body: Seq<char>,
) -> Seq<char> {
    "HTTP/1.1 "@ + decimal(status_code as nat) + " "@ + status_text + "\r\n"@ + header_lines(pairs)
        + "\r\n\r\n"@ + body
}

impl Response {
    /// Whether this is a response with the given status and body and the
    /// default headers.
    pub open spec fn is_plain(
        &self,
        status_code: u16,
        status_text: Seq<char>,
        body: Seq<char>,
    ) -> bool {
        &&& self.status_code == status_code
        &&& self.status_text@ == status_text
        &&& self.body@ == body
        &&& self.headers.pairs() == default_headers(body)
        &&& self.headers.texts() == default_headers_map(body)
        &&& self.header("Content-Type"@) == Some("text/html; charset=utf-8"@)
        &&& self.header("Content-Length"@) == Some(content_length_of(body))
    }

    /// The value of the header `name`, if it is set.
    pub open spec fn header(&self, name: Seq<char>) -> Option<Seq<char>> {
        if self.headers.texts().contains_key(name) {
            Some(self.headers.texts()[name])
        } else {
            None
        }
    }

    /// Whether `Content-Length` is set to the length of the body as it is.
    pub open spec fn length_is_current(&self) -> bool {
        &&& self.headers.texts().contains_key("Content-Length"@)
        &&& self.headers.texts()["Content-Length"@] == content_length_of(self.body@)
    }

    /// A response with the default headers: an HTML content type and the
    /// length of the body.
    pub fn new(status_code: u16, status_text: &str, body: &str) -> (response: Self)
        ensures
            response.status_code == status_code,
            response.status_text@ == status_text@,
            response.body@ == body@,
            response.headers.pairs() == default_headers(body@),
            response.headers.texts() == default_headers_map(body@),
            response.header("Content-Type"@) == Some("text/html; charset=utf-8"@),
            response.header("Content-Length"@) == Some(content_length_of(body@)),
            response.length_is_current(),
            response.is_plain(status_code, status_text@, body@),
    {
        let mut headers: TextMap<String> = TextMap::new();
        assert(headers.pairs() =~= Seq::empty());
        assert(headers.texts() =~= Map::<Seq<char>, Seq<char>>::empty());
        headers.set("Content-Type", "text/html; charset=utf-8");
        let length = decimal_string(byte_len(body));
        headers.set("Content-Length", length.as_str());
        proof {
            lemma_names_differ();
            assert(headers.pairs() =~= default_headers(body@));
        }
        Response {
            status_code,
            status_text: status_text.to_owned(),
            headers,
            body: body.to_owned(),
        }
    }

    /// A response with status text `OK` and a JSON content type.
    pub fn json(status_code: u16, json_body: &str) -> (response: Self)
        ensures
            response.status_code == status_code,
            response.status_text@ == "OK"@,
            response.body@ == json_body@,
            response.headers.pairs() == headers_after_set(
                default_headers(json_body@),
                "Content-Type"@,
                "application/json"@,
                json_body@,
            ),
            response.headers.texts() == headers_map_after_set(
                default_headers_map(json_body@),
                "Content-Type"@,
                "application/json"@,
                json_body@,
            ),
            response.header("Content-Type"@) == Some("application/json"@),
            response.header("Content-Length"@) == Some(content_length_of(json_body@)),
            response.length_is_current(),
    {
        proof {
            lemma_content_type_is_not_content_length();
            lemma_names_differ();
        }
        let mut response = Self::new(status_code, "OK", json_body);
        response.set_header("Content-Type", "application/json");
        response
    }

    /// A response with status text `OK` and an HTML content type.
    pub fn html(status_code: u16, html_body: &str) -> (response: Self)
        ensures
            response.status_code == status_code,
            response.status_text@ == "OK"@,
            response.body@ == html_body@,
            response.headers.pairs() == headers_after_set(
                default_headers(html_body@),
                "Content-Type"@,
                "text/html; charset=utf-8"@,
                html_body@,
            ),
            response.headers.texts() == headers_map_after_set(
                default_headers_map(html_body@),
                "Content-Type"@,
                "text/html; charset=utf-8"@,
                html_body@,
            ),
            response.header("Content-Type"@) == Some("text/html; charset=utf-8"@),
            response.header("Content-Length"@) == Some(content_length_of(html_body@)),
            response.length_is_current(),
    {
        proof {
            lemma_content_type_is_not_content_length();
            lemma_names_differ();
        }
        let mut response = Self::new(status_code, "OK", html_body);
        response.set_header("Content-Type", "text/html; charset=utf-8");
        response
    }

    /// A response with status text `OK` and a plain-text content type.
    pub fn text(status_code: u16, text_body: &str) -> (response: Self)
        ensures
            response.status_code == status_code,
            response.status_text@ == "OK"@,
            response.body@ == text_body@,
            response.headers.pairs() == headers_after_set(
                default_headers(text_body@),
                "Content-Type"@,
                "text/plain; charset=utf-8"@,
                text_body@,
            ),
            response.headers.texts() == headers_map_after_set(
                default_headers_map(text_body@),
                "Content-Type"@,
                "text/plain; charset=utf-8"@,
                text_body@,
            ),
            response.header("Content-Type"@) == Some("text/plain; charset=utf-8"@),
            response.header("Content-Length"@) == Some(content_length_of(text_body@)),
            response.length_is_current(),
    {
        proof {
            lemma_content_type_is_not_content_length();
            lemma_names_differ();
        }
        let mut response = Self::new(status_code, "OK", text_body);
        response.set_header("Content-Type", "text/plain; charset=utf-8");
        response
    }

    /// Sets the header `name` to `value`. Unless `name` is `Content-Length`
    /// itself, `Content-Length` is then set anew from the body as it now is.
    pub fn set_header(&mut self, name: &str, value: &str)
        ensures
            final(self).status_code == old(self).status_code,
            final(self).status_text == old(self).status_text,
            final(self).body == old(self).body,
            final(self).headers.pairs() == headers_after_set(
                old(self).headers.pairs(),
                name@,
                value@,
                old(self).body@,
            ),
            final(self).headers.texts() == headers_map_after_set(
                old(self).headers.texts(),
                name@,
                value@,
                old(self).body@,
            ),
            final(self).headers.texts() == pairs_map(final(self).headers.pairs()),
            final(self).header(name@) == Some(value@),
            !is_content_length(name@) ==> final(self).length_is_current(),
    {
        self.headers.set(name, value);
        let name_chars = chars_of(name);
        let length_name = chars_of("Content-Length");
        if !same_ignoring_ascii_case(&name_chars, &length_name) {
            let length = decimal_string(byte_len(self.body.as_str()));
            self.headers.set("Content-Length", length.as_str());
        }
    }

    /// The header lines, in the order of the headers, joined by line ends.
    pub fn headers_string(&self) -> (lines: String)
        ensures
            lines@ == header_lines(self.headers.pairs()),
    {
        let mut out: Vec<char> = Vec::new();
        self.push_header_lines(&mut out);
        string_of(&out)
    }

    fn push_header_lines(&self, out: &mut Vec<char>)
        ensures
            final(out)@ == old(out)@ + header_lines(self.headers.pairs()),
    {
        let n = self.headers.len();
        let ghost pairs = self.headers.pairs();
        let mut i: usize = 0;
        while i < n
            invariant
                n == self.headers.keys().len(),
                self.headers.well_formed(),
                pairs == self.headers.pairs(),
                i <= n,
                out@ == old(out)@ + header_lines(pairs.take(i as int)),
            decreases n - i,
        {
            if i > 0 {
                push_text(out, "\r\n");
            }
            push_text(out, self.headers.key_at(i).as_str());
            push_text(out, ": ");
            push_text(out, self.headers.value_at(i).as_str());
            proof {
                let next = pairs.take(i + 1);
                assert(next.drop_last() == pairs.take(i as int));
                assert(next.last() == pairs[i as int]);
                assert(out@ == old(out)@ + header_lines(next));
            }
            i += 1;
        }
        assert(pairs.take(n as int) == pairs);
    }

    /// The response as it goes over the wire.
    pub fn serialize(&self) -> (wire: String)
        ensures
            wire@ == wire_form(
                self.status_code,
                self.status_text@,
                self.headers.pairs(),
                self.body@,
            ),
    {
        let mut out: Vec<char> = Vec::new();
        push_text(&mut out, "HTTP/1.1 ");
        push_decimal(&mut out, self.status_code as u128);
        push_text(&mut out, " ");
        push_text(&mut out, self.status_text.as_str());
        push_text(&mut out, "\r\n");
        self.push_header_lines(&mut out);
        push_text(&mut out, "\r\n\r\n");
        push_text(&mut out, self.body.as_str());
        string_of(&out)
    }
}

/// The headers of a fresh response, as a list and by name, are the same
/// headers.
pub proof fn lemma_default_headers(body: Seq<char>)
    ensures
        pair_keys(default_headers(body)).no_duplicates(),
        pairs_map(default_headers(body)) == default_headers_map(body),
{
    lemma_names_differ();
    lemma_no_pairs();
    let none = Seq::<(Seq<char>, Seq<char>)>::empty();
    let one = set_pair(none, "Content-Type"@, "text/html; charset=utf-8"@);
    lemma_set_pair(none, "Content-Type"@, "text/html; charset=utf-8"@);
    lemma_set_pair(one, "Content-Length"@, content_length_of(body));
    assert(pair_keys(one) =~= seq!["Content-Type"@]);
    assert(!pair_keys(one).contains("Content-Length"@));
    assert(set_pair(one, "Content-Length"@, content_length_of(body)) =~= default_headers(body));
}

/// Setting a header in the list of headers sets it by name: the map of the
/// list after the setting is the map of the list before it with the header
/// set, and with `Content-Length` set anew unless that was the header.
pub proof fn lemma_headers_after_set(
    pairs: Seq<(Seq<char>, Seq<char>)>,
    name: Seq<char>,
    value: Seq<char>,
    body: Seq<char>,
)
    requires
        pair_keys(pairs).no_duplicates(),
    ensures
        pair_keys(headers_after_set(pairs, name, value, body)).no_duplicates(),
        pairs_map(headers_after_set(pairs, name, value, body)) == headers_map_after_set(
            pairs_map(pairs),
            name,
            value,
            body,
        ),
{
    lemma_set_pair(pairs, name, value);
    lemma_set_pair(set_pair(pairs, name, value), "Content-Length"@, content_length_of(body));
}

/// Setting `Content-Type` sets `Content-Length` anew.
pub proof fn lemma_content_type_is_not_content_length()
    ensures
        !is_content_length("Content-Type"@),
{
    reveal_strlit("Content-Type");
    reveal_strlit("Content-Length");
    assert(ascii_lowercase("Content-Type"@).len() != ascii_lowercase("Content-Length"@).len());
}

/// `Content-Type` and `Content-Length` are different names.
pub proof fn lemma_names_differ()
    ensures
        "Content-Type"@ != "Content-Length"@,
{
    reveal_strlit("Content-Type");
    reveal_strlit("Content-Length");
    assert("Content-Type"@.len() != "Content-Length"@.len());
}

} // verus!
