//! The request model: method, path, headers and query parameters, with the
//! parsing of the query string and its percent-decoding.

use crate::text::{
    chars_of, find_char, find_char_in, push_range, split, split_chars, string_of, texts_of,
};
use crate::text_map::{pairs_map, set_pair, TextMap};
use vstd::prelude::*;

verus! {

/// A parsed HTTP request. The path is held without its query string; the
/// query parameters are held decoded.
pub struct Request {
    pub method: String,
    pub path: String,
    pub headers: TextMap<String>,
    pub body: String,
    pub query_params: TextMap<String>,
}

/// The value of a hexadecimal digit, in either case.
pub open spec fn hex_value(c: char) -> Option<u8> {
    if '0' <= c <= '9' {
        Some(((c as u8) - 48) as u8)
    } else if 'A' <= c <= 'F' {
        Some(((c as u8) - 55) as u8)
    } else if 'a' <= c <= 'f' {
        Some(((c as u8) - 87) as u8)
    } else {
        None
    }
}

/// What the escape `%` `high` `low` decodes to: the character of the byte
/// that the two hexadecimal digits give, where they are digits and the byte
/// is below 128. Any other escape stands for itself: a lone byte of 128 or
/// more is no character.
pub open spec fn decoded_escape(high: char, low: char) -> Seq<char> {
    match (hex_value(high), hex_value(low)) {
        (Some(h), Some(l)) => if 16 * h + l < 128 {
            seq![((16 * h + l) as u8) as char]
        } else {
            seq!['%', high, low]
        },
        _ => seq!['%', high, low],
    }
}

/// The percent-decoding of `s` from position `i` on. `+` becomes a space, a
/// `%` with two characters after it is an escape, and a `%` with fewer
/// characters after it passes through with what follows it.
pub open spec fn url_decoded_from(s: Seq<char>, i: int) -> Seq<char>
    decreases s.len() - i,
{
    if i >= s.len() {
        Seq::empty()
    } else if s[i] == '%' {
        if i + 2 < s.len() {
            decoded_escape(s[i + 1], s[i + 2]) + url_decoded_from(s, i + 3)
        } else {
            s.subrange(i, s.len() as int)
        }
    } else if s[i] == '+' {
        seq![' '] + url_decoded_from(s, i + 1)
    } else {
        seq![s[i]] + url_decoded_from(s, i + 1)
    }
}

/// The percent-decoding of `s`.
pub open spec fn url_decoded(s: Seq<char>) -> Seq<char> {
    url_decoded_from(s, 0)
}

/// The parameters after the segment `segment` of a query string is taken in:
/// a segment with `=` sets the decoded text before the first `=` to the
/// decoded text after it; a segment without `=` changes nothing.
pub open spec fn with_segment(
    pairs: Seq<(Seq<char>, Seq<char>)>,
    segment: Seq<char>,
) -> Seq<(Seq<char>, Seq<char>)> {
    let eq = find_char(segment, '=', 0);
    if eq < segment.len() {
        set_pair(
            pairs,
            url_decoded(segment.subrange(0, eq)),
            url_decoded(segment.subrange(eq + 1, segment.len() as int)),
        )
    } else {
        pairs
    }
}

/// The parameters that the segments give, taken in from left to right.
pub open spec fn with_segments(segments: Seq<Seq<char>>) -> Seq<(Seq<char>, Seq<char>)>
    decreases segments.len(),
{
    if segments.len() == 0 {
        Seq::empty()
    } else {
        with_segment(with_segments(segments.drop_last()), segments.last())
    }
}

/// The path part of a request target: what stands before the first `?`.
pub open spec fn path_of(target: Seq<char>) -> Seq<char> {
    target.subrange(0, find_char(target, '?', 0))
}

/// The query parameters of a request target: those of the `&`-separated
/// segments after the first `?`, and none where there is no `?`.
pub open spec fn query_of(target: Seq<char>) -> Seq<(Seq<char>, Seq<char>)> {
    let mark = find_char(target, '?', 0);
    if mark < target.len() {
        with_segments(split(target.subrange(mark + 1, target.len() as int), '&'))
    } else {
        Seq::empty()
    }
}

/// Where a text has no `%`, decoding changes nothing but each `+`, which
/// becomes a space.
pub proof fn lemma_decoding_without_escapes(s: Seq<char>)
    requires
        !s.contains('%'),
    ensures
        url_decoded(s) == s.map_values(|c: char| if c == '+' { ' ' } else { c }),
{
    lemma_decoding_without_escapes_from(s, 0);
    assert(s.subrange(0, s.len() as int) == s);
}

proof fn lemma_decoding_without_escapes_from(s: Seq<char>, i: int)
    requires
        !s.contains('%'),
        0 <= i <= s.len(),
    ensures
        url_decoded_from(s, i) == s.subrange(i, s.len() as int).map_values(
            |c: char| if c == '+' { ' ' } else { c },
        ),
    decreases s.len() - i,
{
    let plain = |c: char| if c == '+' { ' ' } else { c };
    if i < s.len() {
        assert(s.contains(s[i]));
        lemma_decoding_without_escapes_from(s, i + 1);
        assert(s.subrange(i, s.len() as int).map_values(plain) =~= seq![plain(s[i])] + s.subrange(
            i + 1,
            s.len() as int,
        ).map_values(plain));
    } else {
        assert(s.subrange(i, s.len() as int).map_values(plain) =~= Seq::<char>::empty());
    }
}

impl Request {
    /// A request for the target `path`, which may carry a query string.
    pub fn new(method: &str, path: &str, headers: TextMap<String>, body: String) -> (request: Self)
        ensures
            request.method@ == method@,
            request.path@ == path_of(path@),
            request.query_params.pairs() == query_of(path@),
            request.query_params.texts() == pairs_map(query_of(path@)),
            request.headers == headers,
            request.body == body,
    {
        let (path, query_params) = Self::parse_path_and_query(path);
        Request { method: method.to_owned(), path, headers, body, query_params }
    }

    /// The value of the header `name`, by its exact name.
    pub fn get_header(&self, name: &str) -> (value: Option<&String>)
        ensures
            match value {
                Some(v) => self.headers@.contains_key(name@) && *v == self.headers@[name@],
                None => !self.headers@.contains_key(name@),
            },
    {
        self.headers.get(name)
    }

    /// The decoded value of the query parameter `name`.
    pub fn get_query_param(&self, name: &str) -> (value: Option<&String>)
        ensures
            match value {
                Some(v) => self.query_params@.contains_key(name@)
                    && *v == self.query_params@[name@],
                None => !self.query_params@.contains_key(name@),
            },
    {
        self.query_params.get(name)
    }

    /// Splits a request target at its first `?` into the path and the decoded
    /// query parameters.
    pub fn parse_path_and_query(full_path: &str) -> (parts: (String, TextMap<String>))
        ensures
            parts.0@ == path_of(full_path@),
            parts.1.pairs() == query_of(full_path@),
            parts.1.texts() == pairs_map(query_of(full_path@)),
    {
        let target = chars_of(full_path);
        let mark = find_char_in(&target, '?', 0);
        let mut path: Vec<char> = Vec::new();
        push_range(&mut path, &target, 0, mark);
        let mut params: TextMap<String> = TextMap::new();
        assert(params.pairs() =~= Seq::empty());
        if mark < target.len() {
            let mut query: Vec<char> = Vec::new();
            push_range(&mut query, &target, mark + 1, target.len());
            let segments = split_chars(&query, '&');
            let mut i: usize = 0;
            while i < segments.len()
                invariant
                    i <= segments.len(),
                    params.pairs() == with_segments(texts_of(segments@).take(i as int)),
                decreases segments.len() - i,
            {
                proof {
                    let next = texts_of(segments@).take(i + 1);
                    assert(next.drop_last() == texts_of(segments@).take(i as int));
                    assert(next.last() == segments@[i as int]@);
                }
                Self::take_segment(&mut params, &segments[i]);
                i += 1;
            }
            assert(texts_of(segments@).take(segments@.len() as int) == texts_of(segments@));
        }
        proof {
            params.lemma_texts_are_pairs();
        }
        (string_of(&path), params)
    }

    /// Takes one segment of a query string into the parameters.
    fn take_segment(params: &mut TextMap<String>, segment: &Vec<char>)
        ensures
            final(params).pairs() == with_segment(old(params).pairs(), segment@),
    {
        let eq = find_char_in(segment, '=', 0);
        if eq < segment.len() {
            let mut key: Vec<char> = Vec::new();
            push_range(&mut key, segment, 0, eq);
            let mut value: Vec<char> = Vec::new();
            push_range(&mut value, segment, eq + 1, segment.len());
            let key = Self::decode_chars(&key);
            let value = Self::decode_chars(&value);
            params.set(string_of(&key).as_str(), string_of(&value).as_str());
        }
    }

    /// Percent-decodes `input`.
    pub fn url_decode(input: &str) -> (decoded: String)
        ensures
            decoded@ == url_decoded(input@),
    {
        let chars = chars_of(input);
        let decoded = Self::decode_chars(&chars);
        string_of(&decoded)
    }

    fn decode_chars(input: &Vec<char>) -> (decoded: Vec<char>)
        ensures
            decoded@ == url_decoded(input@),
    {
        let mut out: Vec<char> = Vec::new();
        let mut i: usize = 0;
        while i < input.len()
            invariant
                i <= input.len(),
                url_decoded(input@) == out@ + url_decoded_from(input@, i as int),
            decreases input.len() - i,
        {
            let ch = input[i];
            if ch == '%' {
                if input.len() - i > 2 {
                    let high = input[i + 1];
                    let low = input[i + 2];
                    let ghost before = out@;
                    Self::push_escape(&mut out, high, low);
                    assert(before + (decoded_escape(high, low) + url_decoded_from(
                        input@,
                        i + 3,
                    )) == out@ + url_decoded_from(input@, i + 3));
                    i += 3;
                } else {
                    push_range(&mut out, input, i, input.len());
                    i = input.len();
                }
            } else if ch == '+' {
                assert(out@ + (seq![' '] + url_decoded_from(input@, i + 1)) == out@.push(' ')
                    + url_decoded_from(input@, i + 1));
                out.push(' ');
                i += 1;
            } else {
                assert(out@ + (seq![ch] + url_decoded_from(input@, i + 1)) == out@.push(ch)
                    + url_decoded_from(input@, i + 1));
                out.push(ch);
                i += 1;
            }
        }
        out
    }

    /// Appends what the escape `%` `high` `low` decodes to.
    fn push_escape(out: &mut Vec<char>, high: char, low: char)
        ensures
            final(out)@ == old(out)@ + decoded_escape(high, low),
    {
        match (Self::hex_to_u8(high), Self::hex_to_u8(low)) {
            (Some(h), Some(l)) => {
                if h < 8 {
                    let byte: u8 = 16 * h + l;
                    out.push(byte as char);
                } else {
                    out.push('%');
                    out.push(high);
                    out.push(low);
                }
            },
            _ => {
                out.push('%');
                out.push(high);
                out.push(low);
            },
        }
    }

    /// The value of a hexadecimal digit, in either case.
    pub fn hex_to_u8(ch: char) -> (value: Option<u8>)
        ensures
            value == hex_value(ch),
            value matches Some(v) ==> v < 16,
    {
        if '0' <= ch && ch <= '9' {
            Some((ch as u8) - 48)
        } else if 'A' <= ch && ch <= 'F' {
            Some((ch as u8) - 55)
        } else if 'a' <= ch && ch <= 'f' {
            Some((ch as u8) - 87)
        } else {
            None
        }
    }
}

} // verus!
