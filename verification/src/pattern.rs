//! Searching text with regular expressions. The expressions are compiled and
//! run by the `regex` crate. What it reports is named here, not defined: byte
//! spans in the UTF-8 form of the text. The rest of the module turns such
//! spans into character positions and tells whether they fit the text.

use crate::text::{lemma_utf8_len_take_monotonic, utf8_len, width_of};
use vstd::prelude::*;

verus! {

/// Whether `regex::Regex::new` accepts `pattern`.
pub uninterp spec fn regex_compiles(pattern: Seq<char>) -> bool;

/// The matches that `Regex::captures_iter` yields on `haystack` for the
/// expression that `pattern` compiles to: in the order of the search, for
/// every match the byte span of each of its groups, the whole match first,
/// with `None` for a group that took no part.
pub uninterp spec fn regex_matches(pattern: Seq<char>, haystack: Seq<char>) -> Seq<
    Seq<Option<(usize, usize)>>,
>;

/// The spans of a list of matches, as sequences.
pub open spec fn spans_of(matches: Seq<Vec<Option<(usize, usize)>>>) -> Seq<
    Seq<Option<(usize, usize)>>,
> {
    matches.map_values(|groups: Vec<Option<(usize, usize)>>| groups@)
}

/// Whether a character has a meaning of its own in a regular expression.
pub open spec fn is_meta_character(c: char) -> bool {
    c == '\\' || c == '.' || c == '+' || c == '*' || c == '?' || c == '(' || c == ')' || c == '|'
        || c == '[' || c == ']' || c == '{' || c == '}' || c == '^' || c == '$' || c == '#' || c
        == '&' || c == '-' || c == '~'
}

/// `text` with a backslash before each of its meta characters.
pub open spec fn escaped(text: Seq<char>) -> Seq<char>
    decreases text.len(),
{
    if text.len() == 0 {
        Seq::empty()
    } else if is_meta_character(text.last()) {
        escaped(text.drop_last()) + seq!['\\', text.last()]
    } else {
        escaped(text.drop_last()).push(text.last())
    }
}

/// Calls `regex::escape`, which copies `text` and puts a backslash before
/// each character that `regex_syntax::is_meta_character` holds of.
#[verifier::external_body]
pub(crate) fn escape(text: &str) -> (out: String)
    ensures
        out@ == escaped(text@),
{
    regex::escape(text)
}

/// Compiles `pattern` with `regex::Regex::new` and, where it compiles, walks
/// `Regex::captures_iter` over `haystack` to its end. Each match is handed
/// out as the byte spans (`Match::start`, `Match::end`) of the groups that
/// `Captures::iter` yields. Nothing is claimed of the spans but that the same
/// pattern and haystack give the same ones.
#[verifier::external_body]
pub(crate) fn find_all(pattern: &str, haystack: &str) -> (found: Option<
    Vec<Vec<Option<(usize, usize)>>>,
>)
    ensures
        found is Some <==> regex_compiles(pattern@),
        found matches Some(matches) ==> spans_of(matches@) == regex_matches(pattern@, haystack@),
{
    let expression = regex::Regex::new(pattern).ok()?;
    Some(
        expression.captures_iter(haystack).map(
            |captures| captures.iter().map(|group| group.map(|m| (m.start(), m.end()))).collect(),
        ).collect(),
    )
}

/// Whether the character position `i` of `text` lies at byte `offset` of its
/// UTF-8 form.
pub open spec fn is_offset_of(text: Seq<char>, offset: int, i: int) -> bool {
    0 <= i <= text.len() && utf8_len(text.take(i)) == offset
}

/// The character position of `text` that lies at byte `offset` of its UTF-8
/// form, if the offset falls between two characters or at an end.
pub open spec fn char_index(text: Seq<char>, offset: int) -> Option<int> {
    if exists|i: int| is_offset_of(text, offset, i) {
        Some(choose|i: int| is_offset_of(text, offset, i))
    } else {
        None
    }
}

/// No two character positions lie at one byte offset.
pub proof fn lemma_char_index(text: Seq<char>, offset: int, i: int)
    requires
        is_offset_of(text, offset, i),
    ensures
        char_index(text, offset) == Some(i),
{
    let j = choose|j: int| is_offset_of(text, offset, j);
    if j < i {
        lemma_utf8_len_take_monotonic(text, j, i);
    } else if i < j {
        lemma_utf8_len_take_monotonic(text, i, j);
    }
}

/// The character position at or after `from` that lies at byte `target`.
/// `from_offset` is the byte offset of `from`.
pub fn char_position(text: &Vec<char>, from: usize, from_offset: usize, target: usize) -> (at:
    Option<usize>)
    requires
        from <= text.len(),
        from_offset == utf8_len(text@.take(from as int)),
    ensures
        match at {
            Some(i) => from <= i <= text.len() && is_offset_of(text@, target as int, i as int),
            None => forall|i: int| from <= i ==> !is_offset_of(text@, target as int, i),
        },
{
    if target < from_offset {
        assert forall|i: int| from <= i implies !is_offset_of(text@, target as int, i) by {
            if i <= text.len() {
                lemma_utf8_len_take_monotonic(text@, from as int, i);
            }
        }
        return None;
    }
    let mut i: usize = from;
    let mut offset: usize = from_offset;
    while offset < target
        invariant
            from <= i <= text.len(),
            offset == utf8_len(text@.take(i as int)),
            offset <= target,
        decreases text.len() - i,
    {
        if i == text.len() {
            assert forall|k: int| from <= k implies !is_offset_of(text@, target as int, k) by {
                if k <= text.len() {
                    lemma_utf8_len_take_monotonic(text@, k, i as int);
                }
            }
            return None;
        }
        let width = width_of(text[i]) as usize;
        proof {
            assert(text@.take(i + 1).drop_last() == text@.take(i as int));
        }
        if width > target - offset {
            assert forall|k: int| from <= k implies !is_offset_of(text@, target as int, k) by {
                if k <= i {
                    lemma_utf8_len_take_monotonic(text@, k, i as int);
                } else if k <= text.len() {
                    lemma_utf8_len_take_monotonic(text@, i + 1, k);
                }
            }
            return None;
        }
        offset = offset + width;
        i += 1;
    }
    Some(i)
}

/// The character span of one group: from the position at its first byte to
/// the position at the byte after its last.
pub open spec fn group_span(text: Seq<char>, group: Option<(usize, usize)>) -> Option<(int, int)> {
    match group {
        Some((first, after)) => match (
            char_index(text, first as int),
            char_index(text, after as int),
        ) {
            (Some(start), Some(end)) => if start <= end {
                Some((start, end))
            } else {
                None
            },
            _ => None,
        },
        None => None,
    }
}

/// The character spans of the first `count` groups of a match.
pub open spec fn spans_at(
    text: Seq<char>,
    groups: Seq<Option<(usize, usize)>>,
    count: int,
) -> Seq<(int, int)> {
    Seq::new(count as nat, |j: int| group_span(text, groups[j]).unwrap())
}

/// Whether the first `count` groups of a match fit `text` from position
/// `pos` on: each took part and has a character span, the whole match is not
/// empty and starts at or after `pos`, and every other group lies within it.
pub open spec fn groups_fit(
    text: Seq<char>,
    groups: Seq<Option<(usize, usize)>>,
    count: int,
    pos: int,
) -> bool {
    let spans = spans_at(text, groups, count);
    &&& 1 <= count <= groups.len()
    &&& forall|j: int| 0 <= j < count ==> (#[trigger] group_span(text, groups[j])) is Some
    &&& pos <= spans[0].0 < spans[0].1
    &&& forall|j: int|
        0 <= j < count ==> spans[0].0 <= (#[trigger] spans[j]).0 && spans[j].1 <= spans[0].1
}

/// The character spans of the first `count` groups of a match, where they
/// fit `text` from position `pos` on.
pub open spec fn group_spans(
    text: Seq<char>,
    groups: Seq<Option<(usize, usize)>>,
    count: int,
    pos: int,
) -> Option<Seq<(int, int)>> {
    if groups_fit(text, groups, count, pos) {
        Some(spans_at(text, groups, count))
    } else {
        None
    }
}

/// Spans that fit lie in the text, in order: the whole match is not empty,
/// starts at or after `pos` and ends within the text, and every group lies
/// within the whole match.
pub proof fn lemma_group_spans_bounds(
    text: Seq<char>,
    groups: Seq<Option<(usize, usize)>>,
    count: int,
    pos: int,
)
    ensures
        group_spans(text, groups, count, pos) matches Some(spans) ==> {
            &&& spans.len() == count
            &&& pos <= spans[0].0 < spans[0].1 <= text.len()
            &&& forall|j: int|
                0 <= j < count ==> spans[0].0 <= (#[trigger] spans[j]).0 <= spans[j].1
                    <= spans[0].1
        },
{
    if groups_fit(text, groups, count, pos) {
        let spans = group_spans(text, groups, count, pos).unwrap();
        assert forall|j: int| 0 <= j < count implies spans[0].0 <= (#[trigger] spans[j]).0
            <= spans[j].1 <= spans[0].1 && spans[j].1 <= text.len() by {
            assert(group_span(text, groups[j]) is Some);
            assert(group_span(text, groups[0]) is Some);
            let after = groups[0].unwrap().1;
            assert(char_index(text, after as int) is Some);
            assert(is_offset_of(text, after as int, char_index(text, after as int).unwrap()));
        }
        assert(spans[0].0 <= spans[0].0 <= spans[0].1 <= spans[0].1 && spans[0].1 <= text.len());
    }
}

/// The groups of one match as character spans, and the byte at which the
/// whole match ends.
pub struct Located {
    /// The character span of each group; the whole match is the first.
    pub spans: Vec<(usize, usize)>,
    /// The byte offset of the end of the whole match.
    pub end_offset: usize,
}

/// Character spans as pairs of integers.
pub open spec fn spans_view(spans: Seq<(usize, usize)>) -> Seq<(int, int)> {
    spans.map_values(|span: (usize, usize)| (span.0 as int, span.1 as int))
}

/// The character spans of the first `count` groups of a match, where they
/// fit `text` from position `pos` on. `pos_offset` is the byte offset of
/// `pos`.
pub fn locate_groups(
    text: &Vec<char>,
    groups: &Vec<Option<(usize, usize)>>,
    count: usize,
    pos: usize,
    pos_offset: usize,
) -> (located: Option<Located>)
    requires
        pos <= text.len(),
        pos_offset == utf8_len(text@.take(pos as int)),
    ensures
        match located {
            Some(found) => {
                &&& group_spans(text@, groups@, count as int, pos as int) == Some(
                    spans_view(found.spans@),
                )
                &&& found.spans.len() == count
                &&& pos <= found.spans[0].0 < found.spans[0].1 <= text.len()
                &&& is_offset_of(text@, found.end_offset as int, found.spans[0].1 as int)
                &&& forall|j: int|
                    0 <= j < count ==> found.spans[0].0 <= (#[trigger] found.spans[j]).0
                        <= found.spans[j].1 <= found.spans[0].1
            },
            None => group_spans(text@, groups@, count as int, pos as int) is None,
        },
{
    if count < 1 || count > groups.len() {
        return None;
    }
    let whole = match groups[0] {
        Some(whole) => whole,
        None => {
            assert(group_span(text@, groups@[0]) is None);
            return None;
        },
    };
    let start = match char_position(text, pos, pos_offset, whole.0) {
        Some(start) => start,
        None => {
            proof {
                if group_span(text@, groups@[0]) is Some {
                    let s = char_index(text@, whole.0 as int)->0;
                    assert(is_offset_of(text@, whole.0 as int, s));
                }
            }
            return None;
        },
    };
    proof {
        lemma_char_index(text@, whole.0 as int, start as int);
    }
    let end = match char_position(text, start, whole.0, whole.1) {
        Some(end) => end,
        None => {
            proof {
                if group_span(text@, groups@[0]) is Some {
                    let e = char_index(text@, whole.1 as int)->0;
                    assert(is_offset_of(text@, whole.1 as int, e));
                }
            }
            return None;
        },
    };
    proof {
        lemma_char_index(text@, whole.1 as int, end as int);
    }
    if start == end {
        return None;
    }
    assert(group_span(text@, groups@[0]) == Some((start as int, end as int)));
    let mut found: Vec<(usize, usize)> = Vec::new();
    found.push((start, end));
    let mut j: usize = 1;
    while j < count
        invariant
            1 <= j <= count <= groups.len(),
            pos <= start < end <= text.len(),
            groups@[0] == Some(whole),
            is_offset_of(text@, whole.0 as int, start as int),
            is_offset_of(text@, whole.1 as int, end as int),
            group_span(text@, groups@[0]) == Some((start as int, end as int)),
            found.len() == j,
            found[0] == (start, end),
            forall|k: int|
                0 <= k < j ==> group_span(text@, groups@[k]) == Some(
                    ((#[trigger] found[k]).0 as int, found[k].1 as int),
                ),
            forall|k: int| 0 <= k < j ==> start <= (#[trigger] found[k]).0 <= found[k].1 <= end,
        decreases count - j,
    {
        let group = match groups[j] {
            Some(group) => group,
            None => {
                assert(group_span(text@, groups@[j as int]) is None);
                return None;
            },
        };
        let first = match char_position(text, start, whole.0, group.0) {
            Some(first) => first,
            None => {
                proof {
                    if group_span(text@, groups@[j as int]) is Some {
                        let s = char_index(text@, group.0 as int)->0;
                        assert(is_offset_of(text@, group.0 as int, s));
                        assert(spans_at(text@, groups@, count as int)[j as int].0 == s);
                        assert(spans_at(text@, groups@, count as int)[0].0 == start);
                    }
                }
                return None;
            },
        };
        proof {
            lemma_char_index(text@, group.0 as int, first as int);
        }
        let after = match char_position(text, first, group.0, group.1) {
            Some(after) => after,
            None => {
                proof {
                    if group_span(text@, groups@[j as int]) is Some {
                        let e = char_index(text@, group.1 as int)->0;
                        assert(is_offset_of(text@, group.1 as int, e));
                    }
                }
                return None;
            },
        };
        proof {
            lemma_char_index(text@, group.1 as int, after as int);
        }
        if after > end {
            assert(group_span(text@, groups@[j as int]) == Some((first as int, after as int)));
            assert(spans_at(text@, groups@, count as int)[j as int].1 == after);
            assert(spans_at(text@, groups@, count as int)[0].1 == end);
            return None;
        }
        found.push((first, after));
        j += 1;
    }
    proof {
        assert forall|k: int| 0 <= k < count implies (#[trigger] group_span(text@, groups@[k]))
            == Some((found[k].0 as int, found[k].1 as int)) && start <= found[k].0 && found[k].1
            <= end by {
            let span = found[k];
        }
        assert(groups_fit(text@, groups@, count as int, pos as int));
        assert(spans_view(found@) =~= spans_at(text@, groups@, count as int));
    }
    Some(Located { spans: found, end_offset: whole.1 })
}

} // verus!
