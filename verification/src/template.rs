//! The template engine: `{{ name }}` tokens take the values of variables,
//! and `{% for x in list %} ... {% endfor %}` blocks repeat their body for
//! each item of a list. Tokens and blocks are found by regular expressions;
//! what is done with them is decided here.
//!
//! Loops have one level. A block ends at the first closing tag after its
//! opening tag, and what a block puts out is not searched for blocks again,
//! so a block inside the body of another is not expanded as a block.

use crate::pattern::{
    escape, escaped, find_all, group_spans, lemma_group_spans_bounds, locate_groups,
    regex_compiles, regex_matches, spans_of, spans_view,
};
use crate::text::{
    chars_of, push_all, push_range, push_text, string_of, string_texts, texts_of, utf8_len,
};
use crate::text_map::TextMap;
use vstd::prelude::*;

verus! {

/// The expression for a variable token: two opening braces, a name of word
/// characters with optional white space around it, two closing braces.
pub const VARIABLE_PATTERN: &'static str = r"\{\{\s*(\w+)\s*}}";

/// The expression for a loop block: the opening tag with the loop variable
/// and the list, the shortest body, the closing tag.
pub const LOOP_PATTERN: &'static str =
    r"(?s)\{%\s*for\s+(\w+)\s+in\s+(\w+)\s*%}(.*?)\{%\s*endfor\s*%}";

/// What stands in `text` between the two positions of `span`.
pub open spec fn slice(text: Seq<char>, span: (int, int)) -> Seq<char> {
    text.subrange(span.0, span.1)
}

/// What a variable token becomes: the value of the variable that it names,
/// or the token itself where no variable has that name.
pub open spec fn token_text(
    text: Seq<char>,
    spans: Seq<(int, int)>,
    variables: Map<Seq<char>, Seq<char>>,
) -> Seq<char> {
    if variables.contains_key(slice(text, spans[1])) {
        variables[slice(text, spans[1])]
    } else {
        slice(text, spans[0])
    }
}

/// `text` from position `pos` on with the variable tokens among `matches`,
/// from the `k`-th on, replaced. A match is a token where its two groups fit
/// the text after the last token; the first that does not fit ends the
/// replacing.
pub open spec fn substituted_from(
    text: Seq<char>,
    matches: Seq<Seq<Option<(usize, usize)>>>,
    variables: Map<Seq<char>, Seq<char>>,
    k: int,
    pos: int,
) -> Seq<char>
    decreases matches.len() - k,
{
    if 0 <= k < matches.len() {
        match group_spans(text, matches[k], 2, pos) {
            Some(spans) => text.subrange(pos, spans[0].0) + token_text(text, spans, variables)
                + substituted_from(text, matches, variables, k + 1, spans[0].1),
            None => text.subrange(pos, text.len() as int),
        }
    } else {
        text.subrange(pos, text.len() as int)
    }
}

/// `text` with each variable token replaced by the value of its variable. A
/// token of an unknown variable stays as it is. Where the expression for
/// tokens does not compile, the whole text stays as it is.
pub open spec fn substituted(text: Seq<char>, variables: Map<Seq<char>, Seq<char>>) -> Seq<char> {
    if regex_compiles(VARIABLE_PATTERN@) {
        substituted_from(text, regex_matches(VARIABLE_PATTERN@, text), variables, 0, 0)
    } else {
        text
    }
}

/// The pieces of `text` from position `pos` on that lie between the matches
/// from the `k`-th on: one more than there are matches that fit.
pub open spec fn cut_from(
    text: Seq<char>,
    matches: Seq<Seq<Option<(usize, usize)>>>,
    k: int,
    pos: int,
) -> Seq<Seq<char>>
    decreases matches.len() - k,
{
    if 0 <= k < matches.len() {
        match group_spans(text, matches[k], 1, pos) {
            Some(spans) => seq![text.subrange(pos, spans[0].0)] + cut_from(
                text,
                matches,
                k + 1,
                spans[0].1,
            ),
            None => seq![text.subrange(pos, text.len() as int)],
        }
    } else {
        seq![text.subrange(pos, text.len() as int)]
    }
}

/// The pieces with `value` between each two of them.
pub open spec fn joined(pieces: Seq<Seq<char>>, value: Seq<char>) -> Seq<char>
    decreases pieces.len(),
{
    if pieces.len() == 0 {
        Seq::empty()
    } else if pieces.len() == 1 {
        pieces[0]
    } else {
        joined(pieces.drop_last(), value) + value + pieces.last()
    }
}

/// The expression for the tokens of the loop variable `variable`: the name
/// between braces as in a variable token, taken literally.
pub open spec fn loop_variable_pattern(variable: Seq<char>) -> Seq<char> {
    r"\{\{\s*"@ + escaped(variable) + r"\s*\}\}"@
}

/// The pieces of a loop body between the tokens of its loop variable; the
/// body in one piece where the expression for those tokens does not compile.
pub open spec fn body_pieces(body: Seq<char>, variable: Seq<char>) -> Seq<Seq<char>> {
    let pattern = loop_variable_pattern(variable);
    if regex_compiles(pattern) {
        cut_from(body, regex_matches(pattern, body), 0, 0)
    } else {
        seq![body]
    }
}

/// One copy of the body for each item, in order, with the item in the place
/// of each token of the loop variable.
pub open spec fn repeated(pieces: Seq<Seq<char>>, items: Seq<Seq<char>>) -> Seq<char>
    decreases items.len(),
{
    if items.len() == 0 {
        Seq::empty()
    } else {
        repeated(pieces, items.drop_last()) + joined(pieces, items.last())
    }
}

/// What a loop block becomes: its body repeated for the items of its list,
/// and nothing where there is no list of that name. The groups of the block
/// are the loop variable, the list and the body, in this order.
pub open spec fn block_text(
    text: Seq<char>,
    spans: Seq<(int, int)>,
    lists: Map<Seq<char>, Seq<Seq<char>>>,
) -> Seq<char> {
    if lists.contains_key(slice(text, spans[2])) {
        repeated(
            body_pieces(slice(text, spans[3]), slice(text, spans[1])),
            lists[slice(text, spans[2])],
        )
    } else {
        Seq::empty()
    }
}

/// `text` from position `pos` on with the loop blocks among `matches`, from
/// the `k`-th on, expanded. What an expansion puts out is not searched again.
pub open spec fn expanded_from(
    text: Seq<char>,
    matches: Seq<Seq<Option<(usize, usize)>>>,
    lists: Map<Seq<char>, Seq<Seq<char>>>,
    k: int,
    pos: int,
) -> Seq<char>
    decreases matches.len() - k,
{
    if 0 <= k < matches.len() {
        match group_spans(text, matches[k], 4, pos) {
            Some(spans) => text.subrange(pos, spans[0].0) + block_text(text, spans, lists)
                + expanded_from(text, matches, lists, k + 1, spans[0].1),
            None => text.subrange(pos, text.len() as int),
        }
    } else {
        text.subrange(pos, text.len() as int)
    }
}

/// `text` with each loop block expanded; `text` itself where the expression
/// for blocks does not compile.
pub open spec fn expanded(text: Seq<char>, lists: Map<Seq<char>, Seq<Seq<char>>>) -> Seq<char> {
    if regex_compiles(LOOP_PATTERN@) {
        expanded_from(text, regex_matches(LOOP_PATTERN@, text), lists, 0, 0)
    } else {
        text
    }
}

/// A template rendered: first the loop blocks are expanded, then the
/// variable tokens of the result are replaced.
pub open spec fn rendered(
    content: Seq<char>,
    variables: Map<Seq<char>, Seq<char>>,
    lists: Map<Seq<char>, Seq<Seq<char>>>,
) -> Seq<char> {
    substituted(expanded(content, lists), variables)
}

/// Whether none of the variable tokens among `matches` names a variable.
pub open spec fn no_token_is_known(
    text: Seq<char>,
    matches: Seq<Seq<Option<(usize, usize)>>>,
    variables: Map<Seq<char>, Seq<char>>,
) -> bool {
    forall|k: int, pos: int|
        0 <= k < matches.len() ==> ((#[trigger] group_spans(text, matches[k], 2, pos)) matches Some(
            spans,
        ) ==> !variables.contains_key(slice(text, spans[1])))
}

/// Tokens of unknown variables stay: a text in which no token names a
/// variable comes out of the replacing as it went in.
pub proof fn lemma_unknown_tokens_stay(text: Seq<char>, variables: Map<Seq<char>, Seq<char>>)
    requires
        no_token_is_known(text, regex_matches(VARIABLE_PATTERN@, text), variables),
    ensures
        substituted(text, variables) == text,
{
    if regex_compiles(VARIABLE_PATTERN@) {
        lemma_unknown_tokens_stay_from(
            text,
            regex_matches(VARIABLE_PATTERN@, text),
            variables,
            0,
            0,
        );
        assert(text.subrange(0, text.len() as int) == text);
    }
}

proof fn lemma_unknown_tokens_stay_from(
    text: Seq<char>,
    matches: Seq<Seq<Option<(usize, usize)>>>,
    variables: Map<Seq<char>, Seq<char>>,
    k: int,
    pos: int,
)
    requires
        no_token_is_known(text, matches, variables),
        0 <= k,
        0 <= pos <= text.len(),
    ensures
        substituted_from(text, matches, variables, k, pos) == text.subrange(
            pos,
            text.len() as int,
        ),
    decreases matches.len() - k,
{
    if k < matches.len() {
        match group_spans(text, matches[k], 2, pos) {
            Some(spans) => {
                lemma_group_spans_bounds(text, matches[k], 2, pos);
                lemma_unknown_tokens_stay_from(text, matches, variables, k + 1, spans[0].1);
                assert(text.subrange(pos, spans[0].0) + slice(text, spans[0]) + text.subrange(
                    spans[0].1,
                    text.len() as int,
                ) =~= text.subrange(pos, text.len() as int));
            },
            None => {},
        }
    }
}

/// A loop over a list that the context does not have puts out nothing, and
/// a loop over an empty list likewise.
pub proof fn lemma_loop_without_items(
    text: Seq<char>,
    spans: Seq<(int, int)>,
    lists: Map<Seq<char>, Seq<Seq<char>>>,
)
    requires
        !lists.contains_key(slice(text, spans[2])) || lists[slice(text, spans[2])].len() == 0,
    ensures
        block_text(text, spans, lists) == Seq::<char>::empty(),
{
}

/// The lists of a context as texts.
pub open spec fn list_texts(lists: &TextMap<Vec<String>>) -> Map<Seq<char>, Seq<Seq<char>>> {
    Map::new(|k: Seq<char>| lists@.contains_key(k), |k: Seq<char>| string_texts(lists@[k]@))
}

/// Appending a gap and a replacement to what is out, with the rest still to
/// come, is the whole.
proof fn lemma_splice(out: Seq<char>, gap: Seq<char>, replacement: Seq<char>, rest: Seq<char>)
    ensures
        out + (gap + replacement + rest) == (out + gap + replacement) + rest,
{
    assert(out + (gap + replacement + rest) =~= (out + gap + replacement) + rest);
}

/// Appends what a variable token becomes. The spans are those of the token
/// and of its name.
pub fn push_token(
    out: &mut Vec<char>,
    text: &Vec<char>,
    spans: &Vec<(usize, usize)>,
    variables: &TextMap<String>,
)
    requires
        spans.len() == 2,
        forall|j: int| 0 <= j < 2 ==> (#[trigger] spans[j]).0 <= spans[j].1 <= text.len(),
    ensures
        final(out)@ == old(out)@ + token_text(text@, spans_view(spans@), variables.texts()),
{
    let whole = spans[0];
    let name_span = spans[1];
    assert(spans_view(spans@)[0] == (whole.0 as int, whole.1 as int));
    assert(spans_view(spans@)[1] == (name_span.0 as int, name_span.1 as int));
    let mut name: Vec<char> = Vec::new();
    push_range(&mut name, text, name_span.0, name_span.1);
    let name = string_of(&name);
    match variables.get(name.as_str()) {
        Some(value) => {
            push_text(out, value.as_str());
        },
        None => {
            push_range(out, text, whole.0, whole.1);
        },
    }
}

/// Replaces the variable tokens among `matches` in `text`.
pub fn substitute(
    text: &Vec<char>,
    matches: &Vec<Vec<Option<(usize, usize)>>>,
    variables: &TextMap<String>,
) -> (out: Vec<char>)
    ensures
        out@ == substituted_from(text@, spans_of(matches@), variables.texts(), 0, 0),
{
    let mut out: Vec<char> = Vec::new();
    let mut pos: usize = 0;
    let mut pos_offset: usize = 0;
    let mut k: usize = 0;
    assert(text@.take(0) == Seq::<char>::empty());
    while k < matches.len()
        invariant
            k <= matches.len(),
            pos <= text.len(),
            pos_offset == utf8_len(text@.take(pos as int)),
            substituted_from(text@, spans_of(matches@), variables.texts(), 0, 0) == out@
                + substituted_from(
                text@,
                spans_of(matches@),
                variables.texts(),
                k as int,
                pos as int,
            ),
        decreases matches.len() - k,
    {
        assert(spans_of(matches@)[k as int] == matches@[k as int]@);
        match locate_groups(text, &matches[k], 2, pos, pos_offset) {
            Some(found) => {
                let ghost before = out@;
                let ghost spans = spans_view(found.spans@);
                let whole = found.spans[0];
                assert(spans[0] == (whole.0 as int, whole.1 as int));
                push_range(&mut out, text, pos, whole.0);
                push_token(&mut out, text, &found.spans, variables);
                proof {
                    lemma_splice(
                        before,
                        text@.subrange(pos as int, whole.0 as int),
                        token_text(text@, spans, variables.texts()),
                        substituted_from(
                            text@,
                            spans_of(matches@),
                            variables.texts(),
                            k + 1,
                            whole.1 as int,
                        ),
                    );
                }
                pos = whole.1;
                pos_offset = found.end_offset;
                k += 1;
            },
            None => {
                push_range(&mut out, text, pos, text.len());
                return out;
            },
        }
    }
    push_range(&mut out, text, pos, text.len());
    out
}

/// Cuts `text` at the matches among `matches`.
pub fn cut(text: &Vec<char>, matches: &Vec<Vec<Option<(usize, usize)>>>) -> (pieces: Vec<Vec<char>>)
    ensures
        texts_of(pieces@) == cut_from(text@, spans_of(matches@), 0, 0),
        pieces.len() >= 1,
{
    let mut pieces: Vec<Vec<char>> = Vec::new();
    let mut pos: usize = 0;
    let mut pos_offset: usize = 0;
    let mut k: usize = 0;
    assert(text@.take(0) == Seq::<char>::empty());
    assert(texts_of(pieces@) =~= Seq::<Seq<char>>::empty());
    while k < matches.len()
        invariant
            k <= matches.len(),
            pos <= text.len(),
            pos_offset == utf8_len(text@.take(pos as int)),
            cut_from(text@, spans_of(matches@), 0, 0) == texts_of(pieces@) + cut_from(
                text@,
                spans_of(matches@),
                k as int,
                pos as int,
            ),
        decreases matches.len() - k,
    {
        assert(spans_of(matches@)[k as int] == matches@[k as int]@);
        let mut piece: Vec<char> = Vec::new();
        match locate_groups(text, &matches[k], 1, pos, pos_offset) {
            Some(found) => {
                let ghost spans = spans_view(found.spans@);
                let whole = found.spans[0];
                assert(spans[0] == (whole.0 as int, whole.1 as int));
                push_range(&mut piece, text, pos, whole.0);
                proof {
                    let rest = cut_from(text@, spans_of(matches@), k + 1, whole.1 as int);
                    assert(texts_of(pieces@.push(piece)) =~= texts_of(pieces@).push(piece@));
                    assert(texts_of(pieces@) + (seq![piece@] + rest) == texts_of(pieces@).push(
                        piece@,
                    ) + rest);
                }
                pieces.push(piece);
                pos = whole.1;
                pos_offset = found.end_offset;
                k += 1;
            },
            None => {
                push_range(&mut piece, text, pos, text.len());
                proof {
                    assert(texts_of(pieces@.push(piece)) =~= texts_of(pieces@).push(piece@));
                    assert(texts_of(pieces@) + seq![piece@] == texts_of(pieces@).push(piece@));
                }
                pieces.push(piece);
                return pieces;
            },
        }
    }
    let mut piece: Vec<char> = Vec::new();
    push_range(&mut piece, text, pos, text.len());
    proof {
        assert(texts_of(pieces@.push(piece)) =~= texts_of(pieces@).push(piece@));
        assert(texts_of(pieces@) + seq![piece@] == texts_of(pieces@).push(piece@));
    }
    pieces.push(piece);
    pieces
}

/// Appends the pieces to `out` with `value` between each two of them.
pub fn push_joined(out: &mut Vec<char>, pieces: &Vec<Vec<char>>, value: &Vec<char>)
    ensures
        final(out)@ == old(out)@ + joined(texts_of(pieces@), value@),
{
    let mut i: usize = 0;
    while i < pieces.len()
        invariant
            i <= pieces.len(),
            out@ == old(out)@ + joined(texts_of(pieces@).take(i as int), value@),
        decreases pieces.len() - i,
    {
        if i > 0 {
            push_all(out, value);
        }
        push_all(out, &pieces[i]);
        proof {
            let next = texts_of(pieces@).take(i + 1);
            assert(next.drop_last() == texts_of(pieces@).take(i as int));
            assert(next.last() == pieces@[i as int]@);
            assert(out@ == old(out)@ + joined(next, value@));
        }
        i += 1;
    }
    assert(texts_of(pieces@).take(pieces@.len() as int) == texts_of(pieces@));
}

/// The expression for the tokens of the loop variable `variable`.
pub fn loop_variable_expression(variable: &str) -> (pattern: String)
    ensures
        pattern@ == loop_variable_pattern(variable@),
{
    let mut out: Vec<char> = Vec::new();
    push_text(&mut out, r"\{\{\s*");
    push_text(&mut out, escape(variable).as_str());
    push_text(&mut out, r"\s*\}\}");
    string_of(&out)
}

/// Cuts a loop body at the tokens of its loop variable.
pub fn cut_body(body: &Vec<char>, variable: &str) -> (pieces: Vec<Vec<char>>)
    ensures
        texts_of(pieces@) == body_pieces(body@, variable@),
{
    let pattern = loop_variable_expression(variable);
    let haystack = string_of(body);
    match find_all(pattern.as_str(), haystack.as_str()) {
        Some(matches) => cut(body, &matches),
        None => {
            let mut pieces: Vec<Vec<char>> = Vec::new();
            let mut piece: Vec<char> = Vec::new();
            push_all(&mut piece, body);
            pieces.push(piece);
            assert(texts_of(pieces@) =~= seq![body@]);
            pieces
        },
    }
}

/// Appends one copy of the pieces for each item, joined by the item.
pub fn push_repeated(out: &mut Vec<char>, pieces: &Vec<Vec<char>>, items: &Vec<String>)
    ensures
        final(out)@ == old(out)@ + repeated(texts_of(pieces@), string_texts(items@)),
{
    let mut i: usize = 0;
    while i < items.len()
        invariant
            i <= items.len(),
            out@ == old(out)@ + repeated(
                texts_of(pieces@),
                string_texts(items@).take(i as int),
            ),
        decreases items.len() - i,
    {
        let item = chars_of(items[i].as_str());
        push_joined(out, pieces, &item);
        proof {
            let next = string_texts(items@).take(i + 1);
            assert(next.drop_last() == string_texts(items@).take(i as int));
            assert(next.last() == items@[i as int]@);
        }
        i += 1;
    }
    assert(string_texts(items@).take(items@.len() as int) == string_texts(items@));
}

/// Appends what a loop block becomes. The spans are those of the block, of
/// its loop variable, of its list and of its body.
pub fn push_block(
    out: &mut Vec<char>,
    text: &Vec<char>,
    spans: &Vec<(usize, usize)>,
    lists: &TextMap<Vec<String>>,
)
    requires
        spans.len() == 4,
        forall|j: int| 0 <= j < 4 ==> (#[trigger] spans[j]).0 <= spans[j].1 <= text.len(),
    ensures
        final(out)@ == old(out)@ + block_text(text@, spans_view(spans@), list_texts(lists)),
{
    let variable_span = spans[1];
    let list_span = spans[2];
    let body_span = spans[3];
    assert(spans_view(spans@)[1] == (variable_span.0 as int, variable_span.1 as int));
    assert(spans_view(spans@)[2] == (list_span.0 as int, list_span.1 as int));
    assert(spans_view(spans@)[3] == (body_span.0 as int, body_span.1 as int));
    let mut list: Vec<char> = Vec::new();
    push_range(&mut list, text, list_span.0, list_span.1);
    let list = string_of(&list);
    match lists.get(list.as_str()) {
        Some(items) => {
            let mut variable: Vec<char> = Vec::new();
            push_range(&mut variable, text, variable_span.0, variable_span.1);
            let variable = string_of(&variable);
            let mut body: Vec<char> = Vec::new();
            push_range(&mut body, text, body_span.0, body_span.1);
            let pieces = cut_body(&body, variable.as_str());
            push_repeated(out, &pieces, items);
        },
        None => {
            assert(out@ == old(out)@ + Seq::<char>::empty());
        },
    }
}

/// Expands the loop blocks among `matches` in `text`.
pub fn expand(
    text: &Vec<char>,
    matches: &Vec<Vec<Option<(usize, usize)>>>,
    lists: &TextMap<Vec<String>>,
) -> (out: Vec<char>)
    ensures
        out@ == expanded_from(text@, spans_of(matches@), list_texts(lists), 0, 0),
{
    let mut out: Vec<char> = Vec::new();
    let mut pos: usize = 0;
    let mut pos_offset: usize = 0;
    let mut k: usize = 0;
    assert(text@.take(0) == Seq::<char>::empty());
    while k < matches.len()
        invariant
            k <= matches.len(),
            pos <= text.len(),
            pos_offset == utf8_len(text@.take(pos as int)),
            expanded_from(text@, spans_of(matches@), list_texts(lists), 0, 0) == out@
                + expanded_from(
                text@,
                spans_of(matches@),
                list_texts(lists),
                k as int,
                pos as int,
            ),
        decreases matches.len() - k,
    {
        assert(spans_of(matches@)[k as int] == matches@[k as int]@);
        match locate_groups(text, &matches[k], 4, pos, pos_offset) {
            Some(found) => {
                let ghost before = out@;
                let ghost spans = spans_view(found.spans@);
                let whole = found.spans[0];
                assert(spans[0] == (whole.0 as int, whole.1 as int));
                push_range(&mut out, text, pos, whole.0);
                push_block(&mut out, text, &found.spans, lists);
                proof {
                    lemma_splice(
                        before,
                        text@.subrange(pos as int, whole.0 as int),
                        block_text(text@, spans, list_texts(lists)),
                        expanded_from(
                            text@,
                            spans_of(matches@),
                            list_texts(lists),
                            k + 1,
                            whole.1 as int,
                        ),
                    );
                }
                pos = whole.1;
                pos_offset = found.end_offset;
                k += 1;
            },
            None => {
                push_range(&mut out, text, pos, text.len());
                return out;
            },
        }
    }
    push_range(&mut out, text, pos, text.len());
    out
}

/// A template: text with variable tokens and loop blocks.
pub struct Template {
    content: String,
}

impl View for Template {
    type V = Seq<char>;

    /// The text of the template.
    closed spec fn view(&self) -> Seq<char> {
        self.content@
    }
}

impl Template {
    /// The template with the text `content`.
    pub fn from_string(content: &str) -> (template: Self)
        ensures
            template@ == content@,
    {
        Template { content: content.to_owned() }
    }

    /// The template with its variable tokens replaced by the values in
    /// `context`. A token whose name has no value stays as it is. Loop blocks
    /// are not looked at.
    pub fn render(&self, context: &TextMap<String>) -> (out: String)
        ensures
            out@ == substituted(self@, context.texts()),
    {
        let text = chars_of(self.content.as_str());
        string_of(&substitute_all(&text, context))
    }

    /// The template with its loop blocks expanded from the lists of
    /// `context`, and then the variable tokens of the result replaced by its
    /// variables.
    ///
    /// Loops have one level: a block ends at the first closing tag after its
    /// opening tag, and blocks do not nest. Of a block written inside the
    /// body of another, the opening tag becomes part of the outer body and
    /// is repeated with it; its closing tag ends the outer block.
    pub fn render_with_loops(&self, context: &TemplateContext) -> (out: String)
        ensures
            out@ == rendered(self@, context.variables.texts(), list_texts(&context.lists)),
    {
        let text = chars_of(self.content.as_str());
        let text = Self::process_loops(&text, context);
        string_of(&substitute_all(&text, &context.variables))
    }

    /// Expands the loop blocks of `content` from the lists of `context`, from
    /// left to right in one pass.
    ///
    /// A block ends at the first closing tag after its opening tag, so blocks
    /// do not nest, and what a block puts out is not searched for blocks
    /// again.
    pub fn process_loops(content: &Vec<char>, context: &TemplateContext) -> (out: Vec<char>)
        ensures
            out@ == expanded(content@, list_texts(&context.lists)),
    {
        let haystack = string_of(content);
        match find_all(LOOP_PATTERN, haystack.as_str()) {
            Some(matches) => expand(content, &matches, &context.lists),
            None => {
                let mut out: Vec<char> = Vec::new();
                push_all(&mut out, content);
                out
            },
        }
    }

    /// One copy of the loop body `template` for the item `value`: each token
    /// of the loop variable `var_name` is replaced by `value` as it is.
    pub fn replace_loop_variable(template: &str, var_name: &str, value: &str) -> (out: String)
        ensures
            out@ == joined(body_pieces(template@, var_name@), value@),
    {
        let body = chars_of(template);
        let pieces = cut_body(&body, var_name);
        let mut out: Vec<char> = Vec::new();
        push_joined(&mut out, &pieces, &chars_of(value));
        string_of(&out)
    }
}

/// Replaces the variable tokens of `text`.
pub fn substitute_all(text: &Vec<char>, variables: &TextMap<String>) -> (out: Vec<char>)
    ensures
        out@ == substituted(text@, variables.texts()),
{
    let haystack = string_of(text);
    match find_all(VARIABLE_PATTERN, haystack.as_str()) {
        Some(matches) => substitute(text, &matches, variables),
        None => {
            let mut out: Vec<char> = Vec::new();
            push_all(&mut out, text);
            out
        },
    }
}

/// What a render call is given: variables for the tokens and lists for the
/// loop blocks.
pub struct TemplateContext {
    pub variables: TextMap<String>,
    pub lists: TextMap<Vec<String>>,
}

impl TemplateContext {
    /// A context without variables and lists.
    pub fn new() -> (context: Self)
        ensures
            context.variables.texts() == Map::<Seq<char>, Seq<char>>::empty(),
            list_texts(&context.lists) == Map::<Seq<char>, Seq<Seq<char>>>::empty(),
    {
        let context = TemplateContext { variables: TextMap::new(), lists: TextMap::new() };
        assert(context.variables.texts() =~= Map::<Seq<char>, Seq<char>>::empty());
        assert(list_texts(&context.lists) =~= Map::<Seq<char>, Seq<Seq<char>>>::empty());
        context
    }

    /// Gives the variable `key` the value `value`.
    pub fn set(&mut self, key: &str, value: &str)
        ensures
            final(self).variables.texts() == old(self).variables.texts().insert(key@, value@),
            final(self).lists == old(self).lists,
    {
        self.variables.set(key, value);
    }

    /// Gives the list `key` the items `items`.
    pub fn set_list(&mut self, key: &str, items: Vec<String>)
        ensures
            list_texts(&final(self).lists) == list_texts(&old(self).lists).insert(
                key@,
                string_texts(items@),
            ),
            final(self).variables == old(self).variables,
    {
        self.lists.insert(key, items);
        assert(list_texts(&self.lists) =~= list_texts(&old(self).lists).insert(
            key@,
            string_texts(items@),
        ));
    }
}

impl Default for TemplateContext {
    /// A context without variables and lists.
    fn default() -> (context: Self)
        ensures
            context.variables.texts() == Map::<Seq<char>, Seq<char>>::empty(),
            list_texts(&context.lists) == Map::<Seq<char>, Seq<Seq<char>>>::empty(),
    {
        Self::new()
    }
}

/// Why a template could not be rendered.
#[derive(Debug, Clone, Copy)]
pub enum TemplateError {
    /// The template is not cached and no content was supplied for it.
    NotFound,
}

/// Templates by name: the directory in which their files lie, and the
/// content of those that were used, kept until the cache is cleared.
pub struct TemplateEngine {
    template_dir: String,
    cache: TextMap<String>,
}

/// The file of the template `name` in the directory `dir`.
pub open spec fn template_file(dir: Seq<char>, name: Seq<char>) -> Seq<char> {
    dir + seq!['/'] + name + ".html"@
}

/// The content of the template `name`: what the cache holds for it, else
/// the content that was supplied.
pub open spec fn loaded(
    cache: Map<Seq<char>, Seq<char>>,
    name: Seq<char>,
    fresh: Option<Seq<char>>,
) -> Option<Seq<char>> {
    if cache.contains_key(name) {
        Some(cache[name])
    } else {
        fresh
    }
}

/// The cache after the template `name` was asked for: content that was
/// supplied for a template not yet cached is kept.
pub open spec fn cache_after(
    cache: Map<Seq<char>, Seq<char>>,
    name: Seq<char>,
    fresh: Option<Seq<char>>,
) -> Map<Seq<char>, Seq<char>> {
    match fresh {
        Some(content) => if cache.contains_key(name) {
            cache
        } else {
            cache.insert(name, content)
        },
        None => cache,
    }
}

/// The text of an optional string.
pub open spec fn text_of(s: Option<String>) -> Option<Seq<char>> {
    match s {
        Some(s) => Some(s@),
        None => None,
    }
}

impl TemplateEngine {
    /// The cached templates, by name.
    pub closed spec fn cached(&self) -> Map<Seq<char>, Seq<char>> {
        self.cache.texts()
    }

    /// The directory of the template files.
    pub closed spec fn directory(&self) -> Seq<char> {
        self.template_dir@
    }

    /// An engine for the templates in `template_dir`, with an empty cache.
    pub fn new(template_dir: &str) -> (engine: Self)
        ensures
            engine.directory() == template_dir@,
            engine.cached() == Map::<Seq<char>, Seq<char>>::empty(),
    {
        let engine = TemplateEngine {
            template_dir: template_dir.to_owned(),
            cache: TextMap::new(),
        };
        assert(engine.cached() =~= Map::<Seq<char>, Seq<char>>::empty());
        engine
    }

    /// The file from which the template `name` is read.
    pub fn template_path(&self, name: &str) -> (path: String)
        ensures
            path@ == template_file(self.directory(), name@),
    {
        let mut out: Vec<char> = Vec::new();
        push_text(&mut out, self.template_dir.as_str());
        out.push('/');
        push_text(&mut out, name);
        push_text(&mut out, ".html");
        string_of(&out)
    }

    /// Whether the template `name` is in the cache, so that its file need
    /// not be read.
    pub fn is_cached(&self, name: &str) -> (cached: bool)
        ensures
            cached == self.cached().contains_key(name@),
    {
        self.cache.contains_key(name)
    }

    /// The content of the template `name`: from the cache where it is
    /// there; else `fresh`, the content just read from its file, which is
    /// then cached. Without either there is no template.
    pub fn load_template_content(&mut self, name: &str, fresh: Option<String>) -> (content: Result<
        String,
        TemplateError,
    >)
        ensures
            final(self).directory() == old(self).directory(),
            final(self).cached() == cache_after(old(self).cached(), name@, text_of(fresh)),
            match loaded(old(self).cached(), name@, text_of(fresh)) {
                Some(text) => content matches Ok(c) && c@ == text,
                None => content is Err,
            },
    {
        match self.cache.get(name) {
            Some(content) => Ok(content.clone()),
            None => match fresh {
                Some(content) => {
                    self.cache.set(name, content.as_str());
                    Ok(content)
                },
                None => Err(TemplateError::NotFound),
            },
        }
    }

    /// Renders the template `template_name` with loops and variables. `fresh`
    /// is the content just read from the template's file; it is looked at
    /// only where the template is not cached.
    pub fn render(
        &mut self,
        template_name: &str,
        fresh: Option<String>,
        context: &TemplateContext,
    ) -> (out: Result<String, TemplateError>)
        ensures
            final(self).directory() == old(self).directory(),
            final(self).cached() == cache_after(old(self).cached(), template_name@, text_of(fresh)),
            match loaded(old(self).cached(), template_name@, text_of(fresh)) {
                Some(content) => out matches Ok(text) && text@ == rendered(
                    content,
                    context.variables.texts(),
                    list_texts(&context.lists),
                ),
                None => out is Err,
            },
    {
        match self.load_template_content(template_name, fresh) {
            Ok(content) => {
                let template = Template { content };
                Ok(template.render_with_loops(context))
            },
            Err(e) => Err(e),
        }
    }

    /// Renders the template `template_name` with variables only. `fresh` is
    /// the content just read from the template's file; it is looked at only
    /// where the template is not cached.
    pub fn render_simple(
        &mut self,
        template_name: &str,
        fresh: Option<String>,
        context: &TextMap<String>,
    ) -> (out: Result<String, TemplateError>)
        ensures
            final(self).directory() == old(self).directory(),
            final(self).cached() == cache_after(old(self).cached(), template_name@, text_of(fresh)),
            match loaded(old(self).cached(), template_name@, text_of(fresh)) {
                Some(content) => out matches Ok(text) && text@ == substituted(
                    content,
                    context.texts(),
                ),
                None => out is Err,
            },
    {
        match self.load_template_content(template_name, fresh) {
            Ok(content) => {
                let template = Template { content };
                Ok(template.render(context))
            },
            Err(e) => Err(e),
        }
    }

    /// Forgets every cached template.
    pub fn clear_cache(&mut self)
        ensures
            final(self).directory() == old(self).directory(),
            final(self).cached() == Map::<Seq<char>, Seq<char>>::empty(),
    {
        self.cache.clear();
        assert(self.cached() =~= Map::<Seq<char>, Seq<char>>::empty());
    }
}

} // verus!
