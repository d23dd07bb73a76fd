//! The substitution engine: replaces `{{name}}` placeholders by the values
//! of variables.
//!
//! A placeholder is two opening braces, one or more characters other than a
//! closing brace, and two closing braces. Its name is what stands between
//! the braces, trimmed. A name bound locally has the local value, else one
//! bound globally the global value; a placeholder whose name is bound
//! nowhere stays as it is. What is put in is not scanned again.

use crate::text::{chars_of, string_of_range, trim_bounds, trimmed};
use crate::variable_map::VariableMap;
use regex::{Captures, Regex};
use vstd::prelude::*;

verus! {

/// The form of a placeholder, as a pattern of the `regex` crate. Its one
/// capture group is what the braces enclose.
pub const PLACEHOLDER_PATTERN: &'static str = r"\{\{([^}]+)\}\}";

/// Whether `s` has the form of a placeholder.
pub open spec fn is_placeholder(s: Seq<char>) -> bool {
    &&& s.len() >= 5
    &&& s[0] == '{'
    &&& s[1] == '{'
    &&& s[s.len() - 2] == '}'
    &&& s[s.len() - 1] == '}'
    &&& forall|k: int| 2 <= k < s.len() - 2 ==> s[k] != '}'
}

/// What stands for a placeholder `raw` whose braces enclose `inner`: the
/// local value of the trimmed `inner`, else the global one, else `raw`.
pub open spec fn resolved(
    raw: Seq<char>,
    inner: Seq<char>,
    locals: Map<Seq<char>, Seq<char>>,
    globals: Map<Seq<char>, Seq<char>>,
) -> Seq<char> {
    let name = trimmed(inner);
    if locals.contains_key(name) {
        locals[name]
    } else if globals.contains_key(name) {
        globals[name]
    } else {
        raw
    }
}

/// The spans of the placeholders in `text` that are replaced, from left to
/// right: for each the index of its first character and the index after
/// its last. They are the successive non-overlapping matches that the
/// `regex` crate finds for `PLACEHOLDER_PATTERN`, counted in characters.
pub uninterp spec fn placeholder_spans(text: Seq<char>) -> Seq<(int, int)>;

/// Each span lies in `text` and holds a placeholder, and the spans follow
/// each other without overlap.
pub open spec fn spans_in_order(text: Seq<char>, spans: Seq<(int, int)>) -> bool {
    &&& forall|i: int|
        0 <= i < spans.len() ==> 0 <= (#[trigger] spans[i]).0 <= spans[i].1 <= text.len()
            && is_placeholder(text.subrange(spans[i].0, spans[i].1))
    &&& forall|i: int, j: int|
        0 <= i < j < spans.len() ==> (#[trigger] spans[i]).1 <= (#[trigger] spans[j]).0
}

/// The spans are the leftmost ones: no placeholder of `text` begins outside
/// all of them.
pub open spec fn spans_are_leftmost(text: Seq<char>, spans: Seq<(int, int)>) -> bool {
    forall|a: int, b: int|
        0 <= a <= b <= text.len() && is_placeholder(#[trigger] text.subrange(a, b))
            ==> exists|i: int| 0 <= i < spans.len() && (#[trigger] spans[i]).0 <= a < spans[i].1
}

/// What holds of the spans that are replaced in `text`.
pub open spec fn are_placeholder_spans(text: Seq<char>, spans: Seq<(int, int)>) -> bool {
    spans_in_order(text, spans) && spans_are_leftmost(text, spans)
}

/// `text` from `cursor` on, with each span replaced by what its placeholder
/// resolves to.
pub open spec fn substituted_from(
    text: Seq<char>,
    spans: Seq<(int, int)>,
    cursor: int,
    locals: Map<Seq<char>, Seq<char>>,
    globals: Map<Seq<char>, Seq<char>>,
) -> Seq<char>
    decreases spans.len(),
{
    if spans.len() == 0 {
        text.skip(cursor)
    } else {
        let (start, end) = spans[0];
        text.subrange(cursor, start) + resolved(
            text.subrange(start, end),
            text.subrange(start + 2, end - 2),
            locals,
            globals,
        ) + substituted_from(text, spans.drop_first(), end, locals, globals)
    }
}

/// `text` with each span replaced by what its placeholder resolves to.
pub open spec fn substituted(
    text: Seq<char>,
    spans: Seq<(int, int)>,
    locals: Map<Seq<char>, Seq<char>>,
    globals: Map<Seq<char>, Seq<char>>,
) -> Seq<char> {
    substituted_from(text, spans, 0, locals, globals)
}

/// `spans` are the spans that are replaced in `text`, and `out` is `text`
/// with the placeholders at `spans` resolved.
pub open spec fn is_substitution(
    out: Seq<char>,
    text: Seq<char>,
    spans: Seq<(int, int)>,
    locals: Map<Seq<char>, Seq<char>>,
    globals: Map<Seq<char>, Seq<char>>,
) -> bool {
    &&& are_placeholder_spans(text, spans)
    &&& out == substituted(text, spans, locals, globals)
}

/// The text that replaces one placeholder. `raw` is the whole placeholder
/// and `inner` what its braces enclose.
pub fn resolve_placeholder(
    raw: &str,
    inner: &str,
    locals: &VariableMap,
    globals: &VariableMap,
) -> (res: String)
    ensures
        res@ == resolved(raw@, inner@, locals@, globals@),
{
    let chars = chars_of(inner);
    let (from, to) = trim_bounds(&chars, 0, chars.len());
    let name = string_of_range(&chars, from, to);
    proof {
        assert(chars@.subrange(0, chars.len() as int) =~= inner@);
    }
    match locals.get(name.as_str()) {
        Some(value) => value.clone(),
        None => match globals.get(name.as_str()) {
            Some(value) => value.clone(),
            None => raw.to_owned(),
        },
    }
}

/// Calls `regex::Regex::new` on `pattern` and `Regex::replace_all` on
/// `text`, with a replacer that hands each match and its capture group to
/// `resolve_placeholder`.
///
/// Trusted: the pattern is a valid one, and the matches are
/// `placeholder_spans(text)`. They are the successive leftmost matches of
/// the pattern: they lie in the text in order and without overlap, each is
/// a placeholder whose capture group is what stands between its braces,
/// and no placeholder begins outside all of them. The result is the text
/// with each match replaced by what the replacer returned for it and all
/// else kept.
#[verifier::external_body]
pub(crate) fn replace_placeholders(
    pattern: &str,
    text: &str,
    locals: &VariableMap,
    globals: &VariableMap,
) -> (out: String)
    requires
        pattern@ == PLACEHOLDER_PATTERN@,
    ensures
        is_substitution(out@, text@, placeholder_spans(text@), locals@, globals@),
{
    let regex = Regex::new(pattern).unwrap();
    regex.replace_all(
        text,
        |caps: &Captures| resolve_placeholder(&caps[0], &caps[1], locals, globals),
    ).into_owned()
}

/// A local binding decides what a placeholder resolves to, whatever is
/// bound globally.
pub proof fn lemma_local_value_wins(
    raw: Seq<char>,
    inner: Seq<char>,
    locals: Map<Seq<char>, Seq<char>>,
    globals: Map<Seq<char>, Seq<char>>,
)
    requires
        locals.contains_key(trimmed(inner)),
    ensures
        resolved(raw, inner, locals, globals) == locals[trimmed(inner)],
{
}

/// Whether the name of the placeholder at `span` is bound in `locals` or in
/// `globals`.
pub open spec fn is_bound_at(
    text: Seq<char>,
    span: (int, int),
    locals: Map<Seq<char>, Seq<char>>,
    globals: Map<Seq<char>, Seq<char>>,
) -> bool {
    let name = trimmed(text.subrange(span.0 + 2, span.1 - 2));
    locals.contains_key(name) || globals.contains_key(name)
}

/// Where no placeholder from `cursor` on is bound, the text from there on
/// stays as it is.
proof fn lemma_unbound_from(
    text: Seq<char>,
    spans: Seq<(int, int)>,
    cursor: int,
    locals: Map<Seq<char>, Seq<char>>,
    globals: Map<Seq<char>, Seq<char>>,
)
    requires
        spans_in_order(text, spans),
        0 <= cursor <= text.len(),
        spans.len() > 0 ==> cursor <= spans[0].0,
        forall|i: int|
            0 <= i < spans.len() ==> !is_bound_at(text, #[trigger] spans[i], locals, globals),
    ensures
        substituted_from(text, spans, cursor, locals, globals) == text.skip(cursor),
    decreases spans.len(),
{
    if spans.len() > 0 {
        let (start, end) = spans[0];
        let rest = spans.drop_first();
        assert(spans_in_order(text, rest)) by {
            assert forall|i: int| 0 <= i < rest.len() implies {
                &&& 0 <= (#[trigger] rest[i]).0 <= rest[i].1 <= text.len()
                &&& is_placeholder(text.subrange(rest[i].0, rest[i].1))
            } by {
                assert(rest[i] == spans[i + 1]);
            }
            assert forall|i: int, j: int| 0 <= i < j < rest.len() implies {
                (#[trigger] rest[i]).1 <= (#[trigger] rest[j]).0
            } by {
                assert(rest[i] == spans[i + 1] && rest[j] == spans[j + 1]);
            }
        }
        if rest.len() > 0 {
            assert(rest[0] == spans[1]);
        }
        assert forall|i: int| 0 <= i < rest.len() implies !is_bound_at(
            text,
            #[trigger] rest[i],
            locals,
            globals,
        ) by {
            assert(rest[i] == spans[i + 1]);
        }
        assert(!is_bound_at(text, spans[0], locals, globals));
        lemma_unbound_from(text, rest, end, locals, globals);
        assert(text.subrange(cursor, start) + text.subrange(start, end) + text.skip(end)
            =~= text.skip(cursor));
    }
}

/// A text in which no placeholder is bound, locally or globally, comes back
/// unchanged.
pub proof fn lemma_unbound_placeholders_stay(
    text: Seq<char>,
    spans: Seq<(int, int)>,
    locals: Map<Seq<char>, Seq<char>>,
    globals: Map<Seq<char>, Seq<char>>,
)
    requires
        spans_in_order(text, spans),
        forall|i: int|
            0 <= i < spans.len() ==> !is_bound_at(text, #[trigger] spans[i], locals, globals),
    ensures
        substituted(text, spans, locals, globals) == text,
{
    lemma_unbound_from(text, spans, 0, locals, globals);
    assert(text.skip(0) =~= text);
}

/// A text in which no two opening braces stand side by side comes back
/// unchanged, whatever is bound.
pub proof fn lemma_text_without_braces_stays(
    text: Seq<char>,
    spans: Seq<(int, int)>,
    locals: Map<Seq<char>, Seq<char>>,
    globals: Map<Seq<char>, Seq<char>>,
)
    requires
        spans_in_order(text, spans),
        forall|i: int|
            #![trigger text[i]]
            0 <= i < text.len() - 1 ==> !(text[i] == '{' && text[i + 1] == '{'),
    ensures
        substituted(text, spans, locals, globals) == text,
{
    if spans.len() > 0 {
        let (start, end) = spans[0];
        let found = text.subrange(start, end);
        assert(is_placeholder(found));
        assert(found[0] == text[start] && found[1] == text[start + 1]);
    }
    assert(text.skip(0) =~= text);
}

/// Binding globally a name that is bound locally changes nothing in the
/// text that comes out.
pub proof fn lemma_shadowed_global_is_ignored(
    text: Seq<char>,
    spans: Seq<(int, int)>,
    cursor: int,
    locals: Map<Seq<char>, Seq<char>>,
    globals: Map<Seq<char>, Seq<char>>,
    name: Seq<char>,
    value: Seq<char>,
)
    requires
        locals.contains_key(name),
    ensures
        substituted_from(text, spans, cursor, locals, globals.insert(name, value))
            == substituted_from(text, spans, cursor, locals, globals),
    decreases spans.len(),
{
    if spans.len() > 0 {
        lemma_shadowed_global_is_ignored(
            text,
            spans.drop_first(),
            spans[0].1,
            locals,
            globals,
            name,
            value,
        );
    }
}

/// Where a placeholder begins, there is one place where it ends.
pub proof fn lemma_placeholder_end(text: Seq<char>, start: int, end: int, other_end: int)
    requires
        0 <= start <= end <= text.len(),
        start <= other_end <= text.len(),
        is_placeholder(text.subrange(start, end)),
        is_placeholder(text.subrange(start, other_end)),
    ensures
        end == other_end,
{
    let p = text.subrange(start, end);
    let q = text.subrange(start, other_end);
    if end < other_end {
        assert(q[p.len() - 2] == p[p.len() - 2]);
    } else if other_end < end {
        assert(p[q.len() - 2] == q[q.len() - 2]);
    }
}

/// A text that is one placeholder is replaced as a whole by what the
/// placeholder resolves to.
pub proof fn lemma_lone_placeholder(
    text: Seq<char>,
    spans: Seq<(int, int)>,
    locals: Map<Seq<char>, Seq<char>>,
    globals: Map<Seq<char>, Seq<char>>,
)
    requires
        are_placeholder_spans(text, spans),
        is_placeholder(text),
    ensures
        spans == seq![(0int, text.len() as int)],
        substituted(text, spans, locals, globals) == resolved(
            text,
            text.subrange(2, text.len() - 2),
            locals,
            globals,
        ),
{
    let n = text.len() as int;
    assert(text.subrange(0, n) =~= text);
    let i = choose|i: int| 0 <= i < spans.len() && (#[trigger] spans[i]).0 <= 0 < spans[i].1;
    assert(text.subrange(spans[0].0, spans[0].1).len() >= 5);
    assert(i == 0);
    lemma_placeholder_end(text, 0, spans[0].1, n);
    if spans.len() > 1 {
        assert(text.subrange(spans[1].0, spans[1].1).len() >= 5);
        assert(spans[0].1 <= spans[1].0);
    }
    assert(spans =~= seq![(0int, n)]);
    assert(spans[0] == (0int, n));
    assert(substituted_from(text, spans.drop_first(), n, locals, globals) == text.skip(n));
    assert(text.subrange(0, 0) + resolved(
        text.subrange(0, n),
        text.subrange(2, n - 2),
        locals,
        globals,
    ) + text.skip(n) =~= resolved(text, text.subrange(2, n - 2), locals, globals));
}

/// From `cursor` on the spans are in order and the leftmost ones: they
/// begin at or after `cursor`, and no placeholder begins there outside all
/// of them.
#[verifier::opaque]
spec fn are_placeholder_spans_from(text: Seq<char>, spans: Seq<(int, int)>, cursor: int) -> bool {
    &&& 0 <= cursor
    &&& spans_in_order(text, spans)
    &&& spans.len() > 0 ==> cursor <= spans[0].0
    &&& forall|a: int, b: int|
        cursor <= a <= b <= text.len() && is_placeholder(#[trigger] text.subrange(a, b))
            ==> exists|i: int| 0 <= i < spans.len() && (#[trigger] spans[i]).0 <= a < spans[i].1
}

/// Without its first span, a sequence of spans is in order and leftmost
/// from the end of that span on.
proof fn lemma_rest_of_spans(text: Seq<char>, spans: Seq<(int, int)>, cursor: int)
    requires
        are_placeholder_spans_from(text, spans, cursor),
        spans.len() > 0,
    ensures
        are_placeholder_spans_from(text, spans.drop_first(), spans[0].1),
{
    reveal(are_placeholder_spans_from);
    let rest = spans.drop_first();
    assert forall|i: int| 0 <= i < rest.len() implies {
        &&& 0 <= (#[trigger] rest[i]).0 <= rest[i].1 <= text.len()
        &&& is_placeholder(text.subrange(rest[i].0, rest[i].1))
    } by {
        assert(rest[i] == spans[i + 1]);
    }
    assert forall|i: int, j: int| 0 <= i < j < rest.len() implies {
        (#[trigger] rest[i]).1 <= (#[trigger] rest[j]).0
    } by {
        assert(rest[i] == spans[i + 1] && rest[j] == spans[j + 1]);
    }
    if rest.len() > 0 {
        assert(rest[0] == spans[1]);
    }
    assert(text.subrange(spans[0].0, spans[0].1).len() >= 5);
    assert forall|a: int, b: int|
        spans[0].1 <= a <= b <= text.len() && is_placeholder(
            #[trigger] text.subrange(a, b),
        ) implies exists|i: int| 0 <= i < rest.len() && (#[trigger] rest[i]).0 <= a < rest[i].1 by {
        let i = choose|i: int| 0 <= i < spans.len() && (#[trigger] spans[i]).0 <= a < spans[i].1;
        assert(i > 0);
        assert(rest[i - 1] == spans[i]);
    }
}

/// Where one sequence of spans has a first span, another has one that
/// begins no later.
proof fn lemma_first_span_is_leftmost(
    text: Seq<char>,
    first: Seq<(int, int)>,
    second: Seq<(int, int)>,
    cursor: int,
)
    requires
        are_placeholder_spans_from(text, first, cursor),
        are_placeholder_spans_from(text, second, cursor),
        second.len() > 0,
    ensures
        first.len() > 0,
        first[0].0 <= second[0].0,
{
    reveal(are_placeholder_spans_from);
    let (start, end) = second[0];
    assert(is_placeholder(text.subrange(start, end)));
    let i = choose|i: int| 0 <= i < first.len() && (#[trigger] first[i]).0 <= start < first[i].1;
    if i > 0 {
        assert(first[0].1 <= first[i].0);
    }
}

/// Two sequences of spans have the same first span.
proof fn lemma_first_spans_agree(
    text: Seq<char>,
    first: Seq<(int, int)>,
    second: Seq<(int, int)>,
    cursor: int,
)
    requires
        are_placeholder_spans_from(text, first, cursor),
        are_placeholder_spans_from(text, second, cursor),
        first.len() > 0,
    ensures
        second.len() > 0,
        first[0] == second[0],
{
    lemma_first_span_is_leftmost(text, second, first, cursor);
    lemma_first_span_is_leftmost(text, first, second, cursor);
    reveal(are_placeholder_spans_from);
    assert(is_placeholder(text.subrange(first[0].0, first[0].1)));
    assert(is_placeholder(text.subrange(second[0].0, second[0].1)));
    lemma_placeholder_end(text, first[0].0, first[0].1, second[0].1);
}

/// From `cursor` on, the text determines its spans.
proof fn lemma_spans_determined_from(
    text: Seq<char>,
    first: Seq<(int, int)>,
    second: Seq<(int, int)>,
    cursor: int,
)
    requires
        are_placeholder_spans_from(text, first, cursor),
        are_placeholder_spans_from(text, second, cursor),
    ensures
        first == second,
    decreases first.len(),
{
    if first.len() == 0 {
        if second.len() > 0 {
            lemma_first_span_is_leftmost(text, first, second, cursor);
        }
        assert(first =~= second);
    } else {
        lemma_first_spans_agree(text, first, second, cursor);
        lemma_rest_of_spans(text, first, cursor);
        lemma_rest_of_spans(text, second, cursor);
        lemma_spans_determined_from(text, first.drop_first(), second.drop_first(), first[0].1);
        assert(first =~= seq![first[0]] + first.drop_first());
        assert(second =~= seq![second[0]] + second.drop_first());
    }
}

/// The text determines the spans that are replaced in it: what holds of
/// them holds of one sequence of spans only.
pub proof fn lemma_spans_determined(
    text: Seq<char>,
    first: Seq<(int, int)>,
    second: Seq<(int, int)>,
)
    requires
        are_placeholder_spans(text, first),
        are_placeholder_spans(text, second),
    ensures
        first == second,
{
    assert(are_placeholder_spans_from(text, first, 0)) by {
        reveal(are_placeholder_spans_from);
    }
    assert(are_placeholder_spans_from(text, second, 0)) by {
        reveal(are_placeholder_spans_from);
    }
    lemma_spans_determined_from(text, first, second, 0);
}

} // verus!
