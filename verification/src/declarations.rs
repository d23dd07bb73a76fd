//! The declaration parser: finds the variable declarations embedded in a
//! document and returns the document without the lines that hold them.
//!
//! A declaration is a line whose trimmed form is `<!-- @var name: value -->`.
//! A line whose trimmed form is `<!-- @include: ... -->` is reserved: it is
//! taken out of the document and has no other effect.

use crate::text::{
    chars_of, find_char, first_index_of, lemma_first_index_of_bounds, matches_at, push_range,
    string_of_range, trim_bounds, trimmed,
};
use crate::types::{views_of, Variable};
use vstd::prelude::*;

verus! {

/// The marker that opens a declaration.
pub open spec fn var_open() -> Seq<char> {
    "<!-- @var "@
}

/// The marker that opens a reserved include line.
pub open spec fn include_open() -> Seq<char> {
    "<!-- @include:"@
}

/// The marker that closes a declaration or an include line.
pub open spec fn comment_close() -> Seq<char> {
    " -->"@
}

/// `line` without one trailing carriage return.
pub open spec fn strip_cr(line: Seq<char>) -> Seq<char> {
    if line.len() > 0 && line.last() == '\r' {
        line.drop_last()
    } else {
        line
    }
}

/// The lines of `s`. A line ends at a line feed, or at a carriage return
/// directly followed by a line feed; neither belongs to the line. The last
/// line need not be ended, and a carriage return at its end then stays.
pub open spec fn lines_of(s: Seq<char>) -> Seq<Seq<char>>
    decreases s.len(),
{
    if s.len() == 0 {
        Seq::empty()
    } else {
        let n = first_index_of(s, '\n');
        if 0 <= n < s.len() {
            seq![strip_cr(s.take(n))] + lines_of(s.skip(n + 1))
        } else {
            seq![s]
        }
    }
}

/// `lines` with a line feed between each two neighbours.
pub open spec fn joined(lines: Seq<Seq<char>>) -> Seq<char>
    decreases lines.len(),
{
    if lines.len() == 0 {
        Seq::empty()
    } else if lines.len() == 1 {
        lines[0]
    } else {
        joined(lines.drop_last()) + seq!['\n'] + lines.last()
    }
}

/// Whether the trimmed line begins with `open` and ends with the closing
/// marker.
pub open spec fn is_bracketed(line: Seq<char>, open: Seq<char>) -> bool {
    open.is_prefix_of(trimmed(line)) && comment_close().is_suffix_of(trimmed(line))
}

/// Whether `line` has the form of a declaration.
pub open spec fn is_declaration_line(line: Seq<char>) -> bool {
    is_bracketed(line, var_open())
}

/// Whether `line` has the form of a reserved include line.
pub open spec fn is_include_line(line: Seq<char>) -> bool {
    is_bracketed(line, include_open())
}

/// Whether `line` stays in the document.
pub open spec fn is_text_line(line: Seq<char>) -> bool {
    !is_declaration_line(line) && !is_include_line(line)
}

/// What stands between the markers of a declaration line. Where the two
/// markers share the blank between them, nothing does.
pub open spec fn declaration_body(line: Seq<char>) -> Seq<char> {
    let t = trimmed(line);
    if var_open().len() + comment_close().len() <= t.len() {
        t.subrange(var_open().len() as int, t.len() - comment_close().len())
    } else {
        Seq::empty()
    }
}

/// The name and value that `line` declares: the trimmed parts of the body
/// before and after its first colon. A declaration line without a colon
/// declares nothing.
pub open spec fn declaration_of(line: Seq<char>) -> Option<(Seq<char>, Seq<char>)> {
    let body = declaration_body(line);
    let colon = first_index_of(body, ':');
    if is_declaration_line(line) && colon < body.len() {
        Some((trimmed(body.take(colon)), trimmed(body.skip(colon + 1))))
    } else {
        None
    }
}

/// The declarations that `lines` hold, in order.
pub open spec fn declarations_in(lines: Seq<Seq<char>>) -> Seq<(Seq<char>, Seq<char>)> {
    lines.filter_map(|line: Seq<char>| declaration_of(line))
}

/// The lines of `lines` that stay in the document, in order.
pub open spec fn text_lines(lines: Seq<Seq<char>>) -> Seq<Seq<char>> {
    lines.filter(|line: Seq<char>| is_text_line(line))
}

/// The declarations of a document, in document order. A name declared twice
/// occurs twice.
pub open spec fn parsed_declarations(content: Seq<char>) -> Seq<(Seq<char>, Seq<char>)> {
    declarations_in(lines_of(content))
}

/// The document without its declaration and include lines, the remaining
/// lines joined by line feeds.
pub open spec fn parsed_remainder(content: Seq<char>) -> Seq<char> {
    joined(text_lines(lines_of(content)))
}

/// One more line adds its declaration, if it has one.
pub proof fn lemma_declarations_in_push(lines: Seq<Seq<char>>, line: Seq<char>)
    ensures
        declarations_in(lines.push(line)) == match declaration_of(line) {
            Some(d) => declarations_in(lines).push(d),
            None => declarations_in(lines),
        },
{
    assert(lines.push(line).drop_last() =~= lines);
    match declaration_of(line) {
        Some(d) => {
            assert(declarations_in(lines) + seq![d] =~= declarations_in(lines).push(d));
        },
        None => {},
    }
}

/// One more line is kept if it is a text line.
pub proof fn lemma_text_lines_push(lines: Seq<Seq<char>>, line: Seq<char>)
    ensures
        text_lines(lines.push(line)) == if is_text_line(line) {
            text_lines(lines).push(line)
        } else {
            text_lines(lines)
        },
{
    lines.lemma_filter_push(line, |line: Seq<char>| is_text_line(line));
}

/// Joining one more line adds a line feed and the line, or the line alone
/// if it is the first.
pub proof fn lemma_joined_push(lines: Seq<Seq<char>>, line: Seq<char>)
    ensures
        joined(lines.push(line)) == if lines.len() == 0 {
            line
        } else {
            joined(lines) + seq!['\n'] + line
        },
{
    assert(lines.push(line).drop_last() =~= lines);
}

/// The first line of a text that is not empty, and where the rest begins.
proof fn lemma_lines_of_step(s: Seq<char>, pos: int, brk: int)
    requires
        0 <= pos < s.len(),
        pos <= brk <= s.len(),
        brk - pos == first_index_of(s.subrange(pos, s.len() as int), '\n'),
    ensures
        brk < s.len() ==> lines_of(s.skip(pos)) == seq![strip_cr(s.subrange(pos, brk))] + lines_of(
            s.skip(brk + 1),
        ),
        brk == s.len() ==> lines_of(s.skip(pos)) == seq![s.subrange(pos, brk)],
{
    let rest = s.skip(pos);
    assert(rest =~= s.subrange(pos, s.len() as int));
    if brk < s.len() {
        assert(rest.take(brk - pos) =~= s.subrange(pos, brk));
        assert(rest.skip(brk - pos + 1) =~= s.skip(brk + 1));
    }
}

/// Joining a first line and further lines puts a line feed after the first.
pub proof fn lemma_joined_prepend(line: Seq<char>, lines: Seq<Seq<char>>)
    ensures
        joined(seq![line] + lines) == if lines.len() == 0 {
            line
        } else {
            line + seq!['\n'] + joined(lines)
        },
    decreases lines.len(),
{
    let all = seq![line] + lines;
    if lines.len() == 0 {
        assert(all =~= seq![line]);
    } else {
        let init = lines.drop_last();
        lemma_joined_prepend(line, init);
        assert(all.drop_last() =~= seq![line] + init);
        assert(all.last() == lines.last());
        if init.len() == 0 {
            assert(lines =~= seq![lines.last()]);
        } else {
            assert(line + seq!['\n'] + joined(init) + seq!['\n'] + lines.last() =~= line
                + seq!['\n'] + (joined(init) + seq!['\n'] + lines.last()));
        }
    }
}

/// A text that does not end in a line feed and in which no line feed
/// follows a carriage return is its lines joined by line feeds.
pub proof fn lemma_joined_lines(s: Seq<char>)
    requires
        s.len() > 0 ==> s.last() != '\n',
        forall|i: int| #![trigger s[i]] 0 < i < s.len() && s[i] == '\n' ==> s[i - 1] != '\r',
    ensures
        joined(lines_of(s)) == s,
        s.len() > 0 ==> lines_of(s).len() > 0,
    decreases s.len(),
{
    if s.len() > 0 {
        lemma_first_index_of_bounds(s, '\n');
        let n = first_index_of(s, '\n');
        if n < s.len() {
            let first = s.take(n);
            let rest = s.skip(n + 1);
            assert(strip_cr(first) == first) by {
                if n > 0 {
                    assert(first.last() == s[n - 1]);
                }
            }
            assert(rest.len() > 0);
            assert(rest.last() == s.last());
            assert forall|i: int|
                #![trigger rest[i]]
                0 < i < rest.len() && rest[i] == '\n' implies rest[i - 1] != '\r' by {
                assert(rest[i] == s[i + n + 1] && rest[i - 1] == s[i + n]);
            }
            lemma_joined_lines(rest);
            lemma_joined_prepend(first, lines_of(rest));
            assert(first + seq!['\n'] + rest =~= s);
        }
    }
}

/// Where every line is a text line, all lines are kept and none declares
/// anything.
pub proof fn lemma_only_text_lines(lines: Seq<Seq<char>>)
    requires
        forall|i: int| 0 <= i < lines.len() ==> is_text_line(#[trigger] lines[i]),
    ensures
        text_lines(lines) == lines,
        declarations_in(lines) == Seq::<(Seq<char>, Seq<char>)>::empty(),
    decreases lines.len(),
{
    if lines.len() == 0 {
        reveal(Seq::filter);
    } else {
        let init = lines.drop_last();
        assert forall|i: int| 0 <= i < init.len() implies is_text_line(#[trigger] init[i]) by {
            assert(init[i] == lines[i]);
        }
        lemma_only_text_lines(init);
        assert(init.push(lines.last()) =~= lines);
        assert(is_text_line(lines[lines.len() - 1]));
        lemma_text_lines_push(init, lines.last());
        lemma_declarations_in_push(init, lines.last());
    }
}

/// A document without declaration and include lines has no declarations,
/// and its remainder is its lines joined by line feeds.
pub proof fn lemma_parse_text_only(content: Seq<char>)
    requires
        forall|i: int|
            0 <= i < lines_of(content).len() ==> is_text_line(#[trigger] lines_of(content)[i]),
    ensures
        parsed_declarations(content) == Seq::<(Seq<char>, Seq<char>)>::empty(),
        parsed_remainder(content) == joined(lines_of(content)),
{
    lemma_only_text_lines(lines_of(content));
}

/// Parsing a document without declaration and include lines gives no
/// declarations and the document itself, provided the document does not
/// end in a line feed and no line feed in it follows a carriage return (the
/// remainder is joined by line feeds alone, and has none at its end).
pub proof fn lemma_parse_without_declarations(content: Seq<char>)
    requires
        forall|i: int|
            0 <= i < lines_of(content).len() ==> is_text_line(#[trigger] lines_of(content)[i]),
        content.len() > 0 ==> content.last() != '\n',
        forall|i: int|
            #![trigger content[i]]
            0 < i < content.len() && content[i] == '\n' ==> content[i - 1] != '\r',
    ensures
        parsed_declarations(content) == Seq::<(Seq<char>, Seq<char>)>::empty(),
        parsed_remainder(content) == content,
{
    lemma_parse_text_only(content);
    lemma_joined_lines(content);
}

/// The markers of the two comment forms, decoded once for a whole document.
struct Markers {
    var_open: Vec<char>,
    include_open: Vec<char>,
    close: Vec<char>,
}

impl Markers {
    spec fn well_formed(&self) -> bool {
        &&& self.var_open@ == var_open()
        &&& self.include_open@ == include_open()
        &&& self.close@ == comment_close()
    }

    fn new() -> (res: Self)
        ensures
            res.well_formed(),
    {
        Markers {
            var_open: chars_of("<!-- @var "),
            include_open: chars_of("<!-- @include:"),
            close: chars_of(" -->"),
        }
    }
}

/// Where the line that begins at `pos` ends, and where the next one begins.
fn line_at(chars: &Vec<char>, pos: usize) -> (res: (usize, usize))
    requires
        pos < chars.len(),
    ensures
        pos <= res.0 <= res.1 <= chars.len(),
        pos < res.1,
        lines_of(chars@.skip(pos as int)) == seq![chars@.subrange(pos as int, res.0 as int)]
            + lines_of(chars@.skip(res.1 as int)),
{
    let n = chars.len();
    let brk = find_char(chars, pos, n, '\n');
    let end = if brk < n && brk > pos && chars[brk - 1] == '\r' {
        brk - 1
    } else {
        brk
    };
    let next = if brk < n {
        brk + 1
    } else {
        n
    };
    proof {
        lemma_lines_of_step(chars@, pos as int, brk as int);
        let raw = chars@.subrange(pos as int, brk as int);
        let line = chars@.subrange(pos as int, end as int);
        if brk < n {
            assert(strip_cr(raw) =~= line);
        } else {
            assert(chars@.skip(next as int).len() == 0);
            assert(seq![line] + lines_of(chars@.skip(next as int)) =~= seq![line]);
        }
    }
    (end, next)
}

/// Whether `chars[a..b]`, a trimmed line, is a declaration line, and
/// whether it is an include line.
fn brackets_of(chars: &Vec<char>, a: usize, b: usize, markers: &Markers) -> (res: (bool, bool))
    requires
        a <= b <= chars.len(),
        markers.well_formed(),
    ensures
        res.0 == (var_open().is_prefix_of(chars@.subrange(a as int, b as int))
            && comment_close().is_suffix_of(chars@.subrange(a as int, b as int))),
        res.1 == (include_open().is_prefix_of(chars@.subrange(a as int, b as int))
            && comment_close().is_suffix_of(chars@.subrange(a as int, b as int))),
{
    let ghost t = chars@.subrange(a as int, b as int);
    let close_len = markers.close.len();
    let var_len = markers.var_open.len();
    let include_len = markers.include_open.len();
    let closed = b - a >= close_len && matches_at(chars, b - close_len, &markers.close);
    let is_declaration = closed && b - a >= var_len && matches_at(chars, a, &markers.var_open);
    let is_include = closed && b - a >= include_len && matches_at(
        chars,
        a,
        &markers.include_open,
    );
    proof {
        if b - a >= close_len {
            assert(t.subrange(t.len() - close_len, t.len() as int) =~= chars@.subrange(
                b - close_len,
                b - close_len + close_len,
            ));
        }
        if b - a >= var_len {
            assert(t.subrange(0, var_len as int) =~= chars@.subrange(a as int, a + var_len));
        }
        if b - a >= include_len {
            assert(t.subrange(0, include_len as int) =~= chars@.subrange(
                a as int,
                a + include_len,
            ));
        }
    }
    (is_declaration, is_include)
}

/// The variable that the declaration line `chars[pos..end]` declares, whose
/// trimmed form is `chars[a..b]`.
fn declaration_at(
    chars: &Vec<char>,
    pos: usize,
    end: usize,
    a: usize,
    b: usize,
    markers: &Markers,
) -> (res: Option<Variable>)
    requires
        pos <= a <= b <= end <= chars.len(),
        markers.well_formed(),
        chars@.subrange(a as int, b as int) == trimmed(chars@.subrange(pos as int, end as int)),
        is_declaration_line(chars@.subrange(pos as int, end as int)),
    ensures
        match res {
            Some(v) => declaration_of(chars@.subrange(pos as int, end as int)) == Some(v@),
            None => declaration_of(chars@.subrange(pos as int, end as int)) is None,
        },
{
    let ghost line = chars@.subrange(pos as int, end as int);
    let var_len = markers.var_open.len();
    let close_len = markers.close.len();
    let (from, to) = if b - a - var_len >= close_len {
        (a + var_len, b - close_len)
    } else {
        (b, b)
    };
    let ghost body = chars@.subrange(from as int, to as int);
    proof {
        assert(body =~= declaration_body(line));
    }
    let colon = find_char(chars, from, to, ':');
    if colon < to {
        let (name_from, name_to) = trim_bounds(chars, from, colon);
        let (value_from, value_to) = trim_bounds(chars, colon + 1, to);
        let name = string_of_range(chars, name_from, name_to);
        let value = string_of_range(chars, value_from, value_to);
        proof {
            assert(body.take(colon - from) =~= chars@.subrange(from as int, colon as int));
            assert(body.skip(colon - from + 1) =~= chars@.subrange(colon + 1, to as int));
        }
        Some(Variable { name, value })
    } else {
        None
    }
}

/// Splits `content` into its declarations and the rest of the document.
///
/// Each line is compared in trimmed form with the two comment forms. A
/// declaration line gives one variable, unless it has no colon between its
/// markers; include lines give nothing. Both are left out of the returned
/// document, whose other lines are kept as they are and joined by line
/// feeds.
pub fn parse_declarations(content: &str) -> (res: (Vec<Variable>, String))
    ensures
        views_of(res.0@) == parsed_declarations(content@),
        res.1@ == parsed_remainder(content@),
{
    let chars = chars_of(content);
    let markers = Markers::new();
    let n = chars.len();
    let mut variables: Vec<Variable> = Vec::new();
    let mut remainder = String::new();
    let mut any_kept = false;
    let mut pos: usize = 0;
    let ghost mut done: Seq<Seq<char>> = Seq::empty();
    proof {
        assert(chars@.skip(0) =~= chars@);
        assert(views_of(variables@) =~= declarations_in(done));
        reveal(Seq::filter);
    }
    while pos < n
        invariant
            pos <= n,
            n == chars.len(),
            chars@ == content@,
            markers.well_formed(),
            lines_of(chars@) == done + lines_of(chars@.skip(pos as int)),
            views_of(variables@) == declarations_in(done),
            remainder@ == joined(text_lines(done)),
            any_kept == (text_lines(done).len() > 0),
        decreases n - pos,
    {
        let (end, next) = line_at(&chars, pos);
        let ghost line = chars@.subrange(pos as int, end as int);
        proof {
            assert(done + (seq![line] + lines_of(chars@.skip(next as int))) =~= done.push(line)
                + lines_of(chars@.skip(next as int)));
            lemma_declarations_in_push(done, line);
            lemma_text_lines_push(done, line);
            lemma_joined_push(text_lines(done), line);
        }
        let (a, b) = trim_bounds(&chars, pos, end);
        let (is_declaration, is_include) = brackets_of(&chars, a, b, &markers);
        if is_declaration {
            match declaration_at(&chars, pos, end, a, b, &markers) {
                Some(variable) => {
                    let ghost before = views_of(variables@);
                    variables.push(variable);
                    proof {
                        assert(views_of(variables@) =~= before.push(variable@));
                    }
                },
                None => {},
            }
        } else if is_include {
        } else {
            if any_kept {
                remainder.push('\n');
            }
            push_range(&mut remainder, &chars, pos, end);
            any_kept = true;
        }
        proof {
            done = done.push(line);
        }
        pos = next;
    }
    proof {
        assert(done + lines_of(chars@.skip(pos as int)) =~= done);
    }
    (variables, remainder)
}

} // verus!
