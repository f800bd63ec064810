//! The line classifier and tag-state machine.
//!
//! Input lines (already stripped of their terminator) are classified by their
//! first character as heading (`#`), blank, or content. Each line yields at
//! most one output line: headings become `<h1>...</h1>`, content lines become
//! one-line paragraphs `<p>...</p>`, and blank lines emit nothing. The tag
//! state records which wrapper tags are open across line boundaries; a
//! heading line closes any paragraph still open before opening itself, and
//! both tags close again on the line that opened them.

use vstd::prelude::*;
use vstd::string::StrSliceExecFns;
use vstd::string::StringExecFns;

verus! {

/// The classification of one input line, derived from its first character.
#[derive(Clone, Copy, Debug, PartialEq, Eq, Structural)]
pub enum LineKind {
    /// The line starts with the marker character `#`.
    Heading,
    /// The line is empty.
    Blank,
    /// The line is non-empty and does not start with `#`.
    Content,
}

/// Which wrapper tags are open between two lines.
#[derive(Clone, Copy, Debug, PartialEq, Eq, Structural)]
pub struct TagState {
    pub heading_open: bool,
    pub paragraph_open: bool,
}

/// A malformed input line: a heading line consisting of the marker alone,
/// too short to carry the marker and its separator.
#[derive(Clone, Copy, Debug, PartialEq, Eq, Structural)]
pub struct ConvertError {
    /// Position of the offending line in the input, counted from zero.
    pub line_number: usize,
}

/// How a line is classified: by its first character.
pub open spec fn classify(line: Seq<char>) -> LineKind {
    if line.len() == 0 {
        LineKind::Blank
    } else if line[0] == '#' {
        LineKind::Heading
    } else {
        LineKind::Content
    }
}

/// A line the converter accepts: every line except a heading too short to
/// carry the marker and its separator character.
pub open spec fn line_ok(line: Seq<char>) -> bool {
    classify(line) is Heading ==> line.len() >= 2
}

/// The tag state at the start of a document: nothing open.
pub open spec fn initial_state() -> TagState {
    TagState { heading_open: false, paragraph_open: false }
}

/// The tag state after processing one line. A heading line closes every
/// open tag; a blank line changes nothing; a content line closes the
/// paragraph it opened on the same line.
pub open spec fn step_state(state: TagState, line: Seq<char>) -> TagState {
    match classify(line) {
        LineKind::Heading => TagState { heading_open: false, paragraph_open: false },
        LineKind::Blank => state,
        LineKind::Content => TagState { heading_open: state.heading_open, paragraph_open: false },
    }
}

/// The output line that processing one line emits, if any. A heading line
/// first closes an open paragraph, then wraps everything after the marker
/// and its separator in `<h1>...</h1>`; a blank line emits nothing; a
/// content line opens a paragraph (unless one is already open), carries the
/// line, and closes the paragraph on the spot.
pub open spec fn step_output(state: TagState, line: Seq<char>) -> Option<Seq<char>>
    recommends
        line_ok(line),
{
    match classify(line) {
        LineKind::Heading => Some(
            (if state.paragraph_open {
                "</p>\n"@
            } else {
                Seq::<char>::empty()
            }) + "<h1>"@ + line.subrange(2, line.len() as int) + "</h1>\n"@,
        ),
        LineKind::Blank => None,
        LineKind::Content => Some(
            (if state.paragraph_open {
                Seq::<char>::empty()
            } else {
                "<p>"@
            }) + line + "</p>\n"@,
        ),
    }
}

/// Returns `content` unchanged and flips the flag, recording that the tag
/// it announces has just been opened or closed.
pub fn check_tag<'a>(active: &'a mut bool, content: &'a str) -> (r: &'a str)
    ensures
        *final(active) == !*old(active),
        r@ == content@,
{
    if *active {
        *active = false;
        content
    } else {
        *active = true;
        content
    }
}

/// Processes one line under the given tag state: returns the state for the
/// next line together with the output line to emit, if any.
pub fn process_line(state: TagState, line: &str) -> (r: (TagState, Option<String>))
    requires
        line_ok(line@),
    ensures
        r.0 == step_state(state, line@),
        r.1 is Some <==> step_output(state, line@) is Some,
        r.1 is Some ==> r.1.unwrap()@ == step_output(state, line@).unwrap(),
{
    match classify_line(line) {
        LineKind::Heading => {
            let mut out = String::new();
            if state.paragraph_open {
                out.append("</p>\n");
            }
            out.append("<h1>");
            let n = line.unicode_len();
            out.append(line.substring_char(2, n));
            out.append("</h1>\n");
            proof {
                assert(out@ =~= step_output(state, line@).unwrap());
            }
            (TagState { heading_open: false, paragraph_open: false }, Some(out))
        }
        LineKind::Blank => (state, None),
        LineKind::Content => {
            let mut out = String::new();
            if !state.paragraph_open {
                out.append("<p>");
            }
            out.append(line);
            out.append("</p>\n");
            proof {
                assert(out@ =~= step_output(state, line@).unwrap());
            }
            (TagState { heading_open: state.heading_open, paragraph_open: false }, Some(out))
        }
    }
}

/// Classifies one line by its first character.
pub fn classify_line(line: &str) -> (k: LineKind)
    ensures
        k == classify(line@),
{
    if line.unicode_len() == 0 {
        LineKind::Blank
    } else if line.get_char(0) == '#' {
        LineKind::Heading
    } else {
        LineKind::Content
    }
}

/// Decides whether the converter accepts the line.
pub fn line_is_ok(line: &str) -> (ok: bool)
    ensures
        ok == line_ok(line@),
{
    let n = line.unicode_len();
    if n == 0 {
        true
    } else if line.get_char(0) == '#' {
        n >= 2
    } else {
        true
    }
}

/// All lines of the input are acceptable to the converter.
pub open spec fn lines_ok(lines: Seq<Seq<char>>) -> bool {
    forall|i: int| 0 <= i < lines.len() ==> line_ok(lines[i])
}

/// The views of a sequence of owned lines.
pub open spec fn line_views(lines: Seq<String>) -> Seq<Seq<char>> {
    lines.map_values(|s: String| s@)
}

/// The tag state after processing a whole sequence of lines, starting from
/// the given state.
pub open spec fn state_after(state: TagState, lines: Seq<Seq<char>>) -> TagState
    decreases lines.len(),
{
    if lines.len() == 0 {
        state
    } else {
        state_after(step_state(state, lines[0]), lines.drop_first())
    }
}

/// The output lines that processing a sequence of lines emits, starting
/// from the given tag state: each line's output in input order, with lines
/// that emit nothing leaving no trace.
pub open spec fn convert_from(state: TagState, lines: Seq<Seq<char>>) -> Seq<Seq<char>>
    recommends
        lines_ok(lines),
    decreases lines.len(),
{
    if lines.len() == 0 {
        Seq::empty()
    } else {
        (match step_output(state, lines[0]) {
            Some(f) => seq![f],
            None => Seq::empty(),
        }) + convert_from(step_state(state, lines[0]), lines.drop_first())
    }
}

/// The conversion of a whole document, started with nothing open.
pub open spec fn convert_spec(lines: Seq<Seq<char>>) -> Seq<Seq<char>>
    recommends
        lines_ok(lines),
{
    convert_from(initial_state(), lines)
}

/// Converts a whole document, given as its lines without terminators.
/// Returns the output lines in order, or the position of the first
/// malformed line (a heading consisting of the marker alone).
pub fn convert_lines(lines: &Vec<String>) -> (r: Result<Vec<String>, ConvertError>)
    ensures
        match r {
            Ok(out) => lines_ok(line_views(lines@)) && line_views(out@) == convert_spec(
                line_views(lines@),
            ),
            Err(e) => e.line_number < lines@.len() && !line_ok(lines@[e.line_number as int]@)
                && forall|j: int| 0 <= j < e.line_number ==> line_ok(lines@[j]@),
        },
{
    let ghost views: Seq<Seq<char>> = line_views(lines@);
    let mut out: Vec<String> = Vec::new();
    let mut state = TagState { heading_open: false, paragraph_open: false };
    let n = lines.len();
    let mut i: usize = 0;
    proof {
        assert(views.skip(0) =~= views);
        assert(line_views(out@) + convert_from(state, views) =~= convert_spec(views));
    }
    while i < n
        invariant
            i <= n,
            n == lines@.len(),
            views == line_views(lines@),
            forall|j: int| 0 <= j < i ==> line_ok(views[j]),
            line_views(out@) + convert_from(state, views.skip(i as int)) == convert_spec(views),
        decreases n - i,
    {
        let line: &str = lines[i].as_str();
        if !line_is_ok(line) {
            proof {
                assert(views[i as int] == lines@[i as int]@);
                assert forall|j: int| 0 <= j < i implies line_ok(lines@[j]@) by {
                    assert(views[j] == lines@[j]@);
                    assert(line_ok(views[j]));
                }
            }
            return Err(ConvertError { line_number: i });
        }
        let ghost out_before: Seq<String> = out@;
        let ghost rest: Seq<Seq<char>> = views.skip(i as int);
        let (next_state, emitted) = process_line(state, line);
        proof {
            assert(rest[0] == views[i as int]);
            assert(rest.drop_first() =~= views.skip(i as int + 1));
        }
        match emitted {
            Some(s) => {
                out.push(s);
                proof {
                    assert(line_views(out@) =~= line_views(out_before).push(s@));
                    assert(line_views(out_before) + convert_from(state, rest) =~= line_views(
                        out@,
                    ) + convert_from(next_state, views.skip(i as int + 1)));
                }
            },
            None => {
                proof {
                    assert(line_views(out_before) + convert_from(state, rest) =~= line_views(
                        out@,
                    ) + convert_from(next_state, views.skip(i as int + 1)));
                }
            },
        }
        state = next_state;
        i = i + 1;
    }
    proof {
        assert(views.skip(n as int) =~= Seq::<Seq<char>>::empty());
        assert(line_views(out@) + convert_from(state, views.skip(n as int)) =~= line_views(out@));
    }
    Ok(out)
}

/// A source file name the converter accepts: a non-empty stem followed by
/// the `.md` extension.
pub open spec fn valid_md_name(name: Seq<char>) -> bool {
    name.len() >= 4 && name.subrange(name.len() - 3, name.len() as int) == ".md"@
}

/// The sibling output name: the `.md` extension replaced by `.html`.
pub open spec fn html_name(name: Seq<char>) -> Seq<char>
    recommends
        valid_md_name(name),
{
    name.subrange(0, name.len() - 3) + ".html"@
}

/// Derives the output file name from the input file name: strips the `.md`
/// extension and appends `.html`. Returns nothing when the name has no
/// `.md` extension or an empty stem.
pub fn html_output_name(name: &str) -> (r: Option<String>)
    ensures
        r is Some <==> valid_md_name(name@),
        r is Some ==> r.unwrap()@ == html_name(name@),
{
    proof {
        reveal_strlit(".md");
    }
    let n = name.unicode_len();
    if n < 4 {
        proof {
            assert(!valid_md_name(name@));
        }
        return None;
    }
    if name.get_char(n - 3) != '.' || name.get_char(n - 2) != 'm' || name.get_char(n - 1) != 'd' {
        proof {
            let tail = name@.subrange(name@.len() - 3, name@.len() as int);
            assert(tail[0] == name@[name@.len() - 3]);
            assert(tail[1] == name@[name@.len() - 2]);
            assert(tail[2] == name@[name@.len() - 1]);
            assert(tail != ".md"@);
        }
        return None;
    }
    proof {
        assert(name@.subrange(name@.len() - 3, name@.len() as int) =~= ".md"@);
    }
    let stem = name.substring_char(0, n - 3);
    let mut out = String::new();
    out.append(stem);
    out.append(".html");
    proof {
        assert(out@ =~= html_name(name@));
    }
    Some(out)
}

/// Processing a concatenation of two line sequences emits the first part's
/// output followed by the second part's, the second processed under the tag
/// state the first part leaves behind.
pub proof fn lemma_convert_from_append(state: TagState, xs: Seq<Seq<char>>, ys: Seq<Seq<char>>)
    ensures
        convert_from(state, xs + ys) == convert_from(state, xs) + convert_from(
            state_after(state, xs),
            ys,
        ),
    decreases xs.len(),
{
    if xs.len() == 0 {
        assert(xs + ys =~= ys);
        assert(convert_from(state, xs) + convert_from(state, ys) =~= convert_from(state, ys));
    } else {
        let next = step_state(state, xs[0]);
        assert((xs + ys)[0] == xs[0]);
        assert((xs + ys).drop_first() =~= xs.drop_first() + ys);
        lemma_convert_from_append(next, xs.drop_first(), ys);
        assert(convert_from(state, xs + ys) =~= convert_from(state, xs) + convert_from(
            state_after(state, xs),
            ys,
        ));
    }
}

/// A non-empty line that does not start with the heading marker, converted
/// as the sole content of a document, yields exactly that line wrapped in a
/// paragraph element, followed by a line break.
pub proof fn lemma_single_content_line(line: Seq<char>)
    requires
        classify(line) is Content,
    ensures
        convert_spec(seq![line]) == seq!["<p>"@ + line + "</p>\n"@],
{
    assert(seq![line].drop_first() =~= Seq::<Seq<char>>::empty());
    assert(convert_from(step_state(initial_state(), line), Seq::<Seq<char>>::empty())
        =~= Seq::<Seq<char>>::empty());
    assert(convert_spec(seq![line]) =~= seq!["<p>"@ + line + "</p>\n"@]);
}

/// A heading line with non-empty content after the marker and its
/// separator, converted as the sole content of a document, yields exactly
/// that content wrapped in a heading element, followed by a line break:
/// for a line `# T` the emitted line is `<h1>T</h1>` plus the break.
pub proof fn lemma_single_heading_line(line: Seq<char>)
    requires
        line.len() >= 3,
        line[0] == '#',
    ensures
        convert_spec(seq![line]) == seq![
            "<h1>"@ + line.subrange(2, line.len() as int) + "</h1>\n"@,
        ],
{
    assert(seq![line].drop_first() =~= Seq::<Seq<char>>::empty());
    assert(convert_from(step_state(initial_state(), line), Seq::<Seq<char>>::empty())
        =~= Seq::<Seq<char>>::empty());
    assert(convert_spec(seq![line]) =~= seq![
        "<h1>"@ + line.subrange(2, line.len() as int) + "</h1>\n"@,
    ]);
}

/// A blank line emits nothing and leaves the tag state unchanged, so
/// removing it from anywhere in a document does not change the output:
/// in particular, a blank line between two content lines produces no
/// intervening output line.
pub proof fn lemma_blank_line_dropped(before: Seq<Seq<char>>, after: Seq<Seq<char>>)
    ensures
        convert_spec(before + seq![Seq::<char>::empty()] + after) == convert_spec(before + after),
{
    let blank: Seq<char> = Seq::empty();
    let mid = state_after(initial_state(), before);
    assert(before + seq![blank] + after =~= before + (seq![blank] + after));
    lemma_convert_from_append(initial_state(), before, seq![blank] + after);
    lemma_convert_from_append(initial_state(), before, after);
    assert((seq![blank] + after)[0] == blank);
    assert((seq![blank] + after).drop_first() =~= after);
    assert(convert_from(mid, seq![blank] + after) =~= convert_from(mid, after));
    assert(convert_spec(before + seq![blank] + after) =~= convert_spec(before + after));
}

/// The exact shape of a blank line between two content lines: the two
/// paragraphs appear with no output line between them.
pub proof fn lemma_blank_between_content(a: Seq<char>, b: Seq<char>)
    requires
        classify(a) is Content,
        classify(b) is Content,
    ensures
        convert_spec(seq![a, Seq::<char>::empty(), b]) == seq![
            "<p>"@ + a + "</p>\n"@,
            "<p>"@ + b + "</p>\n"@,
        ],
{
    let blank: Seq<char> = Seq::empty();
    lemma_blank_line_dropped(seq![a], seq![b]);
    assert(seq![a] + seq![blank] + seq![b] =~= seq![a, blank, b]);
    assert(seq![a] + seq![b] =~= seq![a, b]);
    assert(seq![a, b].drop_first() =~= seq![b]);
    assert(seq![b].drop_first() =~= Seq::<Seq<char>>::empty());
    let st1 = step_state(initial_state(), a);
    let st2 = step_state(st1, b);
    assert(convert_from(st2, Seq::<Seq<char>>::empty()) =~= Seq::<Seq<char>>::empty());
    assert(convert_from(st1, seq![b]) =~= seq!["<p>"@ + b + "</p>\n"@]);
    assert(convert_spec(seq![a, b]) =~= seq!["<p>"@ + a + "</p>\n"@, "<p>"@ + b + "</p>\n"@]);
}

/// The output is a function of the input lines alone: converting equal
/// inputs gives equal outputs. Together with the contract of
/// [`convert_lines`], which pins every run's output to [`convert_spec`],
/// re-running the conversion on the same input reproduces the same output
/// lines byte for byte.
pub proof fn lemma_conversion_deterministic(lines1: Seq<Seq<char>>, lines2: Seq<Seq<char>>)
    requires
        lines1 == lines2,
    ensures
        convert_spec(lines1) == convert_spec(lines2),
{
}

/// With no paragraph open on entry, no output line a document's tail emits
/// is the empty-paragraph artifact `<p></p>` plus line break.
proof fn lemma_no_empty_paragraph_from(state: TagState, lines: Seq<Seq<char>>)
    requires
        !state.paragraph_open,
        lines_ok(lines),
    ensures
        forall|i: int|
            0 <= i < convert_from(state, lines).len() ==> convert_from(state, lines)[i]
                != "<p></p>\n"@,
    decreases lines.len(),
{
    reveal_strlit("<p></p>\n");
    if lines.len() > 0 {
        let next = step_state(state, lines[0]);
        assert(!next.paragraph_open);
        lemma_no_empty_paragraph_from(next, lines.drop_first());
        assert(lines_ok(lines.drop_first()));
        if step_output(state, lines[0]) is Some {
            let frag = step_output(state, lines[0]).unwrap();
            match classify(lines[0]) {
                LineKind::Heading => {
                    reveal_strlit("<h1>");
                    assert(frag[1] == 'h');
                    assert(frag != "<p></p>\n"@);
                },
                LineKind::Blank => {
                    assert(false);
                },
                LineKind::Content => {
                    reveal_strlit("<p>");
                    reveal_strlit("</p>\n");
                    assert(frag.len() >= 9);
                    assert(frag != "<p></p>\n"@);
                },
            }
            assert(convert_from(state, lines) =~= seq![frag] + convert_from(
                next,
                lines.drop_first(),
            ));
        } else {
            assert(convert_from(state, lines) =~= convert_from(next, lines.drop_first()));
        }
    }
}

/// The empty-paragraph artifact `<p></p>` plus line break never appears in
/// a converted document: blank lines emit nothing and content lines are
/// non-empty, so there is nothing for a suppression pass to remove.
pub proof fn lemma_no_empty_paragraph(lines: Seq<Seq<char>>)
    requires
        lines_ok(lines),
    ensures
        forall|i: int|
            0 <= i < convert_spec(lines).len() ==> convert_spec(lines)[i] != "<p></p>\n"@,
{
    lemma_no_empty_paragraph_from(initial_state(), lines);
}

/// Starting with nothing open, the tag state is closed again after any
/// sequence of lines: headings and paragraphs never span a line boundary,
/// so no close tag is ever owed at end of input.
pub proof fn lemma_tags_closed(lines: Seq<Seq<char>>)
    ensures
        state_after(initial_state(), lines) == initial_state(),
    decreases lines.len(),
{
    if lines.len() > 0 {
        assert(step_state(initial_state(), lines[0]) == initial_state());
        lemma_tags_closed(lines.drop_first());
    }
}

} // verus!
