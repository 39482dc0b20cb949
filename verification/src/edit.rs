//! The rules of source editing: line-preserving edits of NDJSON sources,
//! entity selections, history directory names and the undo/redo index.
use vstd::prelude::*;
use crate::text::{
    chars_of, string_from_chars, push_chars, push_str_chars, concat_str, debug_str, debug_quoted,
    str_eq,
};

verus! {

pub const CRATE_NAME: &'static str = "cad-edit";

pub fn crate_name() -> (name: &'static str)
    ensures
        name@ == "cad-edit"@,
{
    CRATE_NAME
}

/// Errors of source edits. Paths are given as text; the I/O variants carry
/// the operating system's message.
#[derive(Debug)]
pub enum EditError {
    DrawingNotFound(String),
    EntityNotFound(String),
    RevisionConflict,
    RecoveryRequired { recovery_path: String },
    AtomicExchangeUnsupported,
    LayerNotEditable(String),
    InvalidEntity(String),
    CheckFailed(String),
    HistoryUnavailable(String),
    HistoryCorrupt(String),
    Read { path: String, detail: String },
    Write { path: String, detail: String },
}

pub enum EditErrorV {
    DrawingNotFound(Seq<char>),
    EntityNotFound(Seq<char>),
    RevisionConflict,
    RecoveryRequired { recovery_path: Seq<char> },
    AtomicExchangeUnsupported,
    LayerNotEditable(Seq<char>),
    InvalidEntity(Seq<char>),
    CheckFailed(Seq<char>),
    HistoryUnavailable(Seq<char>),
    HistoryCorrupt(Seq<char>),
    Read { path: Seq<char>, detail: Seq<char> },
    Write { path: Seq<char>, detail: Seq<char> },
}

impl View for EditError {
    type V = EditErrorV;

    open spec fn view(&self) -> EditErrorV {
        match self {
            EditError::DrawingNotFound(s) => EditErrorV::DrawingNotFound(s@),
            EditError::EntityNotFound(s) => EditErrorV::EntityNotFound(s@),
            EditError::RevisionConflict => EditErrorV::RevisionConflict,
            EditError::RecoveryRequired { recovery_path } => EditErrorV::RecoveryRequired {
                recovery_path: recovery_path@,
            },
            EditError::AtomicExchangeUnsupported => EditErrorV::AtomicExchangeUnsupported,
            EditError::LayerNotEditable(s) => EditErrorV::LayerNotEditable(s@),
            EditError::InvalidEntity(s) => EditErrorV::InvalidEntity(s@),
            EditError::CheckFailed(s) => EditErrorV::CheckFailed(s@),
            EditError::HistoryUnavailable(s) => EditErrorV::HistoryUnavailable(s@),
            EditError::HistoryCorrupt(s) => EditErrorV::HistoryCorrupt(s@),
            EditError::Read { path, detail } => EditErrorV::Read { path: path@, detail: detail@ },
            EditError::Write { path, detail } => EditErrorV::Write { path: path@, detail: detail@ },
        }
    }
}

pub open spec fn edit_error_message(e: EditErrorV) -> Seq<char> {
    match e {
        EditErrorV::DrawingNotFound(s) => "drawing "@ + debug_str(s) + " was not found"@,
        EditErrorV::EntityNotFound(s) => "entity "@ + debug_str(s) + " was not found"@,
        EditErrorV::RevisionConflict => "revision_conflict: drawing changed since the edit session started"@,
        EditErrorV::RecoveryRequired { recovery_path } =>
            "recovery_required: concurrent source bytes were preserved at "@ + recovery_path,
        EditErrorV::AtomicExchangeUnsupported => "atomic exchange is unsupported on this platform"@,
        EditErrorV::LayerNotEditable(s) => "layer "@ + debug_str(s) + " is missing, hidden, or locked"@,
        EditErrorV::InvalidEntity(s) => "invalid entity: "@ + s,
        EditErrorV::CheckFailed(s) => "edit introduces checker errors: "@ + s,
        EditErrorV::HistoryUnavailable(s) => "history unavailable: "@ + s,
        EditErrorV::HistoryCorrupt(s) => "history entry is corrupt: "@ + s,
        EditErrorV::Read { path, .. } => "failed to read "@ + path,
        EditErrorV::Write { path, .. } => "failed to write "@ + path,
    }
}

fn concat3(a: &str, b: &str, c: &str) -> (out: String)
    ensures
        out@ == a@ + b@ + c@,
{
    let ab = concat_str(a, b);
    concat_str(ab.as_str(), c)
}

impl EditError {
    /// The error's message.
    pub fn message(&self) -> (m: String)
        ensures
            m@ == edit_error_message(self@),
    {
        match self {
            EditError::DrawingNotFound(s) => {
                let q = debug_quoted(s.as_str());
                concat3("drawing ", q.as_str(), " was not found")
            },
            EditError::EntityNotFound(s) => {
                let q = debug_quoted(s.as_str());
                concat3("entity ", q.as_str(), " was not found")
            },
            EditError::RevisionConflict => "revision_conflict: drawing changed since the edit session started".to_owned(),
            EditError::RecoveryRequired { recovery_path } => concat_str(
                "recovery_required: concurrent source bytes were preserved at ",
                recovery_path.as_str(),
            ),
            EditError::AtomicExchangeUnsupported => "atomic exchange is unsupported on this platform".to_owned(),
            EditError::LayerNotEditable(s) => {
                let q = debug_quoted(s.as_str());
                concat3("layer ", q.as_str(), " is missing, hidden, or locked")
            },
            EditError::InvalidEntity(s) => concat_str("invalid entity: ", s.as_str()),
            EditError::CheckFailed(s) => concat_str("edit introduces checker errors: ", s.as_str()),
            EditError::HistoryUnavailable(s) => concat_str("history unavailable: ", s.as_str()),
            EditError::HistoryCorrupt(s) => concat_str("history entry is corrupt: ", s.as_str()),
            EditError::Read { path, .. } => concat_str("failed to read ", path.as_str()),
            EditError::Write { path, .. } => concat_str("failed to write ", path.as_str()),
        }
    }
}

// ---------------------------------------------------------------------------
// Raw lines
// ---------------------------------------------------------------------------

/// One line of a source file: its text and the line ending that followed it
/// (`\n`, `\r\n`, or nothing for a last line without one).
#[derive(Debug, Clone, PartialEq, Eq)]
pub struct RawLine {
    pub content: String,
    pub ending: String,
}

pub struct RawLineV {
    pub content: Seq<char>,
    pub ending: Seq<char>,
}

impl View for RawLine {
    type V = RawLineV;

    open spec fn view(&self) -> RawLineV {
        RawLineV { content: self.content@, ending: self.ending@ }
    }
}

pub open spec fn lines_view(v: Seq<RawLine>) -> Seq<RawLineV> {
    v.map_values(|l: RawLine| l@)
}

/// The first position from `i` on that holds a newline, or the length.
pub open spec fn next_newline(s: Seq<char>, i: int) -> int
    decreases s.len() - i,
{
    if i < 0 || i >= s.len() {
        s.len() as int
    } else if s[i] == '\n' {
        i
    } else {
        next_newline(s, i + 1)
    }
}

/// A piece of text that ends at a newline or at the end of the text, split
/// into its content and its ending.
pub open spec fn piece(p: Seq<char>) -> RawLineV {
    let n = p.len() as int;
    if n >= 2 && p[n - 2] == '\r' && p[n - 1] == '\n' {
        RawLineV { content: p.subrange(0, n - 2), ending: "\r\n"@ }
    } else if n >= 1 && p[n - 1] == '\n' {
        RawLineV { content: p.subrange(0, n - 1), ending: "\n"@ }
    } else {
        RawLineV { content: p, ending: ""@ }
    }
}

/// The lines of a text, each with its ending; empty text has none.
pub open spec fn raw_lines(s: Seq<char>) -> Seq<RawLineV>
    decreases s.len(),
{
    if s.len() == 0 {
        Seq::empty()
    } else {
        let k = next_newline(s, 0);
        if k >= s.len() {
            seq![piece(s)]
        } else {
            proof {
                lemma_next_newline_range(s, 0);
            }
            seq![piece(s.subrange(0, k + 1))] + raw_lines(s.subrange(k + 1, s.len() as int))
        }
    }
}

/// The text of lines: each line's content followed by its ending.
pub open spec fn render(ls: Seq<RawLineV>) -> Seq<char>
    decreases ls.len(),
{
    if ls.len() == 0 {
        Seq::empty()
    } else {
        render(ls.drop_last()) + ls.last().content + ls.last().ending
    }
}

pub proof fn lemma_next_newline_range(s: Seq<char>, i: int)
    requires
        0 <= i <= s.len(),
    ensures
        i <= next_newline(s, i) <= s.len(),
        next_newline(s, i) < s.len() ==> s[next_newline(s, i)] == '\n',
        forall|j: int| i <= j < next_newline(s, i) ==> s[j] != '\n',
    decreases s.len() - i,
{
    if i < s.len() && s[i] != '\n' {
        lemma_next_newline_range(s, i + 1);
    }
}

proof fn lemma_piece_render(p: Seq<char>)
    ensures
        piece(p).content + piece(p).ending == p,
{
    reveal_strlit("\r\n");
    reveal_strlit("\n");
    reveal_strlit("");
    let n = p.len() as int;
    if n >= 2 && p[n - 2] == '\r' && p[n - 1] == '\n' {
        assert(p.subrange(0, n - 2) + "\r\n"@ =~= p);
    } else if n >= 1 && p[n - 1] == '\n' {
        assert(p.subrange(0, n - 1) + "\n"@ =~= p);
    } else {
        assert(p + ""@ =~= p);
    }
}

proof fn lemma_render_prepend(x: RawLineV, ls: Seq<RawLineV>)
    ensures
        render(seq![x] + ls) == x.content + x.ending + render(ls),
    decreases ls.len(),
{
    if ls.len() == 0 {
        let one = seq![x];
        assert(seq![x] + ls =~= one);
        assert(one.drop_last() =~= Seq::<RawLineV>::empty());
        assert(render(one.drop_last()) == Seq::<char>::empty());
        assert(render(one) == render(one.drop_last()) + one.last().content + one.last().ending);
        assert(render(ls) == Seq::<char>::empty());
        assert(x.content + x.ending + Seq::<char>::empty() =~= x.content + x.ending);
        assert(Seq::<char>::empty() + x.content + x.ending =~= x.content + x.ending);
    } else {
        lemma_render_prepend(x, ls.drop_last());
        assert((seq![x] + ls).drop_last() =~= seq![x] + ls.drop_last());
        assert((seq![x] + ls).last() == ls.last());
        assert(x.content + x.ending + render(ls.drop_last()) + ls.last().content + ls.last().ending
            =~= x.content + x.ending + (render(ls.drop_last()) + ls.last().content
            + ls.last().ending));
    }
}

/// Rendering the lines of a text gives the text back, byte for byte.
pub proof fn lemma_render_raw_lines(s: Seq<char>)
    ensures
        render(raw_lines(s)) == s,
    decreases s.len(),
{
    if s.len() > 0 {
        lemma_next_newline_range(s, 0);
        let k = next_newline(s, 0);
        if k >= s.len() {
            lemma_piece_render(s);
            lemma_render_prepend(piece(s), Seq::empty());
            assert(seq![piece(s)] + Seq::<RawLineV>::empty() =~= seq![piece(s)]);
            assert(piece(s).content + piece(s).ending + Seq::<char>::empty() =~= s);
        } else {
            let head = s.subrange(0, k + 1);
            let tail = s.subrange(k + 1, s.len() as int);
            lemma_piece_render(head);
            lemma_render_raw_lines(tail);
            lemma_render_prepend(piece(head), raw_lines(tail));
            assert(head + tail =~= s);
        }
    }
}

fn piece_exec(chars: &Vec<char>, start: usize, end: usize) -> (line: RawLine)
    requires
        start <= end <= chars.len(),
    ensures
        line@ == piece(chars@.subrange(start as int, end as int)),
{
    let ghost p = chars@.subrange(start as int, end as int);
    let n = end - start;
    let (stop, ending) = if n >= 2 && chars[end - 2] == '\r' && chars[end - 1] == '\n' {
        (end - 2, "\r\n")
    } else if n >= 1 && chars[end - 1] == '\n' {
        (end - 1, "\n")
    } else {
        (end, "")
    };
    let mut content: Vec<char> = Vec::new();
    let mut i = start;
    while i < stop
        invariant
            start <= i <= stop,
            stop <= end <= chars.len(),
            content@ =~= chars@.subrange(start as int, i as int),
        decreases stop - i,
    {
        content.push(chars[i]);
        i = i + 1;
    }
    assert(content@ =~= piece(p).content);
    RawLine { content: string_from_chars(content.as_slice()), ending: ending.to_owned() }
}

/// Splits a text into lines, keeping each line's ending (`str::split_inclusive`
/// on `\n`).
pub fn split_raw_lines(text: &str) -> (lines: Vec<RawLine>)
    ensures
        lines_view(lines@) == raw_lines(text@),
{
    let chars = chars_of(text);
    let ghost s = chars@;
    let mut lines: Vec<RawLine> = Vec::new();
    let mut start: usize = 0;
    let mut i: usize = 0;
    assert(s.subrange(0, s.len() as int) =~= s);
    assert(lines_view(lines@) + raw_lines(s.subrange(0, s.len() as int)) =~= raw_lines(s));
    while i < chars.len()
        invariant
            s == chars@,
            s == text@,
            start <= i <= chars.len(),
            forall|j: int| start <= j < i ==> s[j] != '\n',
            lines_view(lines@) + raw_lines(s.subrange(start as int, s.len() as int)) == raw_lines(
                s,
            ),
        decreases chars.len() - i,
    {
        if chars[i] == '\n' {
            let ghost rest = s.subrange(start as int, s.len() as int);
            proof {
                lemma_next_newline_range(rest, 0);
                assert(rest[i - start] == '\n');
                assert(next_newline(rest, 0) == i - start) by {
                    if next_newline(rest, 0) < i - start {
                        assert(rest[next_newline(rest, 0)] == s[start + next_newline(rest, 0)]);
                    }
                }
                assert(rest.subrange(0, i - start + 1) =~= s.subrange(start as int, i + 1));
                assert(rest.subrange(i - start + 1, rest.len() as int) =~= s.subrange(
                    i + 1,
                    s.len() as int,
                ));
            }
            let line = piece_exec(&chars, start, i + 1);
            let ghost before = lines_view(lines@);
            lines.push(line);
            assert(lines_view(lines@) =~= before.push(line@));
            assert(before.push(line@) + raw_lines(s.subrange(i + 1, s.len() as int)) =~= before + (
            seq![line@] + raw_lines(s.subrange(i + 1, s.len() as int))));
            start = i + 1;
        }
        i = i + 1;
    }
    if start < chars.len() {
        let ghost rest = s.subrange(start as int, s.len() as int);
        proof {
            lemma_next_newline_range(rest, 0);
            assert(next_newline(rest, 0) == rest.len()) by {
                if next_newline(rest, 0) < rest.len() {
                    assert(rest[next_newline(rest, 0)] == s[start + next_newline(rest, 0)]);
                }
            }
        }
        let line = piece_exec(&chars, start, chars.len());
        let ghost before = lines_view(lines@);
        lines.push(line);
        assert(lines_view(lines@) =~= before.push(line@));
        assert(before.push(line@) =~= before + seq![line@]);
    } else {
        assert(lines_view(lines@) + Seq::<RawLineV>::empty() =~= lines_view(lines@));
    }
    lines
}

/// Joins lines back into text.
pub fn render_raw_lines(lines: &Vec<RawLine>) -> (text: String)
    ensures
        text@ == render(lines_view(lines@)),
{
    let mut out: Vec<char> = Vec::new();
    let mut i: usize = 0;
    while i < lines.len()
        invariant
            i <= lines.len(),
            out@ == render(lines_view(lines@).subrange(0, i as int)),
        decreases lines.len() - i,
    {
        let ghost before = out@;
        push_str_chars(&mut out, lines[i].content.as_str());
        push_str_chars(&mut out, lines[i].ending.as_str());
        assert(lines_view(lines@).subrange(0, i + 1).drop_last() =~= lines_view(lines@).subrange(
            0,
            i as int,
        ));
        i = i + 1;
    }
    assert(lines_view(lines@).subrange(0, i as int) =~= lines_view(lines@));
    string_from_chars(out.as_slice())
}

/// The last line before position `i` that has an ending.
pub open spec fn last_ending_before(ls: Seq<RawLineV>, i: int) -> Option<int>
    decreases i,
{
    if i <= 0 || i > ls.len() {
        None
    } else if ls[i - 1].ending.len() > 0 {
        Some(i - 1)
    } else {
        last_ending_before(ls, i - 1)
    }
}

/// The first line from position `i` on that has an ending.
pub open spec fn first_ending_from(ls: Seq<RawLineV>, i: int) -> Option<int>
    decreases ls.len() - i,
{
    if i < 0 || i >= ls.len() {
        None
    } else if ls[i].ending.len() > 0 {
        Some(i)
    } else {
        first_ending_from(ls, i + 1)
    }
}

/// The line ending to use at line `i`: its own, else the nearest one before
/// it, else the first one after it, else `\n`.
pub open spec fn preferred_ending_spec(ls: Seq<RawLineV>, i: int) -> Seq<char> {
    if 0 <= i < ls.len() && ls[i].ending.len() > 0 {
        ls[i].ending
    } else {
        match last_ending_before(ls, if i < ls.len() { i } else { ls.len() as int }) {
            Some(j) => ls[j].ending,
            None => match first_ending_from(ls, i + 1) {
                Some(j) => ls[j].ending,
                None => "\n"@,
            },
        }
    }
}

pub fn preferred_ending(lines: &Vec<RawLine>, index: usize) -> (ending: String)
    requires
        index < usize::MAX,
    ensures
        ending@ == preferred_ending_spec(lines_view(lines@), index as int),
{
    let ghost ls = lines_view(lines@);
    if index < lines.len() && !lines[index].ending.as_str().is_empty() {
        return lines[index].ending.clone();
    }
    let mut j: usize = if index < lines.len() {
        index
    } else {
        lines.len()
    };
    let ghost bound = j as int;
    while j > 0
        invariant
            ls == lines_view(lines@),
            j <= lines.len(),
            bound == (if index < lines.len() { index as int } else { lines.len() as int }),
            !(index < lines.len() && ls[index as int].ending.len() > 0),
            last_ending_before(ls, bound) == last_ending_before(ls, j as int),
        decreases j,
    {
        if !lines[j - 1].ending.as_str().is_empty() {
            return lines[j - 1].ending.clone();
        }
        j = j - 1;
    }
    let mut k: usize = index + 1;
    assert(last_ending_before(ls, bound) is None);
    while k < lines.len()
        invariant
            ls == lines_view(lines@),
            index + 1 <= k,
            bound == (if index < lines.len() { index as int } else { lines.len() as int }),
            !(index < lines.len() && ls[index as int].ending.len() > 0),
            last_ending_before(ls, bound) is None,
            first_ending_from(ls, index + 1) == first_ending_from(ls, k as int),
        decreases lines.len() - k,
    {
        if !lines[k].ending.as_str().is_empty() {
            return lines[k].ending.clone();
        }
        k = k + 1;
    }
    "\n".to_owned()
}

pub open spec fn line(content: Seq<char>, ending: Seq<char>) -> RawLineV {
    RawLineV { content, ending }
}

/// The lines after a line is appended: it takes the file's line ending; when
/// the old last line had none, that line gets it and the new line has none.
pub open spec fn append_spec(ls: Seq<RawLineV>, c: Seq<char>) -> Seq<RawLineV> {
    if ls.len() == 0 {
        seq![line(c, "\n"@)]
    } else {
        let last = ls.len() - 1;
        let e = preferred_ending_spec(ls, last);
        if ls[last].ending.len() > 0 {
            ls.push(line(c, e))
        } else {
            ls.update(last, line(ls[last].content, e)).push(line(c, ""@))
        }
    }
}

pub fn append_raw_line(lines: &mut Vec<RawLine>, content: String)
    requires
        old(lines)@.len() < usize::MAX,
    ensures
        lines_view(final(lines)@) == append_spec(lines_view(old(lines)@), content@),
{
    let ghost ls = lines_view(lines@);
    proof {
        reveal_strlit("");
    }
    if lines.len() == 0 {
        lines.push(RawLine { content, ending: "\n".to_owned() });
        assert(lines_view(lines@) =~= append_spec(ls, content@));
        return;
    }
    let last = lines.len() - 1;
    let ending = preferred_ending(lines, last);
    let had_trailing_ending = !lines[last].ending.as_str().is_empty();
    if !had_trailing_ending {
        let kept = lines[last].content.clone();
        lines.set(last, RawLine { content: kept, ending: ending.clone() });
        let empty = String::new();
        assert(empty@ =~= ""@);
        lines.push(RawLine { content, ending: empty });
        assert(lines_view(lines@) =~= append_spec(ls, content@));
    } else {
        lines.push(RawLine { content, ending });
        assert(lines_view(lines@) =~= append_spec(ls, content@));
    }
}

/// The lines after a line is inserted after line `i`: line `i` takes the
/// preferred ending and the new line takes the ending line `i` had.
pub open spec fn insert_after_spec(ls: Seq<RawLineV>, i: int, c: Seq<char>) -> Seq<RawLineV> {
    let e = preferred_ending_spec(ls, i);
    ls.update(i, line(ls[i].content, e)).insert(i + 1, line(c, ls[i].ending))
}

proof fn lemma_render_concat(a: Seq<RawLineV>, b: Seq<RawLineV>)
    ensures
        render(a + b) == render(a) + render(b),
    decreases b.len(),
{
    if b.len() == 0 {
        assert(a + b =~= a);
        assert(render(a) + render(b) =~= render(a));
    } else {
        lemma_render_concat(a, b.drop_last());
        assert((a + b).drop_last() =~= a + b.drop_last());
        assert((a + b).last() == b.last());
        assert(render(a) + render(b) =~= render(a) + render(b.drop_last()) + b.last().content
            + b.last().ending);
    }
}

/// Inserting after line `i` splices the new content into the text right
/// after line `i`, followed by the ending line `i` had; line `i` itself ends
/// with its preferred ending. When line `i` had an ending, the text is the
/// old text up to and including line `i`, then the new content and that same
/// ending, then the rest.
pub proof fn lemma_insert_splices_text(ls: Seq<RawLineV>, i: int, c: Seq<char>)
    requires
        0 <= i < ls.len(),
    ensures
        render(insert_after_spec(ls, i, c)) == render(ls.take(i)) + ls[i].content
            + preferred_ending_spec(ls, i) + c + ls[i].ending + render(ls.skip(i + 1)),
        ls[i].ending.len() > 0 ==> render(insert_after_spec(ls, i, c)) == render(ls.take(i + 1)) + c
            + ls[i].ending + render(ls.skip(i + 1)),
{
    let e = preferred_ending_spec(ls, i);
    let mid = seq![line(ls[i].content, e), line(c, ls[i].ending)];
    let r = insert_after_spec(ls, i, c);
    assert(r =~= ls.take(i) + mid + ls.skip(i + 1));
    lemma_render_concat(ls.take(i) + mid, ls.skip(i + 1));
    lemma_render_concat(ls.take(i), mid);
    assert(mid.drop_last().drop_last() =~= Seq::<RawLineV>::empty());
    assert(render(mid.drop_last()) =~= ls[i].content + e) by {
        assert(render(mid.drop_last()) == render(mid.drop_last().drop_last()) + mid[0].content
            + mid[0].ending);
    }
    assert(render(mid) == render(mid.drop_last()) + c + ls[i].ending);
    assert(render(mid) =~= ls[i].content + e + (c + ls[i].ending));
    assert(ls.take(i + 1).drop_last() =~= ls.take(i));
    assert(render(ls.take(i + 1)) == render(ls.take(i)) + ls[i].content + ls[i].ending);
    assert(render(ls.take(i)) + ls[i].content + e + c + ls[i].ending =~= render(ls.take(i)) + render(
        mid,
    ));
    if ls[i].ending.len() > 0 {
        assert(render(ls.take(i)) + ls[i].content + ls[i].ending + c + ls[i].ending =~= render(
            ls.take(i + 1),
        ) + c + ls[i].ending);
    }
}

/// In a file whose lines all end the same way, an inserted line ends that way
/// too, and so do all the others.
pub proof fn lemma_insert_keeps_uniform_endings(ls: Seq<RawLineV>, i: int, c: Seq<char>, e: Seq<char>)
    requires
        0 <= i < ls.len(),
        e.len() > 0,
        forall|j: int| 0 <= j < ls.len() ==> #[trigger] ls[j].ending == e,
    ensures
        insert_after_spec(ls, i, c).len() == ls.len() + 1,
        insert_after_spec(ls, i, c)[i + 1].content == c,
        forall|j: int|
            0 <= j < insert_after_spec(ls, i, c).len() ==> #[trigger] insert_after_spec(ls, i, c)[j].ending
                == e,
{
    let r = insert_after_spec(ls, i, c);
    assert forall|j: int| 0 <= j < r.len() implies #[trigger] r[j].ending == e by {
        if j < i {
            assert(r[j] == ls[j]);
        } else if j > i + 1 {
            assert(r[j] == ls[j - 1]);
        }
    }
}

pub fn insert_raw_line_after(lines: &mut Vec<RawLine>, index: usize, content: String)
    requires
        index < old(lines)@.len(),
        old(lines)@.len() < usize::MAX,
    ensures
        lines_view(final(lines)@) == insert_after_spec(lines_view(old(lines)@), index as int, content@),
{
    let ghost ls = lines_view(lines@);
    let ending = preferred_ending(lines, index);
    let original_ending = lines[index].ending.clone();
    let kept = lines[index].content.clone();
    lines.set(index, RawLine { content: kept, ending });
    lines.insert(index + 1, RawLine { content, ending: original_ending });
    assert(lines_view(lines@) =~= insert_after_spec(ls, index as int, content@));
}

/// The lines after line `i` is removed: when it had no ending (it was the
/// last line), the line before it loses its ending too.
pub open spec fn remove_spec(ls: Seq<RawLineV>, i: int) -> Seq<RawLineV> {
    let r = ls.remove(i);
    if ls[i].ending.len() == 0 && i > 0 {
        r.update(i - 1, line(r[i - 1].content, ""@))
    } else {
        r
    }
}

pub fn remove_raw_line(lines: &mut Vec<RawLine>, index: usize)
    requires
        index < old(lines)@.len(),
    ensures
        lines_view(final(lines)@) == remove_spec(lines_view(old(lines)@), index as int),
{
    let ghost ls = lines_view(lines@);
    proof {
        reveal_strlit("");
    }
    let removed = lines.remove(index);
    assert(lines_view(lines@) =~= ls.remove(index as int));
    if removed.ending.as_str().is_empty() && index > 0 {
        let kept = lines[index - 1].content.clone();
        let empty = String::new();
        assert(empty@ =~= ""@);
        lines.set(index - 1, RawLine { content: kept, ending: empty });
        assert(lines_view(lines@) =~= remove_spec(ls, index as int));
    }
}

pub open spec fn contents(ls: Seq<RawLineV>) -> Seq<Seq<char>> {
    ls.map_values(|l: RawLineV| l.content)
}

/// Line edits touch only the line they are about: appending adds one line,
/// inserting after line `i` adds one at `i + 1`, and removing line `i`
/// removes only it; every other line's content is kept.
pub proof fn lemma_edits_keep_other_lines(ls: Seq<RawLineV>, i: int, c: Seq<char>)
    ensures
        contents(append_spec(ls, c)) == contents(ls).push(c),
        0 <= i < ls.len() ==> contents(insert_after_spec(ls, i, c)) == contents(ls).insert(
            i + 1,
            c,
        ),
        0 <= i < ls.len() ==> contents(remove_spec(ls, i)) == contents(ls).remove(i),
{
    assert(contents(append_spec(ls, c)) =~= contents(ls).push(c));
    if 0 <= i < ls.len() {
        assert(contents(insert_after_spec(ls, i, c)) =~= contents(ls).insert(i + 1, c));
        assert(contents(remove_spec(ls, i)) =~= contents(ls).remove(i));
    }
}

// ---------------------------------------------------------------------------
// Selections and names
// ---------------------------------------------------------------------------

pub open spec fn ids_view(v: Seq<String>) -> Seq<Seq<char>> {
    v.map_values(|s: String| s@)
}

/// The first position whose id already occurred before it.
pub open spec fn first_repeat(ids: Seq<Seq<char>>, j: int) -> Option<int>
    decreases ids.len() - j,
{
    if j < 0 || j >= ids.len() {
        None
    } else if ids.subrange(0, j).contains(ids[j]) {
        Some(j)
    } else {
        first_repeat(ids, j + 1)
    }
}

/// A selection must name at least one entity and no entity twice.
pub open spec fn unique_ids_spec(ids: Seq<Seq<char>>) -> Result<(), EditErrorV> {
    if ids.len() == 0 {
        Err(EditErrorV::InvalidEntity("entity_ids must contain at least one entity"@))
    } else {
        match first_repeat(ids, 0) {
            Some(j) => Err(
                EditErrorV::InvalidEntity(
                    "entity id "@ + debug_str(ids[j]) + " appears more than once"@,
                ),
            ),
            None => Ok(()),
        }
    }
}

fn seen_before(ids: &Vec<String>, j: usize) -> (found: bool)
    requires
        j < ids.len(),
    ensures
        found == ids_view(ids@).subrange(0, j as int).contains(ids_view(ids@)[j as int]),
{
    let ghost v = ids_view(ids@);
    let mut i: usize = 0;
    while i < j
        invariant
            v == ids_view(ids@),
            i <= j < ids.len(),
            forall|k: int| 0 <= k < i ==> v[k] != v[j as int],
        decreases j - i,
    {
        if str_eq(ids[i].as_str(), ids[j].as_str()) {
            assert(v.subrange(0, j as int)[i as int] == v[j as int]);
            return true;
        }
        i = i + 1;
    }
    assert forall|k: int| 0 <= k < v.subrange(0, j as int).len() implies v.subrange(0, j as int)[k]
        != v[j as int] by {
        assert(v.subrange(0, j as int)[k] == v[k]);
    }
    false
}

pub fn ensure_unique_entity_ids(entity_ids: &Vec<String>) -> (res: Result<(), EditError>)
    ensures
        match (res, unique_ids_spec(ids_view(entity_ids@))) {
            (Ok(()), Ok(())) => true,
            (Err(e), Err(f)) => e@ == f,
            _ => false,
        },
{
    let ghost v = ids_view(entity_ids@);
    if entity_ids.len() == 0 {
        return Err(EditError::InvalidEntity("entity_ids must contain at least one entity".to_owned()));
    }
    let mut j: usize = 0;
    while j < entity_ids.len()
        invariant
            v == ids_view(entity_ids@),
            j <= entity_ids.len(),
            first_repeat(v, 0) == first_repeat(v, j as int),
        decreases entity_ids.len() - j,
    {
        if seen_before(entity_ids, j) {
            let quoted = debug_quoted(entity_ids[j].as_str());
            return Err(
                EditError::InvalidEntity(concat3("entity id ", quoted.as_str(), " appears more than once")),
            );
        }
        j = j + 1;
    }
    Ok(())
}

/// The position of the next `/` from `i` on, or the length.
pub open spec fn next_slash(s: Seq<char>, i: int) -> int
    decreases s.len() - i,
{
    if i < 0 || i >= s.len() {
        s.len() as int
    } else if s[i] == '/' {
        i
    } else {
        next_slash(s, i + 1)
    }
}

/// The parts of a path between its separators, counted from `i` on: empty
/// parts and `.` parts do not count.
pub open spec fn named_parts(s: Seq<char>, i: int) -> Seq<Seq<char>>
    decreases s.len() - i,
{
    if i < 0 || i >= s.len() {
        Seq::empty()
    } else {
        let k = next_slash(s, i);
        let part = s.subrange(i, k);
        let rest = if k < s.len() {
            proof {
                lemma_next_slash(s, i);
            }
            named_parts(s, k + 1)
        } else {
            Seq::empty()
        };
        if part.len() == 0 || part == "."@ {
            rest
        } else {
            seq![part] + rest
        }
    }
}

/// A drawing name is one plain path component: not absolute, not starting
/// with `.` as a directory, and exactly one named part, which is not `..`.
pub open spec fn drawing_name_ok(s: Seq<char>) -> bool {
    let parts = named_parts(s, 0);
    &&& s.len() > 0
    &&& s[0] != '/'
    &&& !(s == "."@ || (s.len() >= 2 && s[0] == '.' && s[1] == '/'))
    &&& parts.len() == 1
    &&& parts[0] != ".."@
}

pub proof fn lemma_next_slash(s: Seq<char>, i: int)
    requires
        0 <= i <= s.len(),
    ensures
        i <= next_slash(s, i) <= s.len(),
        next_slash(s, i) < s.len() ==> s[next_slash(s, i)] == '/',
        forall|j: int| i <= j < next_slash(s, i) ==> s[j] != '/',
    decreases s.len() - i,
{
    if i < s.len() && s[i] != '/' {
        lemma_next_slash(s, i + 1);
    }
}

fn is_dot(chars: &Vec<char>, start: usize, end: usize) -> (b: bool)
    requires
        start <= end <= chars.len(),
    ensures
        b == (chars@.subrange(start as int, end as int) == "."@),
{
    proof {
        reveal_strlit(".");
        assert("."@.len() == 1 && "."@[0] == '.');
    }
    let ghost part = chars@.subrange(start as int, end as int);
    if end - start == 1 && chars[start] == '.' {
        assert(part =~= "."@);
        true
    } else {
        proof {
            if part == "."@ {
                assert(part.len() == 1);
                assert(part[0] == chars@[start as int]);
            }
        }
        false
    }
}

fn is_dot_dot(chars: &Vec<char>, start: usize, end: usize) -> (b: bool)
    requires
        start <= end <= chars.len(),
    ensures
        b == (chars@.subrange(start as int, end as int) == ".."@),
{
    proof {
        reveal_strlit("..");
        assert(".."@.len() == 2 && ".."@[0] == '.' && ".."@[1] == '.');
    }
    let ghost part = chars@.subrange(start as int, end as int);
    if end - start == 2 && chars[start] == '.' && chars[start + 1] == '.' {
        assert(part =~= ".."@);
        true
    } else {
        proof {
            if part == ".."@ {
                assert(part.len() == 2);
                assert(part[0] == chars@[start as int]);
                assert(part[1] == chars@[start + 1]);
            }
        }
        false
    }
}

/// Checks that a drawing name can name a history directory.
pub fn validate_drawing_name(drawing: &str) -> (res: Result<(), EditError>)
    ensures
        match res {
            Ok(()) => drawing_name_ok(drawing@),
            Err(e) => !drawing_name_ok(drawing@) && e@ == EditErrorV::HistoryUnavailable(
                "drawing name is not a safe history directory"@,
            ),
        },
{
    let chars = chars_of(drawing);
    let ghost s = chars@;
    proof {
        reveal_strlit(".");
    }
    let bad = chars.len() == 0 || chars[0] == '/' || (chars.len() == 1 && chars[0] == '.') || (
    chars.len() >= 2 && chars[0] == '.' && chars[1] == '/');
    proof {
        if chars.len() == 1 && s == "."@ {
            assert(s[0] == '.');
        }
        if chars.len() == 1 && chars[0] == '.' {
            assert(s =~= "."@);
        }
    }
    if bad {
        return Err(
            EditError::HistoryUnavailable("drawing name is not a safe history directory".to_owned()),
        );
    }
    // Count the named parts; remember the first one.
    let mut count: usize = 0;
    let mut first_start: usize = 0;
    let mut first_end: usize = 0;
    let mut i: usize = 0;
    let ghost mut seen: Seq<Seq<char>> = Seq::empty();
    while i < chars.len()
        invariant
            s == chars@,
            s == drawing@,
            i <= chars.len(),
            named_parts(s, 0) == seen + named_parts(s, i as int),
            count == seen.len(),
            count <= 1,
            s.len() > 0 && s[0] != '/' && !(s == "."@ || (s.len() >= 2 && s[0] == '.' && s[1]
                == '/')),
            count >= 1 ==> first_start <= first_end <= chars.len() && seen[0] == s.subrange(
                first_start as int,
                first_end as int,
            ),
        decreases chars.len() - i,
    {
        let mut k = i;
        while k < chars.len() && chars[k] != '/'
            invariant
                i <= k <= chars.len(),
                s == chars@,
                next_slash(s, i as int) == next_slash(s, k as int),
            decreases chars.len() - k,
        {
            k = k + 1;
        }
        proof {
            lemma_next_slash(s, i as int);
        }
        let ghost part = s.subrange(i as int, k as int);
        let ghost rest = named_parts(s, k + 1);
        if k > i && !is_dot(&chars, i, k) {
            if count == 0 {
                first_start = i;
                first_end = k;
            }
            count = count + 1;
            proof {
                seen = seen.push(part);
                assert(named_parts(s, i as int) == seq![part] + rest);
            }
        } else {
            proof {
                assert(named_parts(s, i as int) == rest);
            }
        }
        proof {
            assert(named_parts(s, 0) =~= seen + named_parts(s, (k + 1) as int)) by {
                if k + 1 > chars.len() {
                    assert(named_parts(s, (k + 1) as int) == Seq::<Seq<char>>::empty());
                }
            }
        }
        if k >= chars.len() {
            i = chars.len();
            proof {
                assert(named_parts(s, i as int) == Seq::<Seq<char>>::empty());
            }
        } else {
            i = k + 1;
        }
        if count >= 2 {
            proof {
                assert(named_parts(s, 0) =~= seen + named_parts(s, i as int));
                assert(named_parts(s, 0).len() >= 2);
            }
            return Err(
                EditError::HistoryUnavailable("drawing name is not a safe history directory".to_owned()),
            );
        }
    }
    assert(named_parts(s, i as int) == Seq::<Seq<char>>::empty());
    assert(seen + Seq::<Seq<char>>::empty() =~= seen);
    if count != 1 || is_dot_dot(&chars, first_start, first_end) {
        return Err(
            EditError::HistoryUnavailable("drawing name is not a safe history directory".to_owned()),
        );
    }
    Ok(())
}

// ---------------------------------------------------------------------------
// Requests, results and history records
// ---------------------------------------------------------------------------

#[derive(Debug, Clone, PartialEq, Eq)]
pub struct DrawingEditResult {
    pub drawing: String,
    pub revision: String,
    pub entity_id: Option<String>,
    pub entity_ids: Vec<String>,
    pub operation: String,
    pub history_id: Option<String>,
}

#[derive(Debug, Clone, PartialEq, Eq)]
pub struct HistoryFileRevision {
    pub relative_path: String,
    pub revision: String,
    pub exists: bool,
}

#[derive(Debug, Clone)]
pub struct DrawingHistoryRequest {
    pub drawing: String,
    pub expected_files: Vec<HistoryFileRevision>,
}

#[derive(Debug, Clone, Copy, PartialEq, Eq)]
pub struct PermissionsSnapshot {
    pub readonly: bool,
    pub unix_mode: Option<u32>,
}

#[derive(Debug, Clone, PartialEq, Eq)]
pub struct HistoryFileSnapshot {
    pub relative_path: String,
    pub exists: bool,
    pub before_revision: String,
    pub after_revision: String,
    pub before_snapshot: Option<String>,
    pub after_snapshot: Option<String>,
    pub before_permissions: Option<PermissionsSnapshot>,
    pub after_permissions: Option<PermissionsSnapshot>,
}

#[derive(Debug, Clone, PartialEq, Eq)]
pub struct DrawingHistoryEntry {
    pub history_id: String,
    pub drawing: String,
    pub operation: String,
    pub timestamp: String,
    pub before_revision: String,
    pub after_revision: String,
    pub entity_ids: Vec<String>,
    pub scope: String,
    pub changed_files: Vec<String>,
    pub affected_files: Vec<String>,
    pub files: Vec<HistoryFileSnapshot>,
    pub before_manifest_revision: String,
    pub after_manifest_revision: String,
}

#[derive(Debug, Clone, PartialEq, Eq)]
pub struct DrawingHistoryState {
    pub drawing: String,
    pub undo: Vec<DrawingHistoryEntry>,
    pub redo: Vec<DrawingHistoryEntry>,
    pub limit: usize,
    pub current_files: Vec<HistoryFileRevision>,
    pub context_blocked: Option<String>,
}

/// A source file as history sees it: its bytes when it exists, and its
/// permissions.
#[derive(Debug, Clone)]
pub struct HistoryFileInput {
    pub relative_path: String,
    pub exists: bool,
    pub bytes: Vec<u8>,
    pub permissions: Option<PermissionsSnapshot>,
}

#[derive(Debug, Clone, Copy, PartialEq, Eq)]
pub enum SnapKind {
    Endpoint,
    Midpoint,
    Intersection,
}

/// The scope a history entry has when its metadata names none.
pub fn default_history_scope() -> (scope: String)
    ensures
        scope@ == "drawing"@,
{
    "drawing".to_owned()
}

// ---------------------------------------------------------------------------
// Deleting entities
// ---------------------------------------------------------------------------

/// The position of the first entity with the id.
pub open spec fn position_of(ids: Seq<Seq<char>>, id: Seq<char>, from: int) -> Option<int>
    decreases ids.len() - from,
{
    if from < 0 || from >= ids.len() {
        None
    } else if ids[from] == id {
        Some(from)
    } else {
        position_of(ids, id, from + 1)
    }
}

/// The positions of the selected entities, or the first id that names none.
pub open spec fn positions_of(line_ids: Seq<Seq<char>>, selected: Seq<Seq<char>>) -> Result<Seq<int>, Seq<char>>
    decreases selected.len(),
{
    if selected.len() == 0 {
        Ok(Seq::empty())
    } else {
        match positions_of(line_ids, selected.drop_last()) {
            Err(id) => Err(id),
            Ok(ps) => match position_of(line_ids, selected.last(), 0) {
                None => Err(selected.last()),
                Some(p) => Ok(ps.push(p)),
            },
        }
    }
}

/// `x` placed in the descending sequence `s`, unless it is there already.
pub open spec fn insert_desc(s: Seq<int>, x: int) -> Seq<int>
    decreases s.len(),
{
    if s.len() == 0 {
        seq![x]
    } else if x > s[0] {
        seq![x] + s
    } else if x == s[0] {
        s
    } else {
        seq![s[0]] + insert_desc(s.drop_first(), x)
    }
}

/// The distinct positions, from the last to the first.
pub open spec fn sort_desc(s: Seq<int>) -> Seq<int>
    decreases s.len(),
{
    if s.len() == 0 {
        s
    } else {
        insert_desc(sort_desc(s.drop_last()), s.last())
    }
}

/// The lines after removing the given positions one after another.
pub open spec fn remove_each(ls: Seq<RawLineV>, ps: Seq<int>) -> Seq<RawLineV>
    decreases ps.len(),
{
    if ps.len() == 0 {
        ls
    } else {
        remove_each(remove_spec(ls, ps[0]), ps.drop_first())
    }
}

/// The first of the positions (in the given order) whose entity's layer may
/// not be edited.
pub open spec fn first_blocked(blocked: Seq<Option<String>>, ps: Seq<int>) -> Option<Seq<char>>
    decreases ps.len(),
{
    if ps.len() == 0 {
        None
    } else {
        match blocked[ps[0]] {
            Some(layer) => Some(layer@),
            None => first_blocked(blocked, ps.drop_first()),
        }
    }
}

/// Deleting entities from a drawing: the selection must be a valid one, each
/// id must name an entity (the entities are the file's lines, in order), and
/// every selected entity's layer must be editable, checked from the last
/// selected line to the first; then those lines are removed, last first.
pub open spec fn delete_spec(
    selected: Seq<Seq<char>>,
    line_ids: Seq<Seq<char>>,
    blocked: Seq<Option<String>>,
    ls: Seq<RawLineV>,
) -> Result<Seq<RawLineV>, EditErrorV> {
    match unique_ids_spec(selected) {
        Err(e) => Err(e),
        Ok(()) => match positions_of(line_ids, selected) {
            Err(id) => Err(EditErrorV::EntityNotFound(id)),
            Ok(ps) => match first_blocked(blocked, sort_desc(ps)) {
                Some(layer) => Err(EditErrorV::LayerNotEditable(layer)),
                None => Ok(remove_each(ls, sort_desc(ps))),
            },
        },
    }
}

proof fn lemma_position_bound(ids: Seq<Seq<char>>, id: Seq<char>, from: int)
    ensures
        position_of(ids, id, from) matches Some(p) ==> 0 <= p < ids.len() && ids[p] == id,
    decreases ids.len() - from,
{
    if 0 <= from < ids.len() && ids[from] != id {
        lemma_position_bound(ids, id, from + 1);
    }
}

proof fn lemma_insert_desc_at(s: Seq<int>, x: int, p: int)
    requires
        0 <= p <= s.len(),
        forall|i: int| 0 <= i < p ==> s[i] > x,
        p < s.len() ==> s[p] <= x,
    ensures
        insert_desc(s, x) == (if p < s.len() && s[p] == x {
            s
        } else {
            s.take(p) + seq![x] + s.skip(p)
        }),
    decreases s.len(),
{
    if s.len() == 0 {
        assert(s.take(p) + seq![x] + s.skip(p) =~= seq![x]);
    } else if p == 0 {
        assert(s.take(p) + seq![x] + s.skip(p) =~= seq![x] + s);
    } else {
        let t = s.drop_first();
        assert forall|i: int| 0 <= i < p - 1 implies t[i] > x by {
            assert(t[i] == s[i + 1]);
        }
        lemma_insert_desc_at(t, x, p - 1);
        if p < s.len() && s[p] == x {
            assert(seq![s[0]] + t =~= s);
        } else {
            assert(seq![s[0]] + (t.take(p - 1) + seq![x] + t.skip(p - 1)) =~= s.take(p) + seq![x]
                + s.skip(p));
        }
    }
}

proof fn lemma_positions_stop(lids: Seq<Seq<char>>, sel: Seq<Seq<char>>, j: int, m: int)
    requires
        0 <= j <= m <= sel.len(),
        positions_of(lids, sel.take(j)) is Err,
    ensures
        positions_of(lids, sel.take(m)) == positions_of(lids, sel.take(j)),
    decreases m - j,
{
    if m > j {
        lemma_positions_stop(lids, sel, j, m - 1);
        assert(sel.take(m).drop_last() =~= sel.take(m - 1));
    }
}

proof fn lemma_desc_bound(order: Seq<usize>, r: int, n: int)
    requires
        0 <= r < order.len(),
        forall|a: int, c: int| 0 <= a < c < order.len() ==> order[a] > order[c],
        forall|i: int| 0 <= i < order.len() ==> #[trigger] order[i] < n,
    ensures
        order[r] < n - r,
    decreases r,
{
    if r > 0 {
        lemma_desc_bound(order, r - 1, n);
        assert(order[r - 1] > order[r]);
    }
}

fn position_exec(line_ids: &Vec<String>, id: &str) -> (p: Option<usize>)
    ensures
        match p {
            Some(i) => position_of(ids_view(line_ids@), id@, 0) == Some(i as int),
            None => position_of(ids_view(line_ids@), id@, 0) is None,
        },
{
    let ghost ids = ids_view(line_ids@);
    let mut i: usize = 0;
    while i < line_ids.len()
        invariant
            i <= line_ids.len(),
            ids == ids_view(line_ids@),
            position_of(ids, id@, 0) == position_of(ids, id@, i as int),
        decreases line_ids.len() - i,
    {
        if str_eq(line_ids[i].as_str(), id) {
            return Some(i);
        }
        i = i + 1;
    }
    None
}

/// Deletes the selected entities' lines from a drawing's entity file, whose
/// lines are the entities in order (`line_ids` names them); `blocked` gives,
/// for each entity, its layer when that layer may not be edited. On an error
/// the lines are left as they were.
#[verifier::loop_isolation(false)]
#[verifier::spinoff_prover]
#[verifier::rlimit(40)]
pub fn delete_entity_lines(
    selected: &Vec<String>,
    line_ids: &Vec<String>,
    blocked: &Vec<Option<String>>,
    lines: &mut Vec<RawLine>,
) -> (res: Result<(), EditError>)
    requires
        line_ids@.len() == old(lines)@.len(),
        blocked@.len() == old(lines)@.len(),
    ensures
        match delete_spec(ids_view(selected@), ids_view(line_ids@), blocked@, lines_view(old(lines)@)) {
            Err(e) => res matches Err(x) && x@ == e && final(lines)@ == old(lines)@,
            Ok(ls) => res is Ok && lines_view(final(lines)@) == ls,
        },
{
    match ensure_unique_entity_ids(selected) {
        Err(e) => {
            return Err(e);
        },
        Ok(()) => {},
    }
    let ghost sel = ids_view(selected@);
    let ghost lids = ids_view(line_ids@);
    let n = lines.len();
    // The positions, in selection order.
    let mut positions: Vec<usize> = Vec::new();
    let mut k: usize = 0;
    assert(sel.take(0) =~= Seq::<Seq<char>>::empty());
    assert(positions@.map_values(|p: usize| p as int) =~= Seq::<int>::empty());
    while k < selected.len()
        invariant
            k <= selected.len(),
            positions_of(lids, sel.take(k as int)) == Ok::<Seq<int>, Seq<char>>(
                positions@.map_values(|p: usize| p as int),
            ),
            forall|i: int| 0 <= i < positions@.len() ==> #[trigger] positions@[i] < n,
        decreases selected.len() - k,
    {
        proof {
            assert(sel.take(k + 1).drop_last() =~= sel.take(k as int));
            assert(sel.take(k + 1).last() == sel[k as int]);
        }
        match position_exec(line_ids, selected[k].as_str()) {
            None => {
                proof {
                    lemma_positions_stop(lids, sel, (k + 1) as int, sel.len() as int);
                    assert(sel.take(sel.len() as int) =~= sel);
                }
                return Err(EditError::EntityNotFound(selected[k].clone()));
            },
            Some(p) => {
                proof {
                    lemma_position_bound(lids, sel[k as int], 0);
                }
                let ghost before = positions@;
                positions.push(p);
                assert(positions@.map_values(|q: usize| q as int) =~= before.map_values(
                    |q: usize| q as int,
                ).push(p as int));
            },
        }
        k = k + 1;
    }
    assert(sel.take(selected.len() as int) =~= sel);
    let ghost ps = positions@.map_values(|p: usize| p as int);
    // Sorted from the last line to the first, each once.
    let mut order: Vec<usize> = Vec::new();
    let mut j: usize = 0;
    assert(ps.take(0) =~= Seq::<int>::empty());
    while j < positions.len()
        invariant
            j <= positions.len(),
            order@.map_values(|p: usize| p as int) == sort_desc(ps.take(j as int)),
            forall|a: int, c: int| 0 <= a < c < order@.len() ==> order@[a] > order@[c],
            forall|i: int| 0 <= i < order@.len() ==> #[trigger] order@[i] < n,
        decreases positions.len() - j,
    {
        let x = positions[j];
        let ghost ov = order@.map_values(|p: usize| p as int);
        proof {
            assert(ps.take(j + 1).drop_last() =~= ps.take(j as int));
            assert(ps.take(j + 1).last() == ps[j as int]);
        }
        let mut p: usize = 0;
        while p < order.len() && order[p] > x
            invariant
                p <= order@.len(),
                forall|i: int| 0 <= i < p ==> order@[i] > x,
            decreases order.len() - p,
        {
            p = p + 1;
        }
        proof {
            lemma_insert_desc_at(ov, x as int, p as int);
        }
        if p < order.len() && order[p] == x {
        } else {
            let ghost before = order@;
            order.insert(p, x);
            proof {
                assert(order@.map_values(|q: usize| q as int) =~= ov.take(p as int) + seq![x as int]
                    + ov.skip(p as int));
                assert forall|a: int, c: int| 0 <= a < c < order@.len() implies order@[a] > order@[c] by {
                    if c < p {
                        assert(order@[a] == before[a] && order@[c] == before[c]);
                    } else if c == p {
                        assert(order@[a] == before[a]);
                    } else if a < p {
                        assert(order@[a] == before[a] && order@[c] == before[c - 1]);
                        assert(before[p as int] <= x);
                    } else if a == p {
                        assert(order@[c] == before[c - 1]);
                        assert(before[p as int] < x);
                    } else {
                        assert(order@[a] == before[a - 1] && order@[c] == before[c - 1]);
                    }
                }
                assert forall|i: int| 0 <= i < order@.len() implies #[trigger] order@[i] < n by {
                    if i < p {
                        assert(order@[i] == before[i]);
                    } else if i > p {
                        assert(order@[i] == before[i - 1]);
                    }
                }
            }
        }
        j = j + 1;
    }
    assert(ps.take(positions.len() as int) =~= ps);
    let ghost sorted = sort_desc(ps);
    // Every selected entity's layer must be editable.
    let mut b: usize = 0;
    assert(sorted.skip(0) =~= sorted);
    while b < order.len()
        invariant
            b <= order.len(),
            first_blocked(blocked@, sorted) == first_blocked(blocked@, sorted.skip(b as int)),
        decreases order.len() - b,
    {
        proof {
            assert(sorted.skip(b as int).drop_first() =~= sorted.skip(b + 1));
            assert(sorted.skip(b as int)[0] == order@[b as int] as int);
        }
        match &blocked[order[b]] {
            Some(layer) => {
                return Err(EditError::LayerNotEditable(layer.clone()));
            },
            None => {},
        }
        b = b + 1;
    }
    assert(sorted.skip(order.len() as int) =~= Seq::<int>::empty());
    // Remove the lines, last first.
    let ghost start = lines_view(lines@);
    let mut r: usize = 0;
    assert(sorted.skip(0) =~= sorted);
    while r < order.len()
        invariant
            r <= order.len(),
            lines@.len() == n - r,
            remove_each(start, sorted) == remove_each(lines_view(lines@), sorted.skip(r as int)),
        decreases order.len() - r,
    {
        let p = order[r];
        proof {
            lemma_desc_bound(order@, r as int, n as int);
            assert(sorted.skip(r as int)[0] == p as int);
            assert(sorted.skip(r as int).drop_first() =~= sorted.skip(r + 1));
        }
        remove_raw_line(lines, p);
        assert(lines@.len() == lines_view(lines@).len());
        r = r + 1;
    }
    assert(sorted.skip(order.len() as int) =~= Seq::<int>::empty());
    Ok(())
}

// ---------------------------------------------------------------------------
// Batches
// ---------------------------------------------------------------------------

/// The ids that the operations of a batch returned, in order, or the first
/// operation's error.
pub open spec fn batch_ids(results: Seq<Result<Vec<String>, EditError>>) -> Result<Seq<Seq<char>>, EditErrorV>
    decreases results.len(),
{
    if results.len() == 0 {
        Ok(Seq::empty())
    } else {
        match batch_ids(results.drop_last()) {
            Err(e) => Err(e),
            Ok(ids) => match results.last() {
                Err(e) => Err(e@),
                Ok(v) => Ok(ids + ids_view(v@)),
            },
        }
    }
}

/// A batch must hold at least one operation; it stops at the first operation
/// that fails, and otherwise returns the ids of all of them.
pub open spec fn batch_spec(results: Seq<Result<Vec<String>, EditError>>) -> Result<Seq<Seq<char>>, EditErrorV> {
    if results.len() == 0 {
        Err(EditErrorV::InvalidEntity("batch must contain at least one operation"@))
    } else {
        batch_ids(results)
    }
}

proof fn lemma_batch_stops(results: Seq<Result<Vec<String>, EditError>>, j: int, m: int)
    requires
        0 <= j <= m <= results.len(),
        batch_ids(results.take(j)) is Err,
    ensures
        batch_ids(results.take(m)) == batch_ids(results.take(j)),
    decreases m - j,
{
    if m > j {
        lemma_batch_stops(results, j, m - 1);
        assert(results.take(m).drop_last() =~= results.take(m - 1));
    }
}

/// Combines the results of a batch's operations, run in order until one fails:
/// `results` holds one entry per operation that ran.
#[verifier::loop_isolation(false)]
pub fn combine_batch(results: Vec<Result<Vec<String>, EditError>>) -> (res: Result<Vec<String>, EditError>)
    ensures
        match batch_spec(results@) {
            Err(e) => res matches Err(x) && x@ == e,
            Ok(ids) => res matches Ok(v) && ids_view(v@) == ids,
        },
{
    let ghost all = results@;
    if results.len() == 0 {
        return Err(EditError::InvalidEntity("batch must contain at least one operation".to_owned()));
    }
    let total = results.len();
    let mut rest = results;
    let mut ids: Vec<String> = Vec::new();
    let mut i: usize = 0;
    assert(all.take(0) =~= Seq::<Result<Vec<String>, EditError>>::empty());
    assert(ids_view(ids@) =~= Seq::<Seq<char>>::empty());
    while i < total
        invariant
            i <= total == all.len(),
            rest@ == all.skip(i as int),
            batch_ids(all.take(i as int)) == Ok::<Seq<Seq<char>>, EditErrorV>(ids_view(ids@)),
        decreases total - i,
    {
        proof {
            assert(all.take(i + 1).drop_last() =~= all.take(i as int));
            assert(all.take(i + 1).last() == all[i as int]);
        }
        let item = rest.remove(0);
        assert(item == all[i as int]);
        assert(rest@ =~= all.skip(i + 1));
        match item {
            Err(e) => {
                proof {
                    assert(batch_ids(all.take(i + 1)) == Err::<Seq<Seq<char>>, EditErrorV>(e@));
                    lemma_batch_stops(all, i + 1, all.len() as int);
                    assert(all.take(all.len() as int) =~= all);
                }
                return Err(e);
            },
            Ok(v) => {
                let ghost before = ids_view(ids@);
                let mut t: usize = 0;
                while t < v.len()
                    invariant
                        t <= v.len(),
                        ids_view(ids@) == before + ids_view(v@).take(t as int),
                    decreases v.len() - t,
                {
                    let one = v[t].clone();
                    let ghost prev = ids@;
                    ids.push(one);
                    assert(ids_view(ids@) =~= ids_view(prev).push(v@[t as int]@));
                    assert(ids_view(v@).take(t + 1) =~= ids_view(v@).take(t as int).push(
                        v@[t as int]@,
                    ));
                    assert(ids_view(ids@) =~= before + ids_view(v@).take(t + 1));
                    t = t + 1;
                }
                assert(ids_view(v@).take(v.len() as int) =~= ids_view(v@));
            },
        }
        i = i + 1;
    }
    assert(all.take(total as int) =~= all);
    Ok(ids)
}

// ---------------------------------------------------------------------------
// Revisions
// ---------------------------------------------------------------------------

/// What `blake3::hash(bytes).to_hex()` spells: the BLAKE3 digest of the bytes
/// in lowercase hexadecimal.
pub uninterp spec fn blake3_hex(bytes: Seq<u8>) -> Seq<char>;

pub open spec fn is_lower_hex(c: char) -> bool {
    ('0' <= c && c <= '9') || ('a' <= c && c <= 'f')
}

/// Calls `blake3::hash` and `Hash::to_hex`. The contract claims that the
/// result is the one named by `blake3_hex` and, as `to_hex` writes it, 64
/// lowercase hexadecimal digits; which digits is not stated.
#[verifier::external_body]
pub(crate) fn revision(bytes: &[u8]) -> (hex: String)
    ensures
        hex@ == blake3_hex(bytes@),
        hex@.len() == 64,
        forall|i: int| 0 <= i < 64 ==> is_lower_hex(#[trigger] hex@[i]),
{
    blake3::hash(bytes).to_hex().to_string()
}

/// The bytes of ASCII text.
pub open spec fn ascii_bytes(s: Seq<char>) -> Seq<u8> {
    s.map_values(|c: char| c as u8)
}

fn push_ascii(out: &mut Vec<u8>, text: &str)
    requires
        forall|i: int| 0 <= i < text@.len() ==> (#[trigger] text@[i] as u32) < 0x80,
    ensures
        final(out)@ == old(out)@ + ascii_bytes(text@),
{
    let chars = chars_of(text);
    let ghost start = out@;
    let mut i: usize = 0;
    while i < chars.len()
        invariant
            chars@ == text@,
            i <= chars.len(),
            forall|k: int| 0 <= k < text@.len() ==> (#[trigger] text@[k] as u32) < 0x80,
            out@ =~= start + ascii_bytes(text@).subrange(0, i as int),
        decreases chars.len() - i,
    {
        let c = chars[i];
        assert((c as u32) < 0x80);
        out.push(c as u8);
        i = i + 1;
    }
}

/// The revision of a block: the digest of the definition's digest, a colon
/// and the entities' digest.
pub open spec fn block_revision_spec(definition: Seq<u8>, entities: Seq<u8>) -> Seq<char> {
    blake3_hex(ascii_bytes(blake3_hex(definition) + ":"@ + blake3_hex(entities)))
}

pub fn block_revision(definition: &[u8], entities: &[u8]) -> (rev: String)
    ensures
        rev@ == block_revision_spec(definition@, entities@),
{
    let d = revision(definition);
    let e = revision(entities);
    let mut bytes: Vec<u8> = Vec::new();
    proof {
        reveal_strlit(":");
    }
    push_ascii(&mut bytes, d.as_str());
    push_ascii(&mut bytes, ":");
    push_ascii(&mut bytes, e.as_str());
    assert(bytes@ =~= ascii_bytes(d@ + ":"@ + e@));
    revision(bytes.as_slice())
}

/// The revision of a block's contents from the reads of its
/// `definition.toml` and `entities.ndjson`: the block revision of their bytes
/// when both exist, else the error that the block does not exist.
pub fn block_content_revision(
    block: &str,
    definition: &HistoryFileInput,
    entities: &HistoryFileInput,
) -> (res: Result<String, EditError>)
    ensures
        match res {
            Ok(rev) => definition.exists && entities.exists && rev@ == block_revision_spec(
                definition.bytes@,
                entities.bytes@,
            ),
            Err(e) => !(definition.exists && entities.exists) && e@ == EditErrorV::InvalidEntity(
                "block "@ + debug_str(block@) + " does not exist"@,
            ),
        },
{
    if !entities.exists || !definition.exists {
        let quoted = debug_quoted(block);
        return Err(EditError::InvalidEntity(concat3("block ", quoted.as_str(), " does not exist")));
    }
    Ok(block_revision(definition.bytes.as_slice(), entities.bytes.as_slice()))
}

/// Two history files match when both exist or both are missing and their
/// bytes have the same revision.
pub fn history_file_matches(left: &HistoryFileInput, right: &HistoryFileInput) -> (same: bool)
    ensures
        same == (left.exists == right.exists && blake3_hex(left.bytes@) == blake3_hex(
            right.bytes@,
        )),
{
    if left.exists != right.exists {
        return false;
    }
    let a = revision(left.bytes.as_slice());
    let b = revision(right.bytes.as_slice());
    str_eq(a.as_str(), b.as_str())
}

} // verus!
