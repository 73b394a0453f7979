//! Editing the Markdown body of a note: its headings, insertion after a
//! heading, named blocks, and line ranges.

use vstd::prelude::*;
use crate::error::CortxError;
use crate::text::{
    chars_of, find_chars, first_occurrence, join, join_strings, lines, lines_of, slice_chars,
    str_equal, string_of, texts, trim, trim_str,
};

verus! {

/// The note commands.
#[derive(Debug)]
pub enum NoteCommands {
    /// List headings in a note.
    Headings { id: String },
    /// Insert content after a heading.
    InsertAfterHeading { id: String, heading: String, content: String },
    /// Replace a named block.
    ReplaceBlock { id: String, block_id: String, content: String },
    /// Read specific lines.
    ReadLines { id: String, start: usize, end: usize },
}

/// The arguments of `cortx note`.
#[derive(Debug)]
pub struct NoteArgs {
    pub command: NoteCommands,
}

/// The headings among the first `n` lines: each line that starts with `#`,
/// with its line number counted from one.
pub open spec fn headings_in(ls: Seq<Seq<char>>, n: int) -> Seq<(int, Seq<char>)>
    decreases n,
{
    if n <= 0 || n > ls.len() {
        Seq::empty()
    } else if ls[n - 1].len() > 0 && ls[n - 1][0] == '#' {
        headings_in(ls, n - 1).push((n, ls[n - 1]))
    } else {
        headings_in(ls, n - 1)
    }
}

/// The line numbers and texts of a list of numbered lines.
pub open spec fn numbered_view(v: Seq<(usize, String)>) -> Seq<(int, Seq<char>)> {
    v.map_values(|p: (usize, String)| (p.0 as int, p.1@))
}

/// The headings of a body, with their line numbers.
pub fn extract_headings(body: &str) -> (r: Vec<(usize, String)>)
    ensures
        numbered_view(r@) == headings_in(lines_of(body@), lines_of(body@).len() as int),
{
    let ls = lines(body);
    let ghost lv = texts(ls@);
    let mut r: Vec<(usize, String)> = Vec::new();
    let mut i: usize = 0;
    while i < ls.len()
        invariant
            i <= ls@.len(),
            lv == texts(ls@),
            lv == lines_of(body@),
            numbered_view(r@) == headings_in(lv, i as int),
        decreases ls@.len() - i,
    {
        let v = chars_of(ls[i].as_str());
        assert(v@ == lv[i as int]);
        if v.len() > 0 && v[0] == '#' {
            let ghost before = numbered_view(r@);
            r.push((i + 1, ls[i].clone()));
            assert(numbered_view(r@) =~= before.push(((i + 1) as int, lv[i as int])));
        }
        i += 1;
    }
    r
}

/// The index of the first line from `i` on that, trimmed, is the trimmed
/// heading.
pub open spec fn heading_from(ls: Seq<Seq<char>>, heading: Seq<char>, i: int) -> Option<int>
    decreases ls.len() - i,
{
    if i < 0 || i >= ls.len() {
        None
    } else if trim(ls[i]) == trim(heading) {
        Some(i)
    } else {
        heading_from(ls, heading, i + 1)
    }
}

/// The heading search finds the first matching line: from `i` on, the
/// line it gives matches the heading (both trimmed) and no line before it
/// does; where it finds none, no line from `i` on matches.
pub proof fn lemma_heading_from_first(ls: Seq<Seq<char>>, heading: Seq<char>, i: int)
    requires
        0 <= i,
    ensures
        heading_from(ls, heading, i) matches Some(idx) ==> i <= idx < ls.len() && trim(ls[idx])
            == trim(heading) && forall|j: int| i <= j < idx ==> trim(#[trigger] ls[j]) != trim(heading),
        heading_from(ls, heading, i) is None ==> forall|j: int|
            i <= j < ls.len() ==> trim(#[trigger] ls[j]) != trim(heading),
    decreases ls.len() - i,
{
    if i < ls.len() && trim(ls[i]) != trim(heading) {
        lemma_heading_from_first(ls, heading, i + 1);
    }
}

/// The body with `content` as a line of its own after line `idx`, its
/// lines joined by newlines and ended by one.
pub open spec fn inserted_after(ls: Seq<Seq<char>>, idx: int, content: Seq<char>) -> Seq<char> {
    join(ls.take(idx + 1).push(content) + ls.skip(idx + 1), "\n"@) + "\n"@
}

/// Inserts `content` as a line after the first line that matches `heading`
/// (both trimmed). A heading that no line matches is a storage error.
pub fn insert_after_heading(body: &str, heading: &str, content: &str) -> (r: Result<
    String,
    CortxError,
>)
    ensures
        match heading_from(lines_of(body@), heading@, 0) {
            Some(idx) => r matches Ok(s) && s@ == inserted_after(lines_of(body@), idx, content@),
            None => r matches Err(CortxError::Storage(m)) && m@ == "heading '"@ + heading@
                + "' not found"@,
        },
        r matches Ok(s) ==> exists|idx: int|
            0 <= idx < lines_of(body@).len() && trim(#[trigger] lines_of(body@)[idx]) == trim(heading@)
                && (forall|j: int| 0 <= j < idx ==> trim(#[trigger] lines_of(body@)[j]) != trim(heading@))
                && s@ == inserted_after(lines_of(body@), idx, content@),
        r is Err <==> forall|j: int|
            0 <= j < lines_of(body@).len() ==> trim(#[trigger] lines_of(body@)[j]) != trim(heading@),
{
    proof {
        lemma_heading_from_first(lines_of(body@), heading@, 0);
    }
    let ls = lines(body);
    let ghost lv = texts(ls@);
    let target = trim_str(heading);
    let mut idx: usize = 0;
    while idx < ls.len() && !str_equal(trim_str(ls[idx].as_str()).as_str(), target.as_str())
        invariant
            idx <= ls@.len(),
            lv == texts(ls@),
            target@ == trim(heading@),
            heading_from(lv, heading@, 0) == heading_from(lv, heading@, idx as int),
        decreases ls@.len() - idx,
    {
        assert(ls@[idx as int]@ == lv[idx as int]);
        idx += 1;
    }
    if idx < ls.len() {
        assert(ls@[idx as int]@ == lv[idx as int]);
    }
    if idx == ls.len() {
        let mut m = "heading '".to_owned();
        m.append(heading);
        m.append("' not found");
        return Err(CortxError::Storage(m));
    }
    let mut out: Vec<String> = Vec::new();
    let mut i: usize = 0;
    while i < ls.len()
        invariant
            i <= ls@.len(),
            idx < ls@.len(),
            lv == texts(ls@),
            i <= idx ==> texts(out@) == lv.take(i as int),
            i > idx ==> texts(out@) == lv.take(idx + 1).push(content@) + lv.subrange(
                idx + 1,
                i as int,
            ),
        decreases ls@.len() - i,
    {
        let ghost before = texts(out@);
        out.push(ls[i].clone());
        if i == idx {
            out.push(content.to_owned());
            assert(texts(out@) =~= lv.take(idx + 1).push(content@) + lv.subrange(
                idx + 1,
                i + 1,
            ));
        } else if i < idx {
            assert(texts(out@) =~= lv.take(i + 1));
        } else {
            assert(texts(out@) =~= before.push(lv[i as int]));
            assert(lv.subrange(idx + 1, i + 1) =~= lv.subrange(idx + 1, i as int).push(lv[i as int]));
            assert(texts(out@) =~= lv.take(idx + 1).push(content@) + lv.subrange(idx + 1, i + 1));
        }
        i += 1;
    }
    assert(lv.subrange(idx + 1, lv.len() as int) =~= lv.skip(idx + 1));
    let mut s = join_strings(&out, "\n");
    s.append("\n");
    Ok(s)
}

/// The opening tag of a named block.
pub open spec fn open_tag(id: Seq<char>) -> Seq<char> {
    "<!-- block:id="@ + id + " -->"@
}

/// The closing tag of a named block.
pub open spec fn close_tag(id: Seq<char>) -> Seq<char> {
    "<!-- /block:id="@ + id + " -->"@
}

/// Replaces what lies between the first opening tag of the block and the
/// first closing tag with `content` on lines of its own. A missing opening
/// or closing tag is a storage error.
pub fn replace_block(body: &str, block_id: &str, content: &str) -> (r: Result<String, CortxError>)
    ensures
        match (first_occurrence(body@, open_tag(block_id@)), first_occurrence(
            body@,
            close_tag(block_id@),
        )) {
            (Some(o), Some(c)) => r matches Ok(s) && s@ == body@.subrange(
                0,
                o + open_tag(block_id@).len(),
            ) + "\n"@ + content@ + "\n"@ + body@.subrange(c, body@.len() as int),
            (None, _) => r matches Err(CortxError::Storage(m)) && m@ == "block '"@ + block_id@
                + "' not found"@,
            (Some(_), None) => r matches Err(CortxError::Storage(m)) && m@
                == "closing tag for block '"@ + block_id@ + "' not found"@,
        },
{
    let mut open = "<!-- block:id=".to_owned();
    open.append(block_id);
    open.append(" -->");
    let mut close = "<!-- /block:id=".to_owned();
    close.append(block_id);
    close.append(" -->");
    let b = chars_of(body);
    let ov = chars_of(open.as_str());
    let cv = chars_of(close.as_str());
    let o = match find_chars(b.as_slice(), ov.as_slice()) {
        Some(o) => o,
        None => {
            let mut m = "block '".to_owned();
            m.append(block_id);
            m.append("' not found");
            return Err(CortxError::Storage(m));
        },
    };
    let c = match find_chars(b.as_slice(), cv.as_slice()) {
        Some(c) => c,
        None => {
            let mut m = "closing tag for block '".to_owned();
            m.append(block_id);
            m.append("' not found");
            return Err(CortxError::Storage(m));
        },
    };
    proof {
        crate::text::lemma_first_occurrence_occurs(b@, ov@);
        crate::text::lemma_first_occurrence_occurs(b@, cv@);
    }
    let bl = b.len();
    assert(o + ov@.len() <= bl);
    let before = slice_chars(b.as_slice(), 0, o + ov.len());
    let after = slice_chars(b.as_slice(), c, b.len());
    let mut s = string_of(before.as_slice());
    s.append("\n");
    s.append(content);
    s.append("\n");
    let a = string_of(after.as_slice());
    s.append(a.as_str());
    Ok(s)
}

/// The index of the first line that `read-lines` shows: `start` counts
/// from one, and zero counts as one.
pub open spec fn first_shown(start: int) -> int {
    if start == 0 {
        0
    } else {
        start - 1
    }
}

/// The index after the last line that `read-lines` shows.
pub open spec fn end_shown(end: int, n: int) -> int {
    if end < n {
        end
    } else {
        n
    }
}

/// Whether `read-lines` can show the range: its first line comes no later
/// than its end.
pub open spec fn range_readable(body: Seq<char>, start: int, end: int) -> bool {
    first_shown(start) <= end_shown(end, lines_of(body).len() as int)
}

/// The lines `start..=end` of a body (counted from one, the end cut at the
/// last line), each with its line number.
pub fn read_lines(body: &str, start: usize, end: usize) -> (r: Vec<(usize, String)>)
    requires
        range_readable(body@, start as int, end as int),
    ensures
        ({
            let ls = lines_of(body@);
            let s = first_shown(start as int);
            let e = end_shown(end as int, ls.len() as int);
            &&& r@.len() == e - s
            &&& forall|i: int|
                0 <= i < r@.len() ==> (#[trigger] r@[i]).0 == s + i + 1 && r@[i].1@ == ls[s + i]
        }),
{
    let ls = lines(body);
    let s: usize = if start == 0 {
        0
    } else {
        start - 1
    };
    let e: usize = if end < ls.len() {
        end
    } else {
        ls.len()
    };
    let mut r: Vec<(usize, String)> = Vec::new();
    let mut i: usize = s;
    while i < e
        invariant
            s <= i <= e <= ls@.len(),
            texts(ls@) == lines_of(body@),
            r@.len() == i - s,
            forall|k: int| 0 <= k < r@.len() ==> (#[trigger] r@[k]).0 == s + k + 1 && r@[k].1@ == ls@[s + k]@,
        decreases e - i,
    {
        r.push((i + 1, ls[i].clone()));
        i += 1;
    }
    proof {
        assert forall|k: int| 0 <= k < r@.len() implies r@[k].1@ == lines_of(body@)[s + k] by {
            assert(texts(ls@)[s + k] == ls@[s + k]@);
        }
    }
    r
}

/// The number of lines of a body.
pub fn line_count(body: &str) -> (r: usize)
    ensures
        r == lines_of(body@).len(),
{
    let ls = lines(body);
    ls.len()
}

} // verus!
