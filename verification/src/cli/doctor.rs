//! The checks of `cortx doctor`: file names that drifted from titles, names
//! that differ only in case, link fields not written as wikilinks, body
//! wikilinks, and the outcome of a run.

use vstd::prelude::*;
use crate::error::CortxError;
use crate::fields::Frontmatter;
use crate::name_map::NameMap;
use crate::schema::types::TypeDefinition;
use crate::slug::{sanitize_title, sanitized};
use crate::text::{
    chars_of, contains_seq, find_chars, first_occurrence, lowercase, slice_chars, str_equal,
    string_of, to_lowercase, trim, trim_chars, usize_to_text,
};
use crate::value::{Value, ValueV};
use crate::storage::markdown::{back_ref_repair, has_back_ref, points_back, repaired_back_ref};
use crate::wikilink::{is_wrapped, link_field, spec_is_wrapped, wrap, wrap_fields, wrap_text};

verus! {

/// The doctor commands.
#[derive(Debug)]
pub enum DoctorCommands {
    /// Validate all files against schemas.
    Validate,
    /// Check bidirectional relation consistency; `fix` repairs missing inverses.
    Links { fix: bool },
    /// Check filename/title drift, case-insensitive collisions, and wikilink format.
    Filenames { fix: bool, check_bodies: bool },
}

/// The arguments of `cortx doctor`.
#[derive(Debug)]
pub struct DoctorArgs {
    pub command: DoctorCommands,
}

/// The wikilink titles of a body from `rest` on: each `[[...]]` in turn,
/// its content trimmed, skipping piped and blank ones; an opening `[[`
/// without a closing `]]` ends the search.
pub open spec fn body_links(rest: Seq<char>) -> Seq<Seq<char>>
    decreases rest.len(),
{
    match first_occurrence(rest, "[["@) {
        None => Seq::empty(),
        Some(start) => {
            let after = rest.subrange(start + 2, rest.len() as int);
            match first_occurrence(after, "]]"@) {
                None => Seq::empty(),
                Some(end) => {
                    let inner = after.subrange(0, end);
                    let tail = after.subrange(end + 2, after.len() as int);
                    if 0 <= start && start + 2 <= rest.len() && 0 <= end && end + 2 <= after.len() {
                        if !inner.contains('|') && trim(inner).len() > 0 {
                            seq![trim(inner)] + body_links(tail)
                        } else {
                            body_links(tail)
                        }
                    } else {
                        Seq::empty()
                    }
                },
            }
        },
    }
}

proof fn lemma_body_links_no_open(rest: Seq<char>)
    requires
        first_occurrence(rest, "[["@) is None,
    ensures
        body_links(rest) == Seq::<Seq<char>>::empty(),
{
    reveal(body_links);
}

proof fn lemma_body_links_no_close(rest: Seq<char>, start: int)
    requires
        first_occurrence(rest, "[["@) == Some(start),
        0 <= start,
        start + 2 <= rest.len(),
        first_occurrence(rest.subrange(start + 2, rest.len() as int), "]]"@) is None,
    ensures
        body_links(rest) == Seq::<Seq<char>>::empty(),
{
    reveal(body_links);
}

proof fn lemma_body_links_step(rest: Seq<char>, start: int, end: int)
    requires
        first_occurrence(rest, "[["@) == Some(start),
        0 <= start,
        start + 2 <= rest.len(),
        first_occurrence(rest.subrange(start + 2, rest.len() as int), "]]"@) == Some(end),
        0 <= end,
        end + 2 <= rest.len() - (start + 2),
    ensures
        ({
            let after = rest.subrange(start + 2, rest.len() as int);
            let inner = after.subrange(0, end);
            let tail = after.subrange(end + 2, after.len() as int);
            body_links(rest) == if !inner.contains('|') && trim(inner).len() > 0 {
                seq![trim(inner)] + body_links(tail)
            } else {
                body_links(tail)
            }
        }),
{
    reveal(body_links);
}

/// The next `[[...]]` of a text: its title (if it names one) and the text
/// after it; `None` when there is none.
fn next_link(rest: &Vec<char>) -> (r: (Vec<String>, Option<Vec<char>>))
    ensures
        match r.1 {
            None => body_links(rest@) == crate::text::texts(r.0@) && r.0@.len() == 0,
            Some(tail) => tail@.len() < rest@.len() && body_links(rest@) == crate::text::texts(r.0@)
                + body_links(tail@),
        },
{
    proof {
        reveal_strlit("[[");
        reveal_strlit("]]");
    }
    let open = chars_of("[[");
    let close = chars_of("]]");
    let n = rest.len();
    let start = match find_chars(rest.as_slice(), open.as_slice()) {
        Some(s) => s,
        None => {
            proof {
                lemma_body_links_no_open(rest@);
            }
            let v: Vec<String> = Vec::new();
            assert(crate::text::texts(v@) =~= Seq::<Seq<char>>::empty());
            return (v, None);
        },
    };
    proof {
        crate::text::lemma_first_occurrence_occurs(rest@, open@);
    }
    let after = slice_chars(rest.as_slice(), start + 2, n);
    let end = match find_chars(after.as_slice(), close.as_slice()) {
        Some(e) => e,
        None => {
            proof {
                lemma_body_links_no_close(rest@, start as int);
            }
            let v: Vec<String> = Vec::new();
            assert(crate::text::texts(v@) =~= Seq::<Seq<char>>::empty());
            return (v, None);
        },
    };
    proof {
        crate::text::lemma_first_occurrence_occurs(after@, close@);
        lemma_body_links_step(rest@, start as int, end as int);
    }
    let inner = slice_chars(after.as_slice(), 0, end);
    let tail = slice_chars(after.as_slice(), end + 2, after.len());
    let t = trim_chars(inner.as_slice());
    if !crate::text::has_char(inner.as_slice(), '|') && t.len() > 0 {
        let title = string_of(t.as_slice());
        let mut v: Vec<String> = Vec::new();
        v.push(title);
        assert(crate::text::texts(v@) =~= seq![trim(inner@)]);
        (v, Some(tail))
    } else {
        let v: Vec<String> = Vec::new();
        assert(crate::text::texts(v@) =~= Seq::<Seq<char>>::empty());
        assert(crate::text::texts(v@) + body_links(tail@) =~= body_links(tail@));
        (v, Some(tail))
    }
}

fn links_from(rest: &Vec<char>) -> (r: Vec<String>)
    ensures
        crate::text::texts(r@) == body_links(rest@),
    decreases rest@.len(),
{
    let (mut found, next) = next_link(rest);
    match next {
        None => found,
        Some(tail) => {
            let mut more = links_from(&tail);
            let ghost fv = found@;
            let ghost mv = more@;
            found.append(&mut more);
            proof {
                lemma_texts_concat(fv, mv);
            }
            found
        },
    }
}

/// The wikilink titles of a body.
pub fn extract_body_wikilinks(body: &str) -> (r: Vec<String>)
    ensures
        crate::text::texts(r@) == body_links(body@),
{
    let v = chars_of(body);
    links_from(&v)
}

proof fn lemma_texts_concat(a: Seq<String>, b: Seq<String>)
    ensures
        crate::text::texts(a + b) == crate::text::texts(a) + crate::text::texts(b),
{
    assert(crate::text::texts(a + b) =~= crate::text::texts(a) + crate::text::texts(b));
}

/// The file stem that a frontmatter's title asks for, when it has a
/// non-empty string title and the stem differs from it.
pub open spec fn drifted(stem: Seq<char>, fm: Map<Seq<char>, ValueV>) -> Option<Seq<char>> {
    let title = if fm.contains_key("title"@) && fm["title"@] is Str {
        fm["title"@]->Str_0
    } else {
        Seq::empty()
    };
    if title.len() > 0 && sanitized(title) != stem {
        Some(sanitized(title))
    } else {
        None
    }
}

/// The stem a file should have when its title has drifted from its stem.
pub fn drift(stem: &str, fm: &Frontmatter) -> (r: Option<String>)
    ensures
        match drifted(stem@, fm@) {
            Some(e) => r matches Some(x) && x@ == e,
            None => r is None,
        },
{
    proof {
        reveal_strlit("");
    }
    let title: &str = match fm.get("title") {
        Some(Value::String(t)) => t.as_str(),
        _ => "",
    };
    proof {
        assert(""@ =~= Seq::<char>::empty());
    }
    if str_equal(title, "") {
        return None;
    }
    assert(title@.len() > 0) by {
        if title@.len() == 0 {
            assert(title@ =~= ""@);
        }
    }
    let expected = sanitize_title(title);
    if str_equal(expected.as_str(), stem) {
        None
    } else {
        Some(expected)
    }
}

/// A text of a link field that is not written as a wikilink.
#[derive(Debug)]
pub struct LinkFormatIssue {
    /// The field.
    pub field: String,
    /// The text.
    pub text: String,
    /// Whether the text is an item of an array.
    pub in_array: bool,
}

/// Whether a text of a link field is not written as a wikilink.
pub open spec fn bare(s: Seq<char>) -> bool {
    s.len() > 0 && !spec_is_wrapped(s)
}

/// The bare texts of a link value, each with whether it is an array item.
pub open spec fn bare_texts(v: ValueV) -> Seq<(Seq<char>, bool)> {
    match v {
        ValueV::Str(s) => if bare(s) {
            seq![(s, false)]
        } else {
            Seq::empty()
        },
        ValueV::Arr(x) => bare_items(x, x.len() as int),
        _ => Seq::empty(),
    }
}

/// The bare texts among the first `n` items of an array.
pub open spec fn bare_items(x: Seq<ValueV>, n: int) -> Seq<(Seq<char>, bool)>
    decreases n,
{
    if n <= 0 || n > x.len() {
        Seq::empty()
    } else {
        match x[n - 1] {
            ValueV::Str(s) => if bare(s) {
                bare_items(x, n - 1).push((s, true))
            } else {
                bare_items(x, n - 1)
            },
            _ => bare_items(x, n - 1),
        }
    }
}

/// The bare texts of the link fields among the first `n` fields of a type
/// (in the type's order) that a frontmatter fills.
pub open spec fn bare_links(names: Seq<Seq<char>>, td: crate::schema::types::TypeDefV, fm: Map<Seq<char>, ValueV>, n: int) -> Seq<(Seq<char>, Seq<char>, bool)>
    decreases n,
{
    if n <= 0 || n > names.len() {
        Seq::empty()
    } else {
        let k = names[n - 1];
        let rest = bare_links(names, td, fm, n - 1);
        if link_field(td, k) && fm.contains_key(k) {
            rest + bare_texts(fm[k]).map_values(|p: (Seq<char>, bool)| (k, p.0, p.1))
        } else {
            rest
        }
    }
}

/// The views of a list of issues.
pub open spec fn issues_view(v: Seq<LinkFormatIssue>) -> Seq<(Seq<char>, Seq<char>, bool)> {
    v.map_values(|i: LinkFormatIssue| (i.field@, i.text@, i.in_array))
}

fn bare_in(field: &str, v: &Value, out: &mut Vec<LinkFormatIssue>)
    ensures
        issues_view(final(out)@) == issues_view(old(out)@) + bare_texts(v@).map_values(
            |p: (Seq<char>, bool)| (field@, p.0, p.1),
        ),
{
    proof {
        reveal_strlit("");
    }
    match v {
        Value::String(s) => {
            if !str_equal(s.as_str(), "") && !is_wrapped(s.as_str()) {
                proof {
                    if s@.len() == 0 {
                        assert(s@ =~= ""@);
                    }
                }
                let ghost before = issues_view(out@);
                out.push(LinkFormatIssue { field: field.to_owned(), text: s.clone(), in_array: false });
                assert(issues_view(out@) =~= before + seq![(s@, false)].map_values(
                    |p: (Seq<char>, bool)| (field@, p.0, p.1),
                ));
            } else {
                assert(bare_texts(v@) =~= Seq::<(Seq<char>, bool)>::empty());
                assert(issues_view(out@) =~= issues_view(out@) + bare_texts(v@).map_values(
                    |p: (Seq<char>, bool)| (field@, p.0, p.1),
                ));
            }
        },
        Value::Array(items) => {
            let ghost x = v@->Arr_0;
            let ghost start = issues_view(out@);
            let mut i: usize = 0;
            while i < items.len()
                invariant
                    i <= items@.len(),
                    *v == Value::Array(*items),
                    x == v@->Arr_0,
                    x.len() == items@.len(),
                    issues_view(out@) == start + bare_items(x, i as int).map_values(
                        |p: (Seq<char>, bool)| (field@, p.0, p.1),
                    ),
                decreases items@.len() - i,
            {
                proof {
                    reveal_strlit("");
                    assert(""@ =~= Seq::<char>::empty());
                }
                assert(x[i as int] == items@[i as int]@);
                match &items[i] {
                    Value::String(s) => {
                        if !str_equal(s.as_str(), "") && !is_wrapped(s.as_str()) {
                            proof {
                                if s@.len() == 0 {
                                    assert(s@ =~= ""@);
                                }
                            }
                            let ghost before = issues_view(out@);
                            out.push(
                                LinkFormatIssue { field: field.to_owned(), text: s.clone(), in_array: true },
                            );
                            assert(bare_items(x, i + 1) == bare_items(x, i as int).push((s@, true)));
                            assert(issues_view(out@) =~= before.push((field@, s@, true)));
                            assert(bare_items(x, i + 1).map_values(
                                |p: (Seq<char>, bool)| (field@, p.0, p.1),
                            ) =~= bare_items(x, i as int).map_values(
                                |p: (Seq<char>, bool)| (field@, p.0, p.1),
                            ).push((field@, s@, true)));
                        } else {
                            assert(bare_items(x, i + 1) == bare_items(x, i as int));
                        }
                    },
                    _ => {
                        assert(bare_items(x, i + 1) == bare_items(x, i as int));
                    },
                }
                i += 1;
            }
        },
        _ => {
            assert(issues_view(out@) =~= issues_view(out@) + bare_texts(v@).map_values(
                |p: (Seq<char>, bool)| (field@, p.0, p.1),
            ));
        },
    }
}

/// The link fields of a frontmatter (as it stands in a file) whose texts
/// are not written as wikilinks, in the type's order of fields; with `fix`,
/// those texts are wrapped, as they are before a write.
pub fn check_link_format(fm: &mut Frontmatter, type_def: &TypeDefinition, fix: bool) -> (r: Vec<
    LinkFormatIssue,
>)
    ensures
        issues_view(r@) == bare_links(
            type_def.fields.name_list(),
            type_def@,
            old(fm)@,
            type_def.fields.name_list().len() as int,
        ),
        fix ==> final(fm)@ == wrap_fields(type_def@, old(fm)@),
        !fix ==> final(fm)@ == old(fm)@,
{
    let mut out: Vec<LinkFormatIssue> = Vec::new();
    type_def.fields.name_facts();
    let n = type_def.fields.len();
    let ghost names = type_def.fields.name_list();
    let mut i: usize = 0;
    while i < n
        invariant
            i <= n,
            n == names.len(),
            names == type_def.fields.name_list(),
            fm@ == old(fm)@,
            issues_view(out@) == bare_links(names, type_def@, fm@, i as int),
        decreases n - i,
    {
        let (name, def) = type_def.fields.entry_at(i);
        if def.field_type.is_link() {
            match fm.get(name) {
                Some(v) => {
                    bare_in(name, v, &mut out);
                },
                None => {},
            }
        }
        i += 1;
    }
    if fix {
        crate::wikilink::wrap_frontmatter(fm, type_def);
    }
    out
}

/// Remembers the lower-case stem of a file and tells whether another file
/// with the same stem up to case was seen before: then it gives that
/// file's path, and keeps the first one.
pub fn observe_stem(seen: &mut NameMap<String>, stem: &str, path: &str) -> (r: Option<String>)
    ensures
        old(seen)@.contains_key(lowercase(stem@)) ==> final(seen)@ == old(seen)@ && (if old(
            seen,
        )@[lowercase(stem@)]@ != path@ {
            r matches Some(p) && p@ == old(seen)@[lowercase(stem@)]@
        } else {
            r is None
        }),
        !old(seen)@.contains_key(lowercase(stem@)) ==> r is None && exists|p: String|
            p@ == path@ && final(seen)@ == old(seen)@.insert(lowercase(stem@), p),
{
    let lower = to_lowercase(stem);
    match seen.get(lower.as_str()) {
        Some(prev) => {
            if str_equal(prev.as_str(), path) {
                None
            } else {
                Some(prev.clone())
            }
        },
        None => {
            seen.insert(lower, path.to_owned());
            None
        },
    }
}

/// What `doctor links` finds of one link to a referenced entity.
#[derive(Debug)]
pub enum LinkFinding {
    /// The referenced entity does not exist.
    Dangling,
    /// The referenced entity points back.
    Consistent,
    /// The referenced entity does not point back; with `--fix`, the value
    /// its inverse field is to be given.
    MissingInverse { repair: Option<Value> },
}

/// Checks one link of the entity `owning_id` against the referenced
/// entity's frontmatter (`None` where that entity does not exist).
pub fn check_back_ref(
    ref_fm: Option<&Frontmatter>,
    inverse_field: &str,
    inverse_one: bool,
    owning_id: &str,
    fix: bool,
) -> (r: LinkFinding)
    ensures
        match ref_fm {
            None => r is Dangling,
            Some(fm) => if points_back(fm@, inverse_field@, inverse_one, owning_id@) {
                r is Consistent
            } else {
                r matches LinkFinding::MissingInverse { repair } && (fix ==> (repair matches Some(v)
                    && v@ == repaired_back_ref(fm@, inverse_field@, inverse_one, owning_id@)))
                    && (!fix ==> repair is None)
            },
        },
{
    match ref_fm {
        None => LinkFinding::Dangling,
        Some(fm) => {
            if has_back_ref(fm, inverse_field, inverse_one, owning_id) {
                LinkFinding::Consistent
            } else if fix {
                LinkFinding::MissingInverse {
                    repair: Some(back_ref_repair(fm, inverse_field, inverse_one, owning_id)),
                }
            } else {
                LinkFinding::MissingInverse { repair: None }
            }
        },
    }
}

/// The outcome of a doctor check that found `issues` problems: none, or
/// repairs asked for, is a success; otherwise a validation error that
/// counts them, with `what` naming them.
pub open spec fn check_outcome(issues: nat, fix: bool, what: Seq<char>) -> Result<(), Seq<char>> {
    if issues == 0 || fix {
        Ok(())
    } else {
        Err(crate::text::decimal(issues) + " "@ + what)
    }
}

fn outcome(issues: usize, fix: bool, what: &str) -> (r: Result<(), CortxError>)
    ensures
        match check_outcome(issues as nat, fix, what@) {
            Ok(()) => r is Ok,
            Err(m) => r matches Err(CortxError::Validation(e)) && e@ == m,
        },
{
    if issues == 0 || fix {
        Ok(())
    } else {
        let mut m = usize_to_text(issues);
        m.append(" ");
        m.append(what);
        Err(CortxError::Validation(m))
    }
}

/// The outcome of `doctor links`.
pub fn links_outcome(issues: usize, fix: bool) -> (r: Result<(), CortxError>)
    ensures
        match check_outcome(issues as nat, fix, "relation inconsistency/ies"@) {
            Ok(()) => r is Ok,
            Err(m) => r matches Err(CortxError::Validation(e)) && e@ == m,
        },
{
    outcome(issues, fix, "relation inconsistency/ies")
}

/// The outcome of `doctor filenames`.
pub fn filenames_outcome(issues: usize, fix: bool) -> (r: Result<(), CortxError>)
    ensures
        match check_outcome(issues as nat, fix, "filename/wikilink issue(s)"@) {
            Ok(()) => r is Ok,
            Err(m) => r matches Err(CortxError::Validation(e)) && e@ == m,
        },
{
    outcome(issues, fix, "filename/wikilink issue(s)")
}

} // verus!
