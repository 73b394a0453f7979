//! Renaming an entity: its new id, and the rewriting of the wikilinks that
//! name it in other files.

use vstd::prelude::*;
use crate::error::CortxError;
use crate::fields::Frontmatter;
use crate::schema::types::TypeDefinition;
use crate::slug::{sanitize_title, sanitized};
use crate::text::{
    chars_of, chars_occur_at, first_occurrence, find_chars, has_prefix, lowercase, occurs_at,
    slice_chars, str_equal, string_of, to_lowercase, trim_start,
};
use crate::value::{Date, Value, ValueV};
use crate::wikilink::{link_field, wrap, wrapped};

verus! {

/// The arguments of `cortx rename`.
#[derive(Debug)]
pub struct RenameArgs {
    /// The current title of the entity.
    pub old_title: String,
    /// The new title.
    pub new_title: String,
    /// Show the plan without applying changes.
    pub dry_run: bool,
    /// Skip rewriting body wikilinks (only update frontmatter back-refs).
    pub skip_body: bool,
}

/// The ids that a rename goes between: the sanitized titles. A new title
/// that sanitizes to nothing is refused; when both ids are the same there
/// is nothing to do (`None`).
pub fn rename_ids(old_title: &str, new_title: &str) -> (r: Result<Option<(String, String)>, CortxError>)
    ensures
        sanitized(new_title@).len() == 0 ==> (r matches Err(CortxError::Validation(m)) && m@
            == "new title sanitizes to empty id \u{2014} provide alphanumeric content"@),
        sanitized(new_title@).len() > 0 && sanitized(old_title@) == sanitized(new_title@) ==> r
            matches Ok(None),
        sanitized(new_title@).len() > 0 && sanitized(old_title@) != sanitized(new_title@) ==> (r
            matches Ok(Some((o, n))) && o@ == sanitized(old_title@) && n@ == sanitized(new_title@)),
{
    let old_id = sanitize_title(old_title);
    let new_id = sanitize_title(new_title);
    proof {
        reveal_strlit("");
    }
    if str_equal(new_id.as_str(), "") {
        return Err(
            CortxError::Validation(
                "new title sanitizes to empty id \u{2014} provide alphanumeric content".to_owned(),
            ),
        );
    }
    assert(new_id@.len() > 0) by {
        if new_id@.len() == 0 {
            assert(new_id@ =~= ""@);
        }
    }
    if str_equal(old_id.as_str(), new_id.as_str()) {
        return Ok(None);
    }
    Ok(Some((old_id, new_id)))
}

/// Whether a link value (as it stands in a file) names `target`: it is the
/// wikilink, or an array that holds the wikilink.
pub open spec fn links_to(v: ValueV, target: Seq<char>) -> bool {
    match v {
        ValueV::Str(s) => s == wrapped(target),
        ValueV::Arr(x) => exists|i: int| 0 <= i < x.len() && #[trigger] x[i] == ValueV::Str(wrapped(target)),
        _ => false,
    }
}

/// Whether a link value (as it stands in a file) names the entity
/// `target_id`.
pub fn link_value_matches(val: &Value, target_id: &str) -> (r: bool)
    ensures
        r == links_to(val@, target_id@),
{
    let w = wrap(target_id);
    match val {
        Value::String(s) => str_equal(s.as_str(), w.as_str()),
        Value::Array(items) => {
            let ghost x = val@->Arr_0;
            let mut i: usize = 0;
            while i < items.len()
                invariant
                    i <= items@.len(),
                    *val == Value::Array(*items),
                    x == val@->Arr_0,
                    x.len() == items@.len(),
                    w@ == wrapped(target_id@),
                    forall|k: int| 0 <= k < i ==> x[k] != ValueV::Str(wrapped(target_id@)),
                decreases items@.len() - i,
            {
                assert(x[i as int] == items@[i as int]@);
                let hit = match &items[i] {
                    Value::String(s) => str_equal(s.as_str(), w.as_str()),
                    _ => false,
                };
                if hit {
                    return true;
                }
                i += 1;
            }
            false
        },
        _ => false,
    }
}

/// The first link field of the type (in the type's order) that a
/// frontmatter (as it stands in a file) fills with a wikilink to
/// `old_id`, if any.
pub fn back_ref_field(fm: &Frontmatter, type_def: &TypeDefinition, old_id: &str) -> (r: Option<
    String,
>)
    ensures
        match r {
            Some(f) => link_field(type_def@, f@) && fm@.contains_key(f@) && links_to(fm@[f@], old_id@),
            None => forall|k: Seq<char>|
                link_field(type_def@, k) && fm@.contains_key(k) ==> !links_to(#[trigger] fm@[k], old_id@),
        },
{
    type_def.fields.name_facts();
    let n = type_def.fields.len();
    let mut i: usize = 0;
    while i < n
        invariant
            i <= n,
            n == type_def.fields.name_list().len(),
            forall|j: int|
                0 <= j < i ==> {
                    let k = #[trigger] type_def.fields.name_list()[j];
                    !(link_field(type_def@, k) && fm@.contains_key(k) && links_to(fm@[k], old_id@))
                },
        decreases n - i,
    {
        let (name, def) = type_def.fields.entry_at(i);
        if def.field_type.is_link() {
            match fm.get(name) {
                Some(v) => {
                    if link_value_matches(v, old_id) {
                        return Some(name.to_owned());
                    }
                },
                None => {},
            }
        }
        i += 1;
    }
    proof {
        assert forall|k: Seq<char>|
            link_field(type_def@, k) && fm@.contains_key(k) implies !links_to(
            #[trigger] fm@[k],
            old_id@,
        ) by {
            assert(type_def.fields@.contains_key(k));
            assert(type_def.fields.name_list().contains(k));
            let j = choose|j: int|
                0 <= j < type_def.fields.name_list().len() && type_def.fields.name_list()[j] == k;
            assert(type_def.fields.name_list()[j] == k);
        }
    }
    None
}

/// A link value with each wikilink to `old` made a wikilink to `new`.
pub open spec fn relinked(v: ValueV, old: Seq<char>, new: Seq<char>) -> ValueV {
    match v {
        ValueV::Str(s) => if s == wrapped(old) {
            ValueV::Str(wrapped(new))
        } else {
            v
        },
        ValueV::Arr(x) => ValueV::Arr(
            x.map_values(
                |i: ValueV|
                    if i == ValueV::Str(wrapped(old)) {
                        ValueV::Str(wrapped(new))
                    } else {
                        i
                    },
            ),
        ),
        _ => v,
    }
}

/// The fields of a frontmatter with the wikilinks of its link fields to
/// `old` made wikilinks to `new`.
pub open spec fn relinked_fields(
    td: crate::schema::types::TypeDefV,
    m: Map<Seq<char>, ValueV>,
    old: Seq<char>,
    new: Seq<char>,
) -> Map<Seq<char>, ValueV> {
    Map::new(
        |k: Seq<char>| m.contains_key(k),
        |k: Seq<char>|
            if link_field(td, k) {
                relinked(m[k], old, new)
            } else {
                m[k]
            },
    )
}

fn relink_value(v: &Value, old_w: &str, new_w: &str) -> (r: Value)
    ensures
        forall|o: Seq<char>, n: Seq<char>|
            old_w@ == wrapped(o) && new_w@ == wrapped(n) ==> r@ == relinked(v@, o, n),
{
    match v {
        Value::String(s) => if str_equal(s.as_str(), old_w) {
            Value::String(new_w.to_owned())
        } else {
            Value::String(s.clone())
        },
        Value::Array(items) => {
            let ghost x = v@->Arr_0;
            let mut out: Vec<Value> = Vec::new();
            let mut i: usize = 0;
            while i < items.len()
                invariant
                    i <= items@.len(),
                    *v == Value::Array(*items),
                    x == v@->Arr_0,
                    x.len() == items@.len(),
                    out@.len() == i,
                    forall|k: int|
                        0 <= k < i ==> (#[trigger] out@[k])@ == if x[k] == ValueV::Str(old_w@) {
                            ValueV::Str(new_w@)
                        } else {
                            x[k]
                        },
                decreases items@.len() - i,
            {
                assert(x[i as int] == items@[i as int]@);
                let item = match &items[i] {
                    Value::String(s) => if str_equal(s.as_str(), old_w) {
                        Value::String(new_w.to_owned())
                    } else {
                        Value::String(s.clone())
                    },
                    other => other.clone(),
                };
                out.push(item);
                i += 1;
            }
            let r = Value::Array(out);
            proof {
                assert forall|o: Seq<char>, n: Seq<char>|
                    old_w@ == wrapped(o) && new_w@ == wrapped(n) implies r@ == relinked(
                    v@,
                    o,
                    n,
                ) by {
                    assert(r@->Arr_0 =~= relinked(v@, o, n)->Arr_0);
                }
            }
            r
        },
        other => other.clone(),
    }
}

/// Makes the wikilinks to `old_id` in the link fields of a frontmatter (as
/// it stands in a file) wikilinks to `new_id`.
pub fn rewrite_back_refs(fm: &mut Frontmatter, type_def: &TypeDefinition, old_id: &str, new_id: &str)
    ensures
        final(fm)@ == relinked_fields(type_def@, old(fm)@, old_id@, new_id@),
        final(fm).key_list() == old(fm).key_list(),
{
    let old_w = wrap(old_id);
    let new_w = wrap(new_id);
    let keys = fm.keys();
    let ghost start = fm@;
    let ghost kl = fm.key_list();
    fm.key_list_facts();
    let mut i: usize = 0;
    while i < keys.len()
        invariant
            i <= keys@.len(),
            crate::text::texts(keys@) == kl,
            kl == old(fm).key_list(),
            fm.key_list() == kl,
            start == old(fm)@,
            old_w@ == wrapped(old_id@),
            new_w@ == wrapped(new_id@),
            kl.no_duplicates(),
            forall|k: Seq<char>| start.contains_key(k) <==> kl.contains(k),
            fm@.dom() == start.dom(),
            forall|k: Seq<char>|
                #![trigger fm@[k]]
                fm@.contains_key(k) ==> fm@[k] == if kl.take(i as int).contains(k) && link_field(
                    type_def@,
                    k,
                ) {
                    relinked(start[k], old_id@, new_id@)
                } else {
                    start[k]
                },
        decreases keys@.len() - i,
    {
        let ghost kv = keys@[i as int]@;
        assert(kl[i as int] == kv);
        assert(kl.take(i + 1) =~= kl.take(i as int).push(kv));
        assert(!kl.take(i as int).contains(kv)) by {
            if kl.take(i as int).contains(kv) {
                let j = choose|j: int| 0 <= j < i && kl.take(i as int)[j] == kv;
                assert(kl[j] == kl[i as int]);
            }
        }
        let is_link = match type_def.fields.get(keys[i].as_str()) {
            Some(d) => d.field_type.is_link(),
            None => false,
        };
        if is_link {
            let new_value = match fm.get(keys[i].as_str()) {
                Some(v) => Some(relink_value(v, old_w.as_str(), new_w.as_str())),
                None => None,
            };
            match new_value {
                Some(nv) => {
                    fm.insert(keys[i].clone(), nv);
                },
                None => {},
            }
        }
        proof {
            assert forall|k: Seq<char>| #![trigger fm@[k]]
                fm@.contains_key(k) implies fm@[k] == if kl.take(i + 1).contains(k) && link_field(
                    type_def@,
                    k,
                ) {
                    relinked(start[k], old_id@, new_id@)
                } else {
                    start[k]
                } by {
                if k != kv {
                    assert(kl.take(i + 1).contains(k) == kl.take(i as int).contains(k)) by {
                        if kl.take(i + 1).contains(k) {
                            let t = kl.take(i + 1);
                            let j = choose|j: int| 0 <= j < t.len() && t[j] == k;
                            assert(kl.take(i as int)[j] == k);
                        }
                        if kl.take(i as int).contains(k) {
                            let t = kl.take(i as int);
                            let j = choose|j: int| 0 <= j < t.len() && t[j] == k;
                            assert(kl.take(i + 1)[j] == k);
                        }
                    }
                } else {
                    assert(kl.take(i + 1)[i as int] == kv);
                }
            }
        }
        i += 1;
    }
    proof {
        assert(kl.take(keys@.len() as int) =~= kl);
        assert(fm@ =~= relinked_fields(type_def@, start, old_id@, new_id@));
    }
}

/// The part of a file that is searched for body wikilinks: after the first
/// `\n---` and the three characters that follow it, when the file (with
/// leading whitespace skipped) starts with `---`; else the whole file.
pub open spec fn searched_body(content: Seq<char>) -> Seq<char> {
    if has_prefix(trim_start(content), "---"@) {
        match first_occurrence(content, "\n---"@) {
            Some(close) => if close + 4 < content.len() {
                content.subrange(close + 4, content.len() as int)
            } else {
                Seq::empty()
            },
            None => content,
        }
    } else {
        content
    }
}

/// Whether the body of a file holds a wikilink to `old_id`.
pub fn body_links_to(content: &str, old_id: &str) -> (r: bool)
    ensures
        r == crate::text::contains_seq(searched_body(content@), wrapped(old_id@)),
{
    proof {
        reveal_strlit("---");
        reveal_strlit("\n---");
    }
    let v = chars_of(content);
    let mut s: usize = 0;
    while s < v.len() && crate::text::is_whitespace(v[s])
        invariant
            s <= v@.len(),
            v@ == content@,
            forall|k: int| 0 <= k < s ==> crate::text::is_ws(v@[k]),
        decreases v@.len() - s,
    {
        s += 1;
    }
    proof {
        crate::frontmatter::lemma_skip_ws(v@, s as int);
    }
    let t = slice_chars(v.as_slice(), s, v.len());
    let dashes = chars_of("---");
    let body: Vec<char> = if chars_occur_at(t.as_slice(), dashes.as_slice(), 0) {
        let marker = chars_of("\n---");
        match find_chars(v.as_slice(), marker.as_slice()) {
            Some(close) => {
                proof {
                    crate::text::lemma_first_occurrence_occurs(v@, marker@);
                }
                if close + 4 < v.len() {
                    slice_chars(v.as_slice(), close + 4, v.len())
                } else {
                    Vec::new()
                }
            },
            None => v.clone(),
        }
    } else {
        v.clone()
    };
    let token = wrap(old_id);
    let tv = chars_of(token.as_str());
    match find_chars(body.as_slice(), tv.as_slice()) {
        Some(_) => {
            proof {
                crate::text::lemma_first_occurrence_occurs(body@, tv@);
            }
            true
        },
        None => false,
    }
}

/// `s` with every occurrence of `p` (a non-empty text), from left to right,
/// replaced by `q` (`str::replace`).
#[verifier::opaque]
pub open spec fn replaced(s: Seq<char>, p: Seq<char>, q: Seq<char>) -> Seq<char>
    decreases s.len(),
{
    if p.len() == 0 {
        s
    } else {
        match first_occurrence(s, p) {
            None => s,
            Some(i) => if 0 <= i && i + p.len() <= s.len() {
                s.subrange(0, i) + q + replaced(s.subrange(i + p.len(), s.len() as int), p, q)
            } else {
                s
            },
        }
    }
}

proof fn lemma_replaced_step(s: Seq<char>, p: Seq<char>, q: Seq<char>, i: int)
    requires
        p.len() > 0,
        first_occurrence(s, p) == Some(i),
        occurs_at(s, p, i),
    ensures
        replaced(s, p, q) == s.subrange(0, i) + q + replaced(
            s.subrange(i + p.len(), s.len() as int),
            p,
            q,
        ),
{
    reveal(replaced);
}

proof fn lemma_replaced_none(s: Seq<char>, p: Seq<char>, q: Seq<char>)
    requires
        p.len() > 0,
        first_occurrence(s, p) is None,
    ensures
        replaced(s, p, q) == s,
{
    reveal(replaced);
}

/// The text with every occurrence of `p` replaced by `q`.
pub fn replace_all(s: &str, p: &str, q: &str) -> (r: String)
    requires
        p@.len() > 0,
    ensures
        r@ == replaced(s@, p@, q@),
{
    let pv = chars_of(p);
    let qv = chars_of(q);
    let mut rest = chars_of(s);
    let mut out: Vec<char> = Vec::new();
    let ghost total = s@;
    loop
        invariant
            pv@ == p@,
            qv@ == q@,
            p@.len() > 0,
            total == s@,
            out@ + replaced(rest@, p@, q@) == replaced(total, p@, q@),
        decreases rest@.len(),
    {
        let n = rest.len();
        match find_chars(rest.as_slice(), pv.as_slice()) {
            None => {
                proof {
                    lemma_replaced_none(rest@, p@, q@);
                }
                let ghost before = out@;
                crate::text::extend_chars(&mut out, rest.as_slice());
                assert(out@ == before + replaced(rest@, p@, q@));
                assert(out@ == replaced(total, p@, q@));
                let r = string_of(out.as_slice());
                return r;
            },
            Some(i) => {
                proof {
                    crate::text::lemma_first_occurrence_occurs(rest@, p@);
                    lemma_replaced_step(rest@, p@, q@, i as int);
                }
                let head = slice_chars(rest.as_slice(), 0, i);
                let tail = slice_chars(rest.as_slice(), i + pv.len(), n);
                let ghost before = out@;
                crate::text::extend_chars(&mut out, head.as_slice());
                crate::text::extend_chars(&mut out, qv.as_slice());
                assert(out@ + replaced(tail@, p@, q@) =~= before + replaced(rest@, p@, q@));
                rest = tail;
            },
        }
    }
}

/// Makes every wikilink to `old_id` in a body a wikilink to `new_id`.
pub fn rewrite_body_links(body: &str, old_id: &str, new_id: &str) -> (r: String)
    ensures
        r@ == replaced(body@, wrapped(old_id@), wrapped(new_id@)),
{
    let old_w = wrap(old_id);
    let new_w = wrap(new_id);
    proof {
        wrap_nonempty(old_id@);
    }
    replace_all(body, old_w.as_str(), new_w.as_str())
}

proof fn wrap_nonempty(t: Seq<char>)
    ensures
        wrapped(t).len() > 0,
{
}

/// The frontmatter of a renamed entity: its new title, and `updated_at`
/// set to `today`.
pub fn retitle(fm: &mut Frontmatter, new_title: &str, today: Date)
    ensures
        final(fm)@ == old(fm)@.insert("title"@, ValueV::Str(new_title@)).insert(
            "updated_at"@,
            ValueV::Date(today@.0, today@.1, today@.2),
        ),
{
    fm.insert("title".to_owned(), Value::String(new_title.to_owned()));
    fm.insert("updated_at".to_owned(), Value::Date(today));
}

/// Whether a file stem collides with a new id, ignoring case.
pub fn stem_collides(stem: &str, new_id: &str) -> (r: bool)
    ensures
        r == (lowercase(stem@) == lowercase(new_id@)),
{
    let a = to_lowercase(stem);
    let b = to_lowercase(new_id);
    str_equal(a.as_str(), b.as_str())
}

} // verus!
