//! Wikilink wrapping for link-typed frontmatter fields.
//!
//! Link-typed fields are stored in frontmatter as wrapped wikilink strings
//! (`"[[Title]]"`) so that they render as links in Obsidian. This module is the
//! single seam where wrapping and unwrapping happen.

use vstd::prelude::*;
use crate::error::CortxError;
use crate::fields::Frontmatter;
use crate::schema::types::{FieldTypeV, TypeDefV, TypeDefinition};
use crate::text::{lemma_trim_fixed, lemma_trim_len, chars_of, concat, has_char, has_prefix, has_suffix, slice_chars, string_of, trim, trim_chars};
use crate::value::{Value, ValueV};

verus! {

/// `[[`
pub open spec fn open_brackets() -> Seq<char> {
    seq!['[', '[']
}

/// `]]`
pub open spec fn close_brackets() -> Seq<char> {
    seq![']', ']']
}

/// The wikilink for a bare title.
pub open spec fn wrapped(title: Seq<char>) -> Seq<char> {
    open_brackets() + title + close_brackets()
}

/// Whether the trimmed text starts with `[[` and ends with `]]`.
pub open spec fn has_brackets(w: Seq<char>) -> bool {
    has_prefix(trim(w), open_brackets()) && has_suffix(trim(w), close_brackets())
}

/// What stands between the brackets of the trimmed text.
pub open spec fn bracket_inner(w: Seq<char>) -> Seq<char> {
    trim(w).subrange(2, trim(w).len() - 2)
}

/// Whether `w` is a wikilink that unwraps to a title.
pub open spec fn unwraps(w: Seq<char>) -> bool {
    &&& has_brackets(w)
    &&& !bracket_inner(w).contains('|')
    &&& trim(bracket_inner(w)).len() > 0
}

/// The title that a wikilink names.
pub open spec fn unwrapped(w: Seq<char>) -> Seq<char> {
    trim(bracket_inner(w))
}

/// How `Debug` renders a string: quoted, with special characters escaped.
pub uninterp spec fn debug_quoted(s: Seq<char>) -> Seq<char>;

/// The message of the error that refuses `w`.
pub open spec fn unwrap_error_message(w: Seq<char>) -> Seq<char> {
    if !has_brackets(w) {
        "not a wikilink: "@ + debug_quoted(w) + " (expected [[Title]])"@
    } else if bracket_inner(w).contains('|') {
        "piped wikilinks are not supported: "@ + debug_quoted(w)
    } else {
        "empty wikilink: "@ + debug_quoted(w)
    }
}

/// Whether `s`, trimmed, is a well-formed `[[...]]` wikilink.
///
/// Counted in characters; with the two ASCII brackets on each side this agrees
/// with a count in bytes.
pub open spec fn spec_is_wrapped(s: Seq<char>) -> bool {
    has_prefix(trim(s), open_brackets()) && has_suffix(trim(s), close_brackets()) && trim(s).len()
        > 4
}

/// The `Debug` rendering of a string slice, with `format!` and `{:?}`; the
/// contract claims the result is `debug_quoted` of the text, a name for that
/// rendering (the text quoted, special characters escaped) that it does not
/// spell out.
#[verifier::external_body]
fn debug_str(s: &str) -> (r: String)
    ensures
        r@ == debug_quoted(s@),
{
    format!("{s:?}")
}

/// Wrap a bare title in wikilink syntax.
pub fn wrap(title: &str) -> (r: String)
    ensures
        r@ == wrapped(title@),
{
    let a = concat("[[", title);
    let r = concat(a.as_str(), "]]");
    proof {
        reveal_strlit("[[");
        reveal_strlit("]]");
    }
    r
}

fn has_brackets_exec(t: &[char]) -> (r: bool)
    ensures
        r == (has_prefix(t@, open_brackets()) && has_suffix(t@, close_brackets())),
{
    let n = t.len();
    if n < 2 {
        return false;
    }
    let r = t[0] == '[' && t[1] == '[' && t[n - 2] == ']' && t[n - 1] == ']';
    proof {
        if r {
            assert(t@.subrange(0, 2) =~= open_brackets());
            assert(t@.subrange(n - 2, n as int) =~= close_brackets());
        } else {
            if has_prefix(t@, open_brackets()) && has_suffix(t@, close_brackets()) {
                assert(t@.subrange(0, 2)[0] == '[');
                assert(t@.subrange(0, 2)[1] == '[');
                assert(t@.subrange(n - 2, n as int)[0] == ']');
                assert(t@.subrange(n - 2, n as int)[1] == ']');
            }
        }
    }
    r
}

/// Unwrap a wikilink string to a bare title.
///
/// Refuses text without the brackets, piped forms (`[[slug|Display]]`) and
/// empty or whitespace-only content; whitespace inside the brackets is trimmed.
pub fn unwrap(w: &str) -> (r: Result<String, CortxError>)
    ensures
        match r {
            Ok(t) => unwraps(w@) && t@ == unwrapped(w@),
            Err(e) => !unwraps(w@) && (e matches CortxError::Validation(m) && m@
                == unwrap_error_message(w@)),
        },
{
    let chars = chars_of(w);
    let s = trim_chars(chars.as_slice());
    if !has_brackets_exec(s.as_slice()) {
        let m1 = concat("not a wikilink: ", debug_str(w).as_str());
        return Err(CortxError::Validation(concat(m1.as_str(), " (expected [[Title]])")));
    }
    if s.len() < 4 {
        // a trimmed text with both bracket pairs has at least four characters
        proof {
            assert(s@.subrange(0, 2)[0] == '[');
            assert(s@.subrange(s@.len() - 2, s@.len() as int)[1] == ']');
            assert(s@.subrange(0, 2)[1] == '[');
            assert(s@.subrange(s@.len() - 2, s@.len() as int)[0] == ']');
        }
        assert(false);
        return Err(CortxError::Validation(String::new()));
    }
    let inner = slice_chars(s.as_slice(), 2, s.len() - 2);
    if has_char(inner.as_slice(), '|') {
        return Err(
            CortxError::Validation(concat("piped wikilinks are not supported: ", debug_str(w).as_str())),
        );
    }
    let t = trim_chars(inner.as_slice());
    if t.len() == 0 {
        return Err(CortxError::Validation(concat("empty wikilink: ", debug_str(w).as_str())));
    }
    Ok(string_of(t.as_slice()))
}

/// Check if a string is a well-formed `[[...]]` wikilink.
pub fn is_wrapped(s: &str) -> (r: bool)
    ensures
        r == spec_is_wrapped(s@),
{
    let chars = chars_of(s);
    let t = trim_chars(chars.as_slice());
    has_brackets_exec(t.as_slice()) && t.len() > 4
}

/// Unwrapping the wikilink of a title gives the title back, trimmed, for
/// every title that holds no `|` and is not blank.
pub proof fn lemma_unwrap_wrap(title: Seq<char>)
    requires
        !title.contains('|'),
        trim(title).len() > 0,
    ensures
        unwraps(wrapped(title)),
        unwrapped(wrapped(title)) == trim(title),
{
    let w = wrapped(title);
    assert(w[0] == '[');
    assert(w.last() == ']');
    lemma_trim_fixed(w);
    assert(w.subrange(0, 2) =~= open_brackets());
    assert(w.subrange(w.len() - 2, w.len() as int) =~= close_brackets());
    assert(bracket_inner(w) =~= title);
}

/// A text that unwraps to a title is a well-formed wikilink.
pub proof fn lemma_unwraps_is_wrapped(w: Seq<char>)
    requires
        unwraps(w),
    ensures
        spec_is_wrapped(w),
{
    lemma_trim_len(bracket_inner(w));
}

/// The wikilink of a title is well formed exactly when the title is not empty.
pub proof fn lemma_wrapped_is_wrapped(title: Seq<char>)
    ensures
        spec_is_wrapped(wrapped(title)) <==> title.len() > 0,
{
    let w = wrapped(title);
    assert(w[0] == '[');
    assert(w.last() == ']');
    lemma_trim_fixed(w);
    assert(w.subrange(0, 2) =~= open_brackets());
    assert(w.subrange(w.len() - 2, w.len() as int) =~= close_brackets());
}

/// Whether `k` is a field that the type defines as a link or an array of
/// links.
pub open spec fn link_field(td: TypeDefV, k: Seq<char>) -> bool {
    td.fields.contains_key(k) && (td.fields[k].field_type is Link || td.fields[k].field_type is ArrayLink)
}

/// A text as it is written to a file: a non-empty text that is not already a
/// wikilink is wrapped.
pub open spec fn wrap_text(s: Seq<char>) -> Seq<char> {
    if s.len() > 0 && !spec_is_wrapped(s) {
        wrapped(s)
    } else {
        s
    }
}

/// A link value as it is written to a file: its text, or each text of an
/// array, wrapped.
pub open spec fn wrap_value(v: ValueV) -> ValueV {
    match v {
        ValueV::Str(s) => ValueV::Str(wrap_text(s)),
        ValueV::Arr(x) => ValueV::Arr(
            x.map_values(
                |i: ValueV|
                    match i {
                        ValueV::Str(s) => ValueV::Str(wrap_text(s)),
                        _ => i,
                    },
            ),
        ),
        _ => v,
    }
}

/// A text as it is read from a file: a wikilink gives its title (or the
/// error that refuses it); other text stays as it is.
pub open spec fn unwrap_text(s: Seq<char>) -> Result<Seq<char>, Seq<char>> {
    if spec_is_wrapped(s) {
        if unwraps(s) {
            Ok(unwrapped(s))
        } else {
            Err(unwrap_error_message(s))
        }
    } else {
        Ok(s)
    }
}

/// The first `n` items of an array as they are read from a file, or the
/// error for the first item that is refused.
pub open spec fn unwrap_items(x: Seq<ValueV>, n: int) -> Result<Seq<ValueV>, Seq<char>>
    decreases n,
{
    if n <= 0 || n > x.len() {
        Ok(Seq::empty())
    } else {
        match unwrap_items(x, n - 1) {
            Err(m) => Err(m),
            Ok(p) => match x[n - 1] {
                ValueV::Str(s) => match unwrap_text(s) {
                    Ok(t) => Ok(p.push(ValueV::Str(t))),
                    Err(m) => Err(m),
                },
                _ => Ok(p.push(x[n - 1])),
            },
        }
    }
}

/// A link value as it is read from a file.
pub open spec fn unwrap_value(v: ValueV) -> Result<ValueV, Seq<char>> {
    match v {
        ValueV::Str(s) => match unwrap_text(s) {
            Ok(t) => Ok(ValueV::Str(t)),
            Err(m) => Err(m),
        },
        ValueV::Arr(x) => match unwrap_items(x, x.len() as int) {
            Ok(y) => Ok(ValueV::Arr(y)),
            Err(m) => Err(m),
        },
        _ => Ok(v),
    }
}

/// The fields of a frontmatter with its link fields as they are written.
pub open spec fn wrap_fields(td: TypeDefV, m: Map<Seq<char>, ValueV>) -> Map<Seq<char>, ValueV> {
    Map::new(
        |k: Seq<char>| m.contains_key(k),
        |k: Seq<char>|
            if link_field(td, k) {
                wrap_value(m[k])
            } else {
                m[k]
            },
    )
}

/// Whether the link field `k` of a frontmatter is refused when read.
pub open spec fn unwrap_fails(td: TypeDefV, m: Map<Seq<char>, ValueV>, k: Seq<char>) -> bool {
    m.contains_key(k) && link_field(td, k) && unwrap_value(m[k]) is Err
}

/// The fields of a frontmatter with its link fields as they are read.
pub open spec fn unwrap_fields(td: TypeDefV, m: Map<Seq<char>, ValueV>) -> Map<Seq<char>, ValueV> {
    Map::new(
        |k: Seq<char>| m.contains_key(k),
        |k: Seq<char>|
            if link_field(td, k) {
                unwrap_value(m[k])->Ok_0
            } else {
                m[k]
            },
    )
}

fn wrap_string(s: &String) -> (r: String)
    ensures
        r@ == wrap_text(s@),
{
    proof {
        reveal_strlit("");
    }
    let empty = crate::text::str_equal(s.as_str(), "");
    assert(empty == (s@.len() == 0)) by {
        assert(""@.len() == 0);
        if s@.len() == 0 {
            assert(s@ =~= ""@);
        }
    }
    if !empty && !is_wrapped(s.as_str()) {
        wrap(s.as_str())
    } else {
        s.clone()
    }
}

/// A link value as it is written to a file.
pub fn wrap_link_value(v: &Value) -> (r: Value)
    ensures
        r@ == wrap_value(v@),
{
    match v {
        Value::String(s) => Value::String(wrap_string(s)),
        Value::Array(items) => {
            let ghost x = v@->Arr_0;
            let mut out: Vec<Value> = Vec::new();
            let mut i: usize = 0;
            while i < items.len()
                invariant
                    i <= items@.len(),
                    *v == Value::Array(*items),
                    x == v@->Arr_0,
                    x.len() == items@.len(),
                    out@.len() == i,
                    forall|k: int|
                        0 <= k < i ==> (#[trigger] out@[k])@ == match x[k] {
                            ValueV::Str(s) => ValueV::Str(wrap_text(s)),
                            _ => x[k],
                        },
                decreases items@.len() - i,
            {
                assert(x[i as int] == items@[i as int]@);
                let item = match &items[i] {
                    Value::String(s) => Value::String(wrap_string(s)),
                    other => other.clone(),
                };
                out.push(item);
                i += 1;
            }
            let r = Value::Array(out);
            assert(r@->Arr_0 =~= wrap_value(v@)->Arr_0);
            r
        },
        other => other.clone(),
    }
}

fn unwrap_string(s: &String) -> (r: Result<String, CortxError>)
    ensures
        match unwrap_text(s@) {
            Ok(t) => r matches Ok(x) && x@ == t,
            Err(m) => r matches Err(CortxError::Validation(e)) && e@ == m,
        },
{
    if is_wrapped(s.as_str()) {
        unwrap(s.as_str())
    } else {
        Ok(s.clone())
    }
}

/// A link value as it is read from a file: wikilinks become titles; a
/// wikilink that names no title is a validation error.
pub fn unwrap_link_value(v: &Value) -> (r: Result<Value, CortxError>)
    ensures
        match unwrap_value(v@) {
            Ok(x) => r matches Ok(y) && y@ == x,
            Err(m) => r matches Err(CortxError::Validation(e)) && e@ == m,
        },
{
    match v {
        Value::String(s) => match unwrap_string(s) {
            Ok(t) => Ok(Value::String(t)),
            Err(e) => Err(e),
        },
        Value::Array(items) => {
            let ghost x = v@->Arr_0;
            let ghost mut acc: Seq<ValueV> = Seq::empty();
            let mut out: Vec<Value> = Vec::new();
            let mut i: usize = 0;
            while i < items.len()
                invariant
                    i <= items@.len(),
                    *v == Value::Array(*items),
                    x == v@->Arr_0,
                    x.len() == items@.len(),
                    unwrap_items(x, i as int) == Ok::<Seq<ValueV>, Seq<char>>(acc),
                    acc.len() == out@.len(),
                    forall|k: int| 0 <= k < out@.len() ==> (#[trigger] out@[k])@ == acc[k],
                decreases items@.len() - i,
            {
                assert(x[i as int] == items@[i as int]@);
                let item = match &items[i] {
                    Value::String(s) => match unwrap_string(s) {
                        Ok(t) => Value::String(t),
                        Err(e) => {
                            proof {
                                lemma_unwrap_items_err(x, i + 1, x.len() as int);
                            }
                            return Err(e);
                        },
                    },
                    other => other.clone(),
                };
                proof {
                    acc = acc.push(item@);
                }
                out.push(item);
                i += 1;
            }
            let r = Value::Array(out);
            assert(r@->Arr_0 =~= acc);
            Ok(r)
        },
        other => Ok(other.clone()),
    }
}

proof fn lemma_unwrap_items_err(x: Seq<ValueV>, n: int, m: int)
    requires
        0 <= n <= m <= x.len(),
        unwrap_items(x, n) is Err,
    ensures
        unwrap_items(x, m) == unwrap_items(x, n),
    decreases m - n,
{
    if m > n {
        lemma_unwrap_items_err(x, n, m - 1);
    }
}

/// Wraps the link fields of a frontmatter before it is written.
pub fn wrap_frontmatter(fm: &mut Frontmatter, type_def: &TypeDefinition)
    ensures
        final(fm)@ == wrap_fields(type_def@, old(fm)@),
        final(fm).key_list() == old(fm).key_list(),
{
    let keys = fm.keys();
    let ghost start = fm@;
    fm.key_list_facts();
    let mut i: usize = 0;
    while i < keys.len()
        invariant
            i <= keys@.len(),
            crate::text::texts(keys@) == old(fm).key_list(),
            fm.key_list() == old(fm).key_list(),
            start == old(fm)@,
            old(fm).key_list().no_duplicates(),
            forall|k: Seq<char>| start.contains_key(k) <==> old(fm).key_list().contains(k),
            fm@.dom() == start.dom(),
            forall|k: Seq<char>|
                #![trigger fm@[k]]
                fm@.contains_key(k) ==> fm@[k] == if old(fm).key_list().take(i as int).contains(k)
                    && link_field(type_def@, k) {
                    wrap_value(start[k])
                } else {
                    start[k]
                },
        decreases keys@.len() - i,
    {
        let ghost kv = keys@[i as int]@;
        let ghost kl = old(fm).key_list();
        assert(kl[i as int] == kv);
        assert(kl.take(i + 1) =~= kl.take(i as int).push(kv));
        assert(!kl.take(i as int).contains(kv)) by {
            if kl.take(i as int).contains(kv) {
                let j = choose|j: int| 0 <= j < i && kl.take(i as int)[j] == kv;
                assert(kl[j] == kl[i as int]);
            }
        }
        let is_link = match type_def.fields.get(keys[i].as_str()) {
            Some(d) => d.field_type.is_link(),
            None => false,
        };
        if is_link {
            let new_value = match fm.get(keys[i].as_str()) {
                Some(v) => Some(wrap_link_value(v)),
                None => None,
            };
            match new_value {
                Some(nv) => {
                    fm.insert(keys[i].clone(), nv);
                },
                None => {},
            }
        }
        proof {
            assert forall|k: Seq<char>| #![trigger fm@[k]]
                fm@.contains_key(k) implies fm@[k] == if kl.take(i + 1).contains(k) && link_field(
                    type_def@,
                    k,
                ) {
                    wrap_value(start[k])
                } else {
                    start[k]
                } by {
                if k != kv {
                    assert(kl.take(i + 1).contains(k) == kl.take(i as int).contains(k)) by {
                        if kl.take(i + 1).contains(k) {
                            let t = kl.take(i + 1);
                            let j = choose|j: int| 0 <= j < t.len() && t[j] == k;
                            assert(kl.take(i as int)[j] == k);
                        }
                        if kl.take(i as int).contains(k) {
                            let t = kl.take(i as int);
                            let j = choose|j: int| 0 <= j < t.len() && t[j] == k;
                            assert(kl.take(i + 1)[j] == k);
                        }
                    }
                } else {
                    assert(kl.take(i + 1)[i as int] == kv);
                }
            }
        }
        i += 1;
    }
    proof {
        let kl = old(fm).key_list();
        assert(kl.take(keys@.len() as int) =~= kl);
        assert(fm@ =~= wrap_fields(type_def@, start));
    }
}

/// Unwraps the link fields of a frontmatter after it is read. The first
/// link field (in the frontmatter's order) whose wikilink names no title is
/// a validation error.
pub fn unwrap_frontmatter(fm: &mut Frontmatter, type_def: &TypeDefinition) -> (r: Result<
    (),
    CortxError,
>)
    ensures
        r is Ok <==> forall|k: Seq<char>| !unwrap_fails(type_def@, old(fm)@, k),
        r is Ok ==> final(fm)@ == unwrap_fields(type_def@, old(fm)@) && final(fm).key_list() == old(
            fm,
        ).key_list(),
        r matches Err(e) ==> exists|i: int|
            0 <= i < old(fm).key_list().len() && unwrap_fails(
                type_def@,
                old(fm)@,
                #[trigger] old(fm).key_list()[i],
            ) && (e matches CortxError::Validation(m) && m@ == unwrap_value(
                old(fm)@[old(fm).key_list()[i]],
            )->Err_0) && forall|j: int|
                0 <= j < i ==> !unwrap_fails(type_def@, old(fm)@, #[trigger] old(fm).key_list()[j]),
{
    let keys = fm.keys();
    let ghost start = fm@;
    let ghost kl = fm.key_list();
    fm.key_list_facts();
    let mut i: usize = 0;
    while i < keys.len()
        invariant
            i <= keys@.len(),
            crate::text::texts(keys@) == kl,
            kl == old(fm).key_list(),
            fm.key_list() == kl,
            start == old(fm)@,
            kl.no_duplicates(),
            forall|k: Seq<char>| start.contains_key(k) <==> kl.contains(k),
            fm@.dom() == start.dom(),
            forall|j: int| 0 <= j < i ==> !unwrap_fails(type_def@, start, #[trigger] kl[j]),
            forall|k: Seq<char>|
                #![trigger fm@[k]]
                fm@.contains_key(k) ==> fm@[k] == if kl.take(i as int).contains(k) && link_field(
                    type_def@,
                    k,
                ) {
                    unwrap_value(start[k])->Ok_0
                } else {
                    start[k]
                },
        decreases keys@.len() - i,
    {
        let ghost kv = keys@[i as int]@;
        assert(kl[i as int] == kv);
        assert(kl.take(i + 1) =~= kl.take(i as int).push(kv));
        assert(!kl.take(i as int).contains(kv)) by {
            if kl.take(i as int).contains(kv) {
                let j = choose|j: int| 0 <= j < i && kl.take(i as int)[j] == kv;
                assert(kl[j] == kl[i as int]);
            }
        }
        assert(kl.contains(kv));
        let is_link = match type_def.fields.get(keys[i].as_str()) {
            Some(d) => d.field_type.is_link(),
            None => false,
        };
        if is_link {
            let new_value = match fm.get(keys[i].as_str()) {
                Some(v) => unwrap_link_value(v),
                None => Ok(Value::Null),
            };
            match new_value {
                Ok(nv) => {
                    fm.insert(keys[i].clone(), nv);
                },
                Err(e) => {
                    assert(fm@[kv] == start[kv]);
                    assert(unwrap_fails(type_def@, start, kl[i as int]));
                    assert(e matches CortxError::Validation(m) && m@ == unwrap_value(
                        start[kl[i as int]],
                    )->Err_0);
                    assert(forall|j: int|
                        0 <= j < i ==> !unwrap_fails(type_def@, start, #[trigger] kl[j]));
                    return Err(e);
                },
            }
        }
        proof {
            assert forall|k: Seq<char>| #![trigger fm@[k]]
                fm@.contains_key(k) implies fm@[k] == if kl.take(i + 1).contains(k) && link_field(
                    type_def@,
                    k,
                ) {
                    unwrap_value(start[k])->Ok_0
                } else {
                    start[k]
                } by {
                if k != kv {
                    assert(kl.take(i + 1).contains(k) == kl.take(i as int).contains(k)) by {
                        if kl.take(i + 1).contains(k) {
                            let t = kl.take(i + 1);
                            let j = choose|j: int| 0 <= j < t.len() && t[j] == k;
                            assert(kl.take(i as int)[j] == k);
                        }
                        if kl.take(i as int).contains(k) {
                            let t = kl.take(i as int);
                            let j = choose|j: int| 0 <= j < t.len() && t[j] == k;
                            assert(kl.take(i + 1)[j] == k);
                        }
                    }
                } else {
                    assert(kl.take(i + 1)[i as int] == kv);
                }
            }
        }
        i += 1;
    }
    proof {
        assert(kl.take(keys@.len() as int) =~= kl);
        assert(fm@ =~= unwrap_fields(type_def@, start));
        assert forall|k: Seq<char>| !unwrap_fails(type_def@, start, k) by {
            if unwrap_fails(type_def@, start, k) {
                assert(start.contains_key(k));
                assert(kl.contains(k));
                let j = choose|j: int| 0 <= j < kl.len() && kl[j] == k;
                assert(!unwrap_fails(type_def@, start, kl[j]));
            }
        }
    }
    Ok(())
}

/// Whether a link text reads back as written: empty, or a title with no
/// `|`, no surrounding whitespace, and not itself a wikilink.
pub open spec fn plain_link_text(s: Seq<char>) -> bool {
    s.len() == 0 || (!s.contains('|') && trim(s) == s && !spec_is_wrapped(s))
}

/// Whether a link value reads back as written: its text, or each text of
/// an array, is plain.
pub open spec fn plain_link_value(v: ValueV) -> bool {
    match v {
        ValueV::Str(s) => plain_link_text(s),
        ValueV::Arr(x) => forall|i: int|
            0 <= i < x.len() ==> (#[trigger] x[i] matches ValueV::Str(s) ==> plain_link_text(s)),
        _ => true,
    }
}

proof fn lemma_text_roundtrip(s: Seq<char>)
    requires
        plain_link_text(s),
    ensures
        unwrap_text(wrap_text(s)) == Ok::<Seq<char>, Seq<char>>(s),
{
    if s.len() > 0 {
        lemma_wrapped_is_wrapped(s);
        lemma_unwrap_wrap(s);
    } else {
        assert(trim(s).len() == 0) by {
            lemma_trim_len(s);
        }
    }
}

proof fn lemma_items_roundtrip(x: Seq<ValueV>, n: int)
    requires
        0 <= n <= x.len(),
        plain_link_value(ValueV::Arr(x)),
    ensures
        unwrap_items(wrap_value(ValueV::Arr(x))->Arr_0, n) == Ok::<Seq<ValueV>, Seq<char>>(
            x.take(n),
        ),
    decreases n,
{
    let wx = wrap_value(ValueV::Arr(x))->Arr_0;
    if n > 0 {
        lemma_items_roundtrip(x, n - 1);
        assert(x.take(n) =~= x.take(n - 1).push(x[n - 1]));
        match x[n - 1] {
            ValueV::Str(s) => {
                lemma_text_roundtrip(s);
            },
            _ => {},
        }
    } else {
        assert(x.take(0) =~= Seq::<ValueV>::empty());
    }
}

/// What is written of a link value is read back as it was, when its texts
/// are plain titles.
pub proof fn lemma_link_value_roundtrip(v: ValueV)
    requires
        plain_link_value(v),
    ensures
        unwrap_value(wrap_value(v)) == Ok::<ValueV, Seq<char>>(v),
{
    match v {
        ValueV::Str(s) => {
            lemma_text_roundtrip(s);
        },
        ValueV::Arr(x) => {
            lemma_items_roundtrip(x, x.len() as int);
            assert(x.take(x.len() as int) =~= x);
        },
        _ => {},
    }
}

/// Reading a frontmatter after writing it gives its link fields back, when
/// their texts are plain titles: no field is refused and every field is as
/// it was.
pub proof fn lemma_frontmatter_links_roundtrip(td: TypeDefV, m: Map<Seq<char>, ValueV>)
    requires
        forall|k: Seq<char>| m.contains_key(k) && link_field(td, k) ==> plain_link_value(#[trigger] m[k]),
    ensures
        forall|k: Seq<char>| !unwrap_fails(td, wrap_fields(td, m), k),
        unwrap_fields(td, wrap_fields(td, m)) == m,
{
    let w = wrap_fields(td, m);
    assert forall|k: Seq<char>| m.contains_key(k) && link_field(td, k) implies unwrap_value(
        #[trigger] w[k],
    ) == Ok::<ValueV, Seq<char>>(m[k]) by {
        lemma_link_value_roundtrip(m[k]);
    }
    assert(unwrap_fields(td, w) =~= m);
}

} // verus!
