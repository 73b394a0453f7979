//! The rules of the Markdown store that decide what is written: the type of
//! a new entity, the fields of an update, and the inverse side of
//! bidirectional links.

use vstd::prelude::*;
use crate::error::CortxError;
use crate::fields::Frontmatter;
use crate::schema::registry::TypeRegistry;
use crate::schema::types::{FieldTypeV, LinkDef, LinkTargets, TypeDefV, TypeDefinition};
use crate::value::{array_contains, Date, Value, ValueV};

verus! {

/// The type that a new entity's frontmatter names, or the validation error
/// for a frontmatter without a string `type` field.
pub fn entity_type_of(fm: &Frontmatter) -> (r: Result<String, CortxError>)
    ensures
        match r {
            Ok(t) => fm@.contains_key("type"@) && fm@["type"@] == ValueV::Str(t@),
            Err(e) => !(fm@.contains_key("type"@) && fm@["type"@] is Str) && (e matches CortxError::Validation(m)
                && m@ == "missing 'type' field"@),
        },
{
    match fm.get("type") {
        Some(v) => match v.as_str() {
            Some(t) => Ok(t.to_owned()),
            None => Err(CortxError::Validation("missing 'type' field".to_owned())),
        },
        None => Err(CortxError::Validation("missing 'type' field".to_owned())),
    }
}

/// The definition of the type `name`, or the schema error for a type that
/// the registry does not have.
pub fn type_for<'a>(registry: &'a TypeRegistry, name: &str) -> (r: Result<&'a TypeDefinition, CortxError>)
    ensures
        match r {
            Ok(d) => registry@.contains_key(name@) && registry@[name@] == d@,
            Err(e) => !registry@.contains_key(name@) && (e matches CortxError::Schema(m) && m@
                == "unknown type '"@ + name@ + "'"@),
        },
{
    match registry.get(name) {
        Some(d) => Ok(d),
        None => {
            let mut m = "unknown type '".to_owned();
            m.append(name);
            m.append("'");
            Err(CortxError::Schema(m))
        },
    }
}

/// The file name of an entity: its id with `.md`.
pub fn entity_file_name(id: &str) -> (r: String)
    ensures
        r@ == id@ + ".md"@,
{
    let mut r = id.to_owned();
    r.append(".md");
    r
}

/// The fields of an entity after the updates, applied in order (a later
/// update of a field wins).
pub open spec fn with_updates(m: Map<Seq<char>, ValueV>, updates: Seq<(Seq<char>, ValueV)>) -> Map<
    Seq<char>,
    ValueV,
>
    decreases updates.len(),
{
    if updates.len() == 0 {
        m
    } else {
        with_updates(m, updates.drop_last()).insert(updates.last().0, updates.last().1)
    }
}

/// The views of a list of updates.
pub open spec fn updates_view(u: Seq<(String, Value)>) -> Seq<(Seq<char>, ValueV)> {
    u.map_values(|p: (String, Value)| (p.0@, p.1@))
}

/// Applies the updates of `cortx update` to a frontmatter, in order, then
/// sets `updated_at` to `today`.
pub fn apply_updates(fm: &mut Frontmatter, updates: &Vec<(String, Value)>, today: Date)
    ensures
        final(fm)@ == with_updates(old(fm)@, updates_view(updates@)).insert(
            "updated_at"@,
            ValueV::Date(today@.0, today@.1, today@.2),
        ),
{
    let ghost uv = updates_view(updates@);
    let mut i: usize = 0;
    while i < updates.len()
        invariant
            i <= updates@.len(),
            uv == updates_view(updates@),
            fm@ == with_updates(old(fm)@, uv.take(i as int)),
        decreases updates@.len() - i,
    {
        assert(uv.take(i + 1).drop_last() =~= uv.take(i as int));
        assert(uv.take(i + 1).last() == uv[i as int]);
        fm.insert(updates[i].0.clone(), updates[i].1.clone());
        i += 1;
    }
    assert(uv.take(updates@.len() as int) =~= uv);
    fm.insert("updated_at".to_owned(), Value::Date(today));
}

/// Whether a later update sets the same field as update `i`.
pub open spec fn set_later(u: Seq<(Seq<char>, ValueV)>, i: int) -> bool {
    exists|j: int| i < j < u.len() && #[trigger] u[j].0 == u[i].0
}

/// The updates among the first `n` that no later update overrides, in order.
pub open spec fn last_of_each(u: Seq<(Seq<char>, ValueV)>, n: int) -> Seq<(Seq<char>, ValueV)>
    decreases n,
{
    if n <= 0 || n > u.len() {
        Seq::empty()
    } else if set_later(u, n - 1) {
        last_of_each(u, n - 1)
    } else {
        last_of_each(u, n - 1).push(u[n - 1])
    }
}

/// The updates that take effect: of the updates of one field, only the last,
/// each in its place.
pub fn last_updates(updates: &Vec<(String, Value)>) -> (r: Vec<(String, Value)>)
    ensures
        updates_view(r@) == last_of_each(updates_view(updates@), updates@.len() as int),
{
    let ghost uv = updates_view(updates@);
    let mut r: Vec<(String, Value)> = Vec::new();
    let mut i: usize = 0;
    while i < updates.len()
        invariant
            i <= updates@.len(),
            uv == updates_view(updates@),
            updates_view(r@) == last_of_each(uv, i as int),
        decreases updates@.len() - i,
    {
        let mut later = false;
        let mut j: usize = i + 1;
        while j < updates.len()
            invariant
                i < j <= updates@.len(),
                uv == updates_view(updates@),
                later <==> exists|m: int| i < m < j && #[trigger] uv[m].0 == uv[i as int].0,
            decreases updates@.len() - j,
        {
            assert(uv[j as int].0 == updates@[j as int].0@);
            assert(uv[i as int].0 == updates@[i as int].0@);
            if crate::text::str_equal(updates[j].0.as_str(), updates[i].0.as_str()) {
                later = true;
            }
            j += 1;
        }
        assert(later == set_later(uv, i as int));
        if !later {
            let ghost before = r@;
            r.push((updates[i].0.clone(), updates[i].1.clone()));
            assert(updates_view(r@) =~= updates_view(before).push(uv[i as int]));
        }
        i += 1;
    }
    r
}

/// Applying an update first is updating the starting fields.
proof fn lemma_updates_first(m: Map<Seq<char>, ValueV>, x: (Seq<char>, ValueV), w: Seq<(Seq<char>, ValueV)>)
    ensures
        with_updates(m, seq![x] + w) == with_updates(m.insert(x.0, x.1), w),
    decreases w.len(),
{
    let s1 = seq![x] + w;
    if w.len() == 0 {
        assert(s1.len() == 1);
        assert(s1.last() == x);
        assert(s1.drop_last() =~= Seq::<(Seq<char>, ValueV)>::empty());
        assert(with_updates(m, s1.drop_last()) == m);
        assert(with_updates(m, s1) == m.insert(x.0, x.1));
    } else {
        lemma_updates_first(m, x, w.drop_last());
        assert(s1.drop_last() =~= seq![x] + w.drop_last());
        assert(s1.last() == w.last());
        assert(with_updates(m, s1) == with_updates(m, s1.drop_last()).insert(s1.last().0, s1.last().1));
    }
}

/// Whether some update of `w` sets the field `k`.
pub open spec fn sets_field(w: Seq<(Seq<char>, ValueV)>, k: Seq<char>) -> bool {
    exists|j: int| 0 <= j < w.len() && #[trigger] w[j].0 == k
}

/// A starting value of a field survives the updates unless one sets it.
proof fn lemma_updates_over_insert(
    m: Map<Seq<char>, ValueV>,
    k: Seq<char>,
    val: ValueV,
    w: Seq<(Seq<char>, ValueV)>,
)
    ensures
        sets_field(w, k) ==> with_updates(m.insert(k, val), w) == with_updates(m, w),
        !sets_field(w, k) ==> with_updates(m.insert(k, val), w) == with_updates(m, w).insert(k, val),
    decreases w.len(),
{
    if w.len() > 0 {
        let w1 = w.drop_last();
        let y = w.last();
        lemma_updates_over_insert(m, k, val, w1);
        let a1 = with_updates(m.insert(k, val), w1);
        let b1 = with_updates(m, w1);
        if sets_field(w1, k) {
            let j = choose|j: int| 0 <= j < w1.len() && #[trigger] w1[j].0 == k;
            assert(w[j] == w1[j]);
            assert(a1.insert(y.0, y.1) =~= b1.insert(y.0, y.1));
        } else if y.0 == k {
            assert(w[w.len() - 1].0 == k);
            assert(a1.insert(y.0, y.1) =~= b1.insert(y.0, y.1));
        } else {
            assert(!sets_field(w, k)) by {
                if sets_field(w, k) {
                    let j = choose|j: int| 0 <= j < w.len() && #[trigger] w[j].0 == k;
                    assert(j != w.len() - 1);
                    assert(w1[j] == w[j]);
                }
            }
            assert(a1.insert(y.0, y.1) =~= b1.insert(y.0, y.1).insert(k, val));
        }
    }
}

/// What `last_of_each` keeps of updates that start with `x`: `x` itself
/// unless a later update sets its field, then what it keeps of the rest.
proof fn lemma_last_of_each_first(x: (Seq<char>, ValueV), w: Seq<(Seq<char>, ValueV)>, n: int)
    requires
        1 <= n <= w.len() + 1,
    ensures
        last_of_each(seq![x] + w, n) == (if sets_field(w, x.0) {
            Seq::empty()
        } else {
            seq![x]
        }) + last_of_each(w, n - 1),
    decreases n,
{
    let u = seq![x] + w;
    assert(set_later(u, 0) == sets_field(w, x.0)) by {
        if set_later(u, 0) {
            let j = choose|j: int| 0 < j < u.len() && #[trigger] u[j].0 == u[0].0;
            assert(w[j - 1] == u[j]);
        }
        if sets_field(w, x.0) {
            let j = choose|j: int| 0 <= j < w.len() && #[trigger] w[j].0 == x.0;
            assert(u[j + 1] == w[j]);
        }
    }
    let head: Seq<(Seq<char>, ValueV)> = if sets_field(w, x.0) {
        Seq::empty()
    } else {
        seq![x]
    };
    if n == 1 {
        assert(last_of_each(u, 0) =~= Seq::<(Seq<char>, ValueV)>::empty());
        assert(last_of_each(w, 0) =~= Seq::<(Seq<char>, ValueV)>::empty());
        assert(u[0] == x);
        assert(last_of_each(u, 1) =~= head + last_of_each(w, 0));
    } else {
        lemma_last_of_each_first(x, w, n - 1);
        assert(u[n - 1] == w[n - 2]);
        assert(set_later(u, n - 1) == set_later(w, n - 2)) by {
            if set_later(u, n - 1) {
                let j = choose|j: int| n - 1 < j < u.len() && #[trigger] u[j].0 == u[n - 1].0;
                assert(w[j - 1] == u[j]);
            }
            if set_later(w, n - 2) {
                let j = choose|j: int| n - 2 < j < w.len() && #[trigger] w[j].0 == w[n - 2].0;
                assert(u[j + 1] == w[j]);
            }
        }
        if set_later(w, n - 2) {
            assert(last_of_each(u, n) =~= head + last_of_each(w, n - 1));
        } else {
            assert(last_of_each(u, n) =~= head + last_of_each(w, n - 1));
        }
    }
}

/// Applying only the last update of each field gives the fields that
/// applying all the updates gives.
pub proof fn lemma_last_updates_same_fields(m: Map<Seq<char>, ValueV>, u: Seq<(Seq<char>, ValueV)>)
    ensures
        with_updates(m, last_of_each(u, u.len() as int)) == with_updates(m, u),
    decreases u.len(),
{
    if u.len() == 0 {
        assert(last_of_each(u, 0) =~= Seq::<(Seq<char>, ValueV)>::empty());
    } else {
        let x = u[0];
        let w = u.drop_first();
        assert(u =~= seq![x] + w);
        lemma_last_of_each_first(x, w, u.len() as int);
        let rest = last_of_each(w, w.len() as int);
        lemma_updates_first(m, x, w);
        lemma_updates_over_insert(m, x.0, x.1, w);
        if sets_field(w, x.0) {
            assert(Seq::<(Seq<char>, ValueV)>::empty() + rest =~= rest);
            lemma_last_updates_same_fields(m, w);
        } else {
            lemma_updates_first(m, x, rest);
            lemma_last_updates_same_fields(m.insert(x.0, x.1), w);
        }
    }
}

/// The ids that a link value names: a non-empty text, or the non-empty
/// texts of an array. Other values name no ids (`None`).
pub open spec fn ref_ids(v: ValueV) -> Option<Seq<Seq<char>>> {
    match v {
        ValueV::Str(s) => if s.len() > 0 {
            Some(seq![s])
        } else {
            None
        },
        ValueV::Arr(x) => Some(nonempty_texts(x, x.len() as int)),
        _ => None,
    }
}

/// The non-empty texts among the first `n` items of an array.
pub open spec fn nonempty_texts(x: Seq<ValueV>, n: int) -> Seq<Seq<char>>
    decreases n,
{
    if n <= 0 || n > x.len() {
        Seq::empty()
    } else {
        match x[n - 1] {
            ValueV::Str(s) => if s.len() > 0 {
                nonempty_texts(x, n - 1).push(s)
            } else {
                nonempty_texts(x, n - 1)
            },
            _ => nonempty_texts(x, n - 1),
        }
    }
}

/// The ids that a link value names.
pub fn link_ref_ids(v: &Value) -> (r: Option<Vec<String>>)
    ensures
        match ref_ids(v@) {
            Some(ids) => r matches Some(x) && crate::text::texts(x@) == ids,
            None => r is None,
        },
{
    match v {
        Value::String(s) => {
            if crate::text::str_equal(s.as_str(), "") {
                proof {
                    reveal_strlit("");
                }
                None
            } else {
                proof {
                    reveal_strlit("");
                    if s@.len() == 0 {
                        assert(s@ =~= ""@);
                    }
                }
                let mut r: Vec<String> = Vec::new();
                r.push(s.clone());
                assert(crate::text::texts(r@) =~= seq![s@]);
                Some(r)
            }
        },
        Value::Array(items) => {
            let ghost x = v@->Arr_0;
            let mut r: Vec<String> = Vec::new();
            let mut i: usize = 0;
            while i < items.len()
                invariant
                    i <= items@.len(),
                    *v == Value::Array(*items),
                    x == v@->Arr_0,
                    x.len() == items@.len(),
                    crate::text::texts(r@) == nonempty_texts(x, i as int),
                decreases items@.len() - i,
            {
                assert(x[i as int] == items@[i as int]@);
                match &items[i] {
                    Value::String(s) => {
                        proof {
                            reveal_strlit("");
                        }
                        if !crate::text::str_equal(s.as_str(), "") {
                            proof {
                                if s@.len() == 0 {
                                    assert(s@ =~= ""@);
                                }
                            }
                            let ghost before = crate::text::texts(r@);
                            r.push(s.clone());
                            assert(crate::text::texts(r@) =~= before.push(s@));
                        }
                    },
                    _ => {},
                }
                i += 1;
            }
            Some(r)
        },
        _ => None,
    }
}

/// The link definition of the field `f`, when the type defines it as a
/// bidirectional link.
pub open spec fn bidirectional_of(td: TypeDefV, f: Seq<char>) -> Option<crate::schema::types::LinkDefV> {
    if td.fields.contains_key(f) {
        match td.fields[f].field_type {
            FieldTypeV::Link(d) => if d.bidirectional {
                Some(d)
            } else {
                None
            },
            FieldTypeV::ArrayLink(d) => if d.bidirectional {
                Some(d)
            } else {
                None
            },
            _ => None,
        }
    } else {
        None
    }
}

/// The link definition of a field, when it is a bidirectional link.
pub fn bidirectional_def<'a>(type_def: &'a TypeDefinition, field_name: &str) -> (r: Option<&'a LinkDef>)
    ensures
        match r {
            Some(d) => bidirectional_of(type_def@, field_name@) == Some(d@),
            None => bidirectional_of(type_def@, field_name@) is None,
        },
{
    match type_def.fields.get(field_name) {
        Some(f) => match &f.field_type {
            crate::schema::types::FieldType::Link(d) => if d.bidirectional {
                Some(d)
            } else {
                None
            },
            crate::schema::types::FieldType::ArrayLink(d) => if d.bidirectional {
                Some(d)
            } else {
                None
            },
            _ => None,
        },
        None => None,
    }
}

/// The first polymorphic target from index `i` on whose file exists and
/// that names an inverse field.
pub open spec fn poly_inverse_from(
    ts: Seq<(Seq<char>, Option<Seq<char>>)>,
    exists: Seq<bool>,
    i: int,
) -> Option<(Seq<char>, Seq<char>)>
    decreases ts.len() - i,
{
    if i < 0 || i >= ts.len() {
        None
    } else if exists[i] && ts[i].1 is Some {
        Some((ts[i].0, ts[i].1->0))
    } else {
        poly_inverse_from(ts, exists, i + 1)
    }
}

/// The target type and inverse field that a link to one id updates: a
/// single target with an inverse field; or the first polymorphic target
/// whose file for the id exists and that names an inverse field. `exists`
/// says, for each polymorphic target, whether that file exists.
pub open spec fn inverse_of(
    targets: crate::schema::types::LinkTargetsV,
    exists: Seq<bool>,
) -> Option<(Seq<char>, Seq<char>)> {
    match targets {
        crate::schema::types::LinkTargetsV::Single { ref_type, inverse } => match inverse {
            Some(inv) => Some((ref_type, inv)),
            None => None,
        },
        crate::schema::types::LinkTargetsV::Poly(ts) => poly_inverse_from(ts, exists, 0),
    }
}

/// The target type and inverse field that a link to one id updates.
pub fn inverse_target(targets: &LinkTargets, exists: &Vec<bool>) -> (r: Option<(String, String)>)
    requires
        targets@ matches crate::schema::types::LinkTargetsV::Poly(ts) ==> exists@.len() == ts.len(),
    ensures
        match inverse_of(targets@, exists@) {
            Some((t, f)) => r matches Some((a, b)) && a@ == t && b@ == f,
            None => r is None,
        },
{
    match targets {
        LinkTargets::Single { ref_type, inverse } => match inverse {
            Some(inv) => Some((ref_type.clone(), inv.clone())),
            None => None,
        },
        LinkTargets::Poly(ts) => {
            let ghost tv = targets@->Poly_0;
            let mut i: usize = 0;
            while i < ts.len()
                invariant
                    i <= ts@.len(),
                    tv == targets@->Poly_0,
                    tv.len() == ts@.len(),
                    exists@.len() == ts@.len(),
                    *targets == LinkTargets::Poly(*ts),
                    poly_inverse_from(tv, exists@, 0) == poly_inverse_from(tv, exists@, i as int),
                decreases ts@.len() - i,
            {
                assert(tv[i as int] == (ts@[i as int].ref_type@, crate::schema::types::opt_view(
                    ts@[i as int].inverse,
                )));
                if exists[i] {
                    match &ts[i].inverse {
                        Some(inv) => {
                            return Some((ts[i].ref_type.clone(), inv.clone()));
                        },
                        None => {},
                    }
                }
                i += 1;
            }
            None
        },
    }
}

/// The inverse field of a referenced entity after the owning entity `id`
/// is added: an array (a former value that is not an array is dropped)
/// that holds `id` once more only if it did not hold it.
pub open spec fn with_back_ref(m: Map<Seq<char>, ValueV>, f: Seq<char>, id: Seq<char>) -> Map<
    Seq<char>,
    ValueV,
> {
    let items = if m.contains_key(f) && m[f] is Arr {
        m[f]->Arr_0
    } else {
        Seq::empty()
    };
    if array_contains(ValueV::Arr(items), ValueV::Str(id)) {
        m.insert(f, ValueV::Arr(items))
    } else {
        m.insert(f, ValueV::Arr(items.push(ValueV::Str(id))))
    }
}

/// Adds the owning entity `owning_id` to the inverse field of a referenced
/// entity's frontmatter.
pub fn add_inverse_ref(ref_fm: &mut Frontmatter, inverse_field: &str, owning_id: &str)
    ensures
        final(ref_fm)@ == with_back_ref(old(ref_fm)@, inverse_field@, owning_id@),
{
    let mut items: Vec<Value> = match ref_fm.get(inverse_field) {
        Some(Value::Array(a)) => {
            let mut c: Vec<Value> = Vec::new();
            let mut i: usize = 0;
            while i < a.len()
                invariant
                    i <= a@.len(),
                    c@.len() == i,
                    forall|k: int| 0 <= k < i ==> (#[trigger] c@[k])@ == a@[k]@,
                decreases a@.len() - i,
            {
                c.push(a[i].clone());
                i += 1;
            }
            c
        },
        _ => Vec::new(),
    };
    let ghost old_items = if old(ref_fm)@.contains_key(inverse_field@) && old(ref_fm)@[inverse_field@] is Arr {
        old(ref_fm)@[inverse_field@]->Arr_0
    } else {
        Seq::empty()
    };
    let id_val = Value::String(owning_id.to_owned());
    let arr = Value::Array(items);
    assert(arr@->Arr_0 =~= old_items);
    let present = arr.contains(&id_val);
    let new_value = if present {
        arr
    } else {
        let mut items2 = match arr {
            Value::Array(v) => v,
            _ => Vec::new(),
        };
        items2.push(id_val);
        let r = Value::Array(items2);
        assert(r@->Arr_0 =~= old_items.push(ValueV::Str(owning_id@)));
        r
    };
    ref_fm.insert(inverse_field.to_owned(), new_value);
}

/// Adding a back reference twice is adding it once.
pub proof fn lemma_back_ref_idempotent(m: Map<Seq<char>, ValueV>, f: Seq<char>, id: Seq<char>)
    ensures
        with_back_ref(with_back_ref(m, f, id), f, id) == with_back_ref(m, f, id),
{
    let once = with_back_ref(m, f, id);
    let items = once[f]->Arr_0;
    let k = if array_contains(ValueV::Arr(if m.contains_key(f) && m[f] is Arr { m[f]->Arr_0 } else { Seq::empty() }), ValueV::Str(id)) {
        choose|i: int| 0 <= i < items.len() && crate::value::same_value(#[trigger] items[i], ValueV::Str(id))
    } else {
        items.len() - 1
    };
    assert(crate::value::same_value(items[k], ValueV::Str(id)));
    assert(array_contains(ValueV::Arr(items), ValueV::Str(id)));
    assert(with_back_ref(once, f, id) =~= once);
}

/// After a back reference is added, the inverse field is an array that
/// holds the owning entity.
pub proof fn lemma_back_ref_present(m: Map<Seq<char>, ValueV>, f: Seq<char>, id: Seq<char>)
    ensures
        with_back_ref(m, f, id).contains_key(f),
        with_back_ref(m, f, id)[f] is Arr,
        array_contains(with_back_ref(m, f, id)[f], ValueV::Str(id)),
{
    let once = with_back_ref(m, f, id);
    let items = once[f]->Arr_0;
    if !array_contains(ValueV::Arr(if m.contains_key(f) && m[f] is Arr { m[f]->Arr_0 } else { Seq::empty() }), ValueV::Str(id)) {
        assert(crate::value::same_value(items[items.len() - 1], ValueV::Str(id)));
    }
}

/// Whether the referenced entity's inverse field points back to `id`: for
/// a one-to-one link the field is the text `id`; otherwise it is an array
/// that holds it.
pub open spec fn points_back(m: Map<Seq<char>, ValueV>, f: Seq<char>, inverse_one: bool, id: Seq<char>) -> bool {
    if inverse_one {
        m.contains_key(f) && m[f] == ValueV::Str(id)
    } else {
        m.contains_key(f) && m[f] is Arr && array_contains(m[f], ValueV::Str(id))
    }
}

/// Whether a referenced entity points back to the entity `id`.
pub fn has_back_ref(ref_fm: &Frontmatter, inverse_field: &str, inverse_one: bool, id: &str) -> (r: bool)
    ensures
        r == points_back(ref_fm@, inverse_field@, inverse_one, id@),
{
    match ref_fm.get(inverse_field) {
        Some(v) => {
            if inverse_one {
                match v {
                    Value::String(s) => crate::text::str_equal(s.as_str(), id),
                    _ => false,
                }
            } else {
                match v {
                    Value::Array(_) => v.contains(&Value::String(id.to_owned())),
                    _ => false,
                }
            }
        },
        None => false,
    }
}

/// The value that repairs a missing back reference: the text `id` for a
/// one-to-one link; otherwise the array (a former value that is not an
/// array counts as empty) with `id` added when it is not there.
pub open spec fn repaired_back_ref(m: Map<Seq<char>, ValueV>, f: Seq<char>, inverse_one: bool, id: Seq<char>) -> ValueV {
    if inverse_one {
        ValueV::Str(id)
    } else {
        with_back_ref(m, f, id)[f]
    }
}

/// The value that repairs a missing back reference.
pub fn back_ref_repair(ref_fm: &Frontmatter, inverse_field: &str, inverse_one: bool, id: &str) -> (r: Value)
    ensures
        r@ == repaired_back_ref(ref_fm@, inverse_field@, inverse_one, id@),
{
    if inverse_one {
        Value::String(id.to_owned())
    } else {
        let mut copy = ref_fm.clone();
        add_inverse_ref(&mut copy, inverse_field, id);
        match copy.get(inverse_field) {
            Some(v) => v.clone(),
            None => Value::Null,
        }
    }
}

/// Writes the owning entity `owning_id` into the inverse field of a
/// referenced entity's frontmatter: for a one-to-one link the field becomes
/// the text `owning_id`; otherwise it becomes an array that holds it (added
/// once, a former value that is not an array dropped).
pub fn set_inverse_ref(ref_fm: &mut Frontmatter, inverse_field: &str, inverse_one: bool, owning_id: &str)
    ensures
        final(ref_fm)@ == old(ref_fm)@.insert(
            inverse_field@,
            repaired_back_ref(old(ref_fm)@, inverse_field@, inverse_one, owning_id@),
        ),
        points_back(final(ref_fm)@, inverse_field@, inverse_one, owning_id@),
{
    let v = back_ref_repair(ref_fm, inverse_field, inverse_one, owning_id);
    ref_fm.insert(inverse_field.to_owned(), v);
    proof {
        lemma_repair_points_back(old(ref_fm)@, inverse_field@, inverse_one, owning_id@);
    }
}

/// Writing the same back reference twice is writing it once.
pub proof fn lemma_inverse_ref_idempotent(m: Map<Seq<char>, ValueV>, f: Seq<char>, inverse_one: bool, id: Seq<char>)
    ensures
        ({
            let once = m.insert(f, repaired_back_ref(m, f, inverse_one, id));
            once.insert(f, repaired_back_ref(once, f, inverse_one, id)) == once
        }),
{
    let once = m.insert(f, repaired_back_ref(m, f, inverse_one, id));
    if inverse_one {
        assert(once.insert(f, repaired_back_ref(once, f, inverse_one, id)) =~= once);
    } else {
        assert(once =~= with_back_ref(m, f, id));
        lemma_back_ref_idempotent(m, f, id);
        assert(once.insert(f, repaired_back_ref(once, f, inverse_one, id)) =~= once);
    }
}

/// A repaired back reference points back.
pub proof fn lemma_repair_points_back(m: Map<Seq<char>, ValueV>, f: Seq<char>, inverse_one: bool, id: Seq<char>)
    ensures
        points_back(m.insert(f, repaired_back_ref(m, f, inverse_one, id)), f, inverse_one, id),
{
    if !inverse_one {
        lemma_back_ref_present(m, f, id);
    }
}

} // verus!
