//! Sorting query results: the `--sort-by` specification and the order it
//! puts entities in.

use vstd::prelude::*;
use crate::entity::Entity;
use crate::error::CortxError;
use crate::query::lexer::quote_end;
use crate::text::{chars_of, concat, is_whitespace, is_ws, slice_chars, string_of, trim, trim_chars};
use crate::value::{compare, flip, lemma_compare_flip, value_order, Order, ValueV};

verus! {

/// The arguments of a query: its expression, the output format and the
/// optional sort specification.
#[derive(Debug)]
pub struct QueryArgs {
    pub expression: String,
    pub format: String,
    pub sort_by: Option<String>,
}

/// Sort specification parsed from a `--sort-by` argument.
#[derive(Debug)]
pub struct SortSpec {
    pub field: String,
    pub descending: bool,
}

impl Clone for SortSpec {
    fn clone(&self) -> (r: Self)
        ensures
            r == *self,
    {
        SortSpec { field: self.field.clone(), descending: self.descending }
    }
}

/// The content of a sort specification: field name and direction.
pub open spec fn spec_view(s: SortSpec) -> (Seq<char>, bool) {
    (s.field@, s.descending)
}

/// The contents of a list of sort specifications.
pub open spec fn specs_view(s: Seq<SortSpec>) -> Seq<(Seq<char>, bool)> {
    Seq::new(s.len(), |i: int| spec_view(s[i]))
}

/// The first index at or after `i` that holds neither whitespace nor a comma.
pub open spec fn skip_separators(c: Seq<char>, i: int) -> int
    decreases c.len() - i,
{
    if 0 <= i < c.len() && (is_ws(c[i]) || c[i] == ',') {
        skip_separators(c, i + 1)
    } else {
        i
    }
}

/// The first index at or after `i` that holds no whitespace.
pub open spec fn skip_spaces(c: Seq<char>, i: int) -> int
    decreases c.len() - i,
{
    if 0 <= i < c.len() && is_ws(c[i]) {
        skip_spaces(c, i + 1)
    } else {
        i
    }
}

/// Where an unquoted field name that starts at `i` ends: at a `:`, a `,`,
/// whitespace or the end.
pub open spec fn bare_end(c: Seq<char>, i: int) -> int
    decreases c.len() - i,
{
    if 0 <= i < c.len() && c[i] != ':' && c[i] != ',' && !is_ws(c[i]) {
        bare_end(c, i + 1)
    } else {
        i
    }
}

/// Where a sort order that starts at `i` ends: at a `,`, whitespace or the end.
pub open spec fn order_end(c: Seq<char>, i: int) -> int
    decreases c.len() - i,
{
    if 0 <= i < c.len() && c[i] != ',' && !is_ws(c[i]) {
        order_end(c, i + 1)
    } else {
        i
    }
}

/// Whether a sort order word is `desc` (`Some(true)`), `asc` (`Some(false)`)
/// or neither.
pub open spec fn order_word(w: Seq<char>) -> Option<bool> {
    if w == "desc"@ || w == "DESC"@ {
        Some(true)
    } else if w == "asc"@ || w == "ASC"@ {
        Some(false)
    } else {
        None
    }
}

/// The sort specifications from index `i` on, or the message of the error
/// that refuses them.
pub open spec fn specs_from(c: Seq<char>, i: int) -> Result<Seq<(Seq<char>, bool)>, Seq<char>>
    decreases c.len() - i,
{
    let i1 = skip_separators(c, i);
    if i < 0 || i1 >= c.len() || i1 < i {
        Ok(Seq::empty())
    } else {
        let (field, i2, unclosed) = if c[i1] == '"' {
            let j = quote_end(c, i1 + 1);
            (c.subrange(i1 + 1, j), j + 1, j >= c.len())
        } else {
            let j = bare_end(c, i1);
            (c.subrange(i1, j), j, false)
        };
        if unclosed {
            Err("unclosed quoted field name in sort specification"@)
        } else {
            let i3 = skip_spaces(c, i2);
            let (ord, i4) = if 0 <= i3 < c.len() && c[i3] == ':' {
                let j = order_end(c, i3 + 1);
                (Some(c.subrange(i3 + 1, j)), j)
            } else {
                (None, i3)
            };
            match ord {
                Some(w) if order_word(w) is None => Err(
                    "invalid sort order '"@ + w + "', expected 'asc' or 'desc'"@,
                ),
                _ => {
                    let descending = match ord {
                        Some(w) => order_word(w) == Some(true),
                        None => false,
                    };
                    if trim(field).len() == 0 {
                        Err("empty field name in sort specification"@)
                    } else if i4 <= i || i4 > c.len() {
                        Err(Seq::empty())
                    } else {
                        match specs_from(c, i4) {
                            Ok(rest) => Ok(seq![(trim(field), descending)] + rest),
                            Err(e) => Err(e),
                        }
                    }
                },
            }
        }
    }
}

/// The sort specifications of a `--sort-by` argument, or the message of the
/// error that refuses it: `field[:order][,field[:order]...]`, a field name in
/// double quotes where it holds spaces, order `asc` (the default) or `desc`.
pub open spec fn sort_specs(s: Seq<char>) -> Result<Seq<(Seq<char>, bool)>, Seq<char>> {
    match specs_from(s, 0) {
        Ok(r) => if r.len() == 0 {
            Err("empty sort specification"@)
        } else {
            Ok(r)
        },
        Err(e) => Err(e),
    }
}

/// What the specifications read so far and the rest of the text make together.
pub open spec fn specs_after(
    done: Seq<(Seq<char>, bool)>,
    rest: Result<Seq<(Seq<char>, bool)>, Seq<char>>,
) -> Result<Seq<(Seq<char>, bool)>, Seq<char>> {
    match rest {
        Ok(r) => Ok(done + r),
        Err(e) => Err(e),
    }
}

fn sort_error(m: String) -> (e: CortxError)
    ensures
        e matches CortxError::QueryParse(x) && x@ == m@,
{
    CortxError::QueryParse(m)
}

fn finish_specs(result: Vec<SortSpec>) -> (r: Result<Vec<SortSpec>, CortxError>)
    ensures
        match r {
            Ok(v) => v@ == result@ && result@.len() > 0,
            Err(e) => result@.len() == 0 && (e matches CortxError::QueryParse(x) && x@
                == "empty sort specification"@),
        },
{
    if result.len() == 0 {
        Err(sort_error("empty sort specification".to_owned()))
    } else {
        Ok(result)
    }
}

/// Parse a `--sort-by` argument into sort specifications.
///
/// Supports a single field (`due` or `due:asc`), several fields
/// (`priority:asc,due:desc`) and quoted fields with spaces (`"Due By":desc`).
pub fn parse_sort_by(spec: &str) -> (r: Result<Vec<SortSpec>, CortxError>)
    ensures
        match r {
            Ok(v) => sort_specs(spec@) == Ok::<Seq<(Seq<char>, bool)>, Seq<char>>(specs_view(v@)),
            Err(e) => sort_specs(spec@) is Err && (e matches CortxError::QueryParse(x) && x@
                == sort_specs(spec@)->Err_0),
        },
{
    let c = chars_of(spec);
    let n = c.len();
    let mut result: Vec<SortSpec> = Vec::new();
    let mut i: usize = 0;
    assert(specs_view(result@) =~= Seq::<(Seq<char>, bool)>::empty());
    loop
        invariant
            i <= n,
            n == c@.len(),
            c@ == spec@,
            specs_from(c@, 0) == specs_after(specs_view(result@), specs_from(c@, i as int)),
        decreases n - i,
    {
        let ghost i0 = i;
        let ghost done = specs_view(result@);
        // Skip whitespace and commas
        while i < n && (is_whitespace(c[i]) || c[i] == ',')
            invariant
                i0 <= i <= n,
                n == c@.len(),
                skip_separators(c@, i0 as int) == skip_separators(c@, i as int),
            decreases n - i,
        {
            i += 1;
        }
        if i >= n {
            assert(specs_view(result@) + Seq::<(Seq<char>, bool)>::empty() =~= specs_view(result@));
            return finish_specs(result);
        }
        let ghost i1 = i;
        // Parse the field name, possibly quoted
        let field_chars = if c[i] == '"' {
            i += 1;
            let start = i;
            while i < n && c[i] != '"'
                invariant
                    start <= i <= n,
                    n == c@.len(),
                    quote_end(c@, start as int) == quote_end(c@, i as int),
                decreases n - i,
            {
                i += 1;
            }
            if i >= n {
                return Err(
                    sort_error("unclosed quoted field name in sort specification".to_owned()),
                );
            }
            let f = slice_chars(c.as_slice(), start, i);
            i += 1;
            f
        } else {
            let start = i;
            while i < n && c[i] != ':' && c[i] != ',' && !is_whitespace(c[i])
                invariant
                    start <= i <= n,
                    n == c@.len(),
                    bare_end(c@, start as int) == bare_end(c@, i as int),
                decreases n - i,
            {
                i += 1;
            }
            slice_chars(c.as_slice(), start, i)
        };
        // Skip whitespace
        let ghost i2 = i;
        while i < n && is_whitespace(c[i])
            invariant
                i2 <= i <= n,
                n == c@.len(),
                skip_spaces(c@, i2 as int) == skip_spaces(c@, i as int),
            decreases n - i,
        {
            i += 1;
        }
        // Parse the optional :order
        let mut descending = false;
        if i < n && c[i] == ':' {
            i += 1;
            let start = i;
            while i < n && c[i] != ',' && !is_whitespace(c[i])
                invariant
                    start <= i <= n,
                    n == c@.len(),
                    order_end(c@, start as int) == order_end(c@, i as int),
                decreases n - i,
            {
                i += 1;
            }
            let ord = slice_chars(c.as_slice(), start, i);
            let word = string_of(ord.as_slice());
            let w = word.as_str();
            if crate::text::str_equal(w, "desc") || crate::text::str_equal(w, "DESC") {
                descending = true;
            } else if crate::text::str_equal(w, "asc") || crate::text::str_equal(w, "ASC") {
                descending = false;
            } else {
                let a = concat("invalid sort order '", w);
                return Err(sort_error(concat(a.as_str(), "', expected 'asc' or 'desc'")));
            }
        }
        let field = trim_chars(field_chars.as_slice());
        if field.len() == 0 {
            return Err(sort_error("empty field name in sort specification".to_owned()));
        }
        let ghost item = (field@, descending);
        assert(i > i0);
        result.push(SortSpec { field: string_of(field.as_slice()), descending });
        proof {
            assert(specs_view(result@) =~= done.push(item));
            match specs_from(c@, i as int) {
                Ok(rest) => {
                    assert(done + (seq![item] + rest) =~= done.push(item) + rest);
                },
                Err(_) => {},
            }
        }
    }
}

/// The value of field `f` of an entity, if it has the field.
pub open spec fn field_of(e: Entity, f: Seq<char>) -> Option<ValueV> {
    if e.frontmatter@.contains_key(f) {
        Some(e.frontmatter@[f])
    } else {
        None
    }
}

/// The value that an entity is sorted by on field `f`: the field's value,
/// unless the field is missing or null.
pub open spec fn sort_key(e: Entity, f: Seq<char>) -> Option<ValueV> {
    without_null(field_of(e, f))
}

/// An optional value with a null counted as missing.
pub open spec fn without_null(v: Option<ValueV>) -> Option<ValueV> {
    match v {
        Some(ValueV::Null) => None,
        _ => v,
    }
}

/// How two optional sort keys compare: present values by their order
/// (incomparable ones as equal), turned around when descending; a missing
/// (or null) value after a present one whatever the direction.
pub open spec fn sort_order(a: Option<ValueV>, b: Option<ValueV>, descending: bool) -> Order {
    match (a, b) {
        (Some(x), Some(y)) => {
            let o = match compare(x, y) {
                Some(o) => o,
                None => Order::Equal,
            };
            if descending {
                flip(o)
            } else {
                o
            }
        },
        (None, None) => Order::Equal,
        (Some(_), None) => Order::Less,
        (None, Some(_)) => Order::Greater,
    }
}

/// How two entities sort by the specifications from the `k`-th on: by the
/// first that tells them apart.
pub open spec fn entity_order(a: Entity, b: Entity, specs: Seq<(Seq<char>, bool)>, k: int) -> Order
    decreases specs.len() - k,
{
    if k < 0 || k >= specs.len() {
        Order::Equal
    } else {
        let o = sort_order(sort_key(a, specs[k].0), sort_key(b, specs[k].0), specs[k].1);
        if o != Order::Equal {
            o
        } else {
            entity_order(a, b, specs, k + 1)
        }
    }
}

/// Whether each entity of `s[lo..hi]` sorts no later than the one after it.
pub open spec fn sorted_between(
    s: Seq<&Entity>,
    specs: Seq<(Seq<char>, bool)>,
    lo: int,
    hi: int,
) -> bool {
    forall|k: int| lo <= k && k + 1 < hi ==> #[trigger] adjacent_ok(s, specs, k)
}

/// Whether entity `k` sorts no later than entity `k + 1`.
pub open spec fn adjacent_ok(s: Seq<&Entity>, specs: Seq<(Seq<char>, bool)>, k: int) -> bool {
    entity_order(*s[k], *s[k + 1], specs, 0) != Order::Greater
}

/// Whether `s` is `orig` rearranged by `perm` (`s[k]` is `orig[perm[k]]`)
/// so that two entities change their relative order only where the one that
/// came first sorts strictly after the other: the rearrangement of a stable
/// sort.
pub open spec fn rearranged_stably(
    orig: Seq<&Entity>,
    s: Seq<&Entity>,
    specs: Seq<(Seq<char>, bool)>,
    perm: Seq<int>,
) -> bool {
    &&& perm.len() == s.len()
    &&& s.len() == orig.len()
    &&& forall|k: int| 0 <= k < perm.len() ==> 0 <= #[trigger] perm[k] < orig.len() && s[k] == orig[perm[k]]
    &&& forall|k: int, l: int| 0 <= k < l < perm.len() ==> #[trigger] perm[k] != #[trigger] perm[l]
    &&& forall|k: int, l: int|
        #![trigger perm[k], perm[l]]
        0 <= k < l < perm.len() && perm[k] > perm[l] ==> entity_order(
            *orig[perm[l]],
            *orig[perm[k]],
            specs,
            0,
        ) == Order::Greater
}

/// Swapping two neighbours of which the first sorts strictly after the
/// second keeps a rearrangement stable.
proof fn lemma_swap_keeps_stable(
    orig: Seq<&Entity>,
    before: Seq<&Entity>,
    specs: Seq<(Seq<char>, bool)>,
    perm: Seq<int>,
    j: int,
)
    requires
        rearranged_stably(orig, before, specs, perm),
        1 <= j < before.len(),
        entity_order(*before[j - 1], *before[j], specs, 0) == Order::Greater,
    ensures
        rearranged_stably(
            orig,
            before.update(j - 1, before[j]).update(j, before[j - 1]),
            specs,
            perm.update(j - 1, perm[j]).update(j, perm[j - 1]),
        ),
{
    let after = before.update(j - 1, before[j]).update(j, before[j - 1]);
    let np = perm.update(j - 1, perm[j]).update(j, perm[j - 1]);
    assert forall|k: int| 0 <= k < np.len() implies 0 <= #[trigger] np[k] < orig.len() && after[k]
        == orig[np[k]] by {
        if k == j - 1 {
            assert(np[k] == perm[j]);
        } else if k == j {
            assert(np[k] == perm[j - 1]);
        } else {
            assert(np[k] == perm[k]);
        }
    }
    assert forall|k: int, l: int| 0 <= k < l < np.len() implies #[trigger] np[k] != #[trigger] np[l] by {
        let mk = if k == j - 1 { j } else if k == j { j - 1 } else { k };
        let ml = if l == j - 1 { j } else if l == j { j - 1 } else { l };
        assert(np[k] == perm[mk]);
        assert(np[l] == perm[ml]);
        if mk < ml {
            assert(perm[mk] != perm[ml]);
        } else {
            assert(perm[ml] != perm[mk]);
        }
    }
    assert forall|k: int, l: int|
        #![trigger np[k], np[l]]
        0 <= k < l < np.len() && np[k] > np[l] implies entity_order(
            *orig[np[l]],
            *orig[np[k]],
            specs,
            0,
        ) == Order::Greater by {
        let mk = if k == j - 1 { j } else if k == j { j - 1 } else { k };
        let ml = if l == j - 1 { j } else if l == j { j - 1 } else { l };
        assert(np[k] == perm[mk]);
        assert(np[l] == perm[ml]);
        if k == j - 1 && l == j {
            assert(before[j - 1] == orig[perm[j - 1]]);
            assert(before[j] == orig[perm[j]]);
        } else {
            assert(mk < ml);
            assert(perm[mk] > perm[ml]);
        }
    }
}

proof fn lemma_entity_order_flip(a: Entity, b: Entity, specs: Seq<(Seq<char>, bool)>, k: int)
    ensures
        entity_order(b, a, specs, k) == flip(entity_order(a, b, specs, k)),
    decreases specs.len() - k,
{
    if 0 <= k < specs.len() {
        let fa = sort_key(a, specs[k].0);
        let fb = sort_key(b, specs[k].0);
        if fa is Some && fb is Some {
            lemma_compare_flip(fa->0, fb->0);
        }
        lemma_entity_order_flip(a, b, specs, k + 1);
    }
}

/// Compare two optional values for sorting: missing and null values always
/// sort to the end, whatever the direction.
fn compare_for_sort(
    a: Option<&crate::value::Value>,
    b: Option<&crate::value::Value>,
    descending: bool,
) -> (r: Order)
    ensures
        r == sort_order(
            without_null(
                match a {
                    Some(v) => Some(v@),
                    None => None,
                },
            ),
            without_null(
                match b {
                    Some(v) => Some(v@),
                    None => None,
                },
            ),
            descending,
        ),
{
    let a = match a {
        Some(crate::value::Value::Null) => None,
        _ => a,
    };
    let b = match b {
        Some(crate::value::Value::Null) => None,
        _ => b,
    };
    match (a, b) {
        (Some(av), Some(bv)) => {
            let o = match value_order(av, bv) {
                Some(o) => o,
                None => Order::Equal,
            };
            if descending {
                match o {
                    Order::Less => Order::Greater,
                    Order::Equal => Order::Equal,
                    Order::Greater => Order::Less,
                }
            } else {
                o
            }
        },
        (None, None) => Order::Equal,
        (Some(_), None) => Order::Less,
        (None, Some(_)) => Order::Greater,
    }
}

fn order_entities(a: &Entity, b: &Entity, specs: &[SortSpec]) -> (r: Order)
    ensures
        r == entity_order(*a, *b, specs_view(specs@), 0),
{
    let ghost sv = specs_view(specs@);
    let mut k: usize = 0;
    while k < specs.len()
        invariant
            k <= specs@.len(),
            sv == specs_view(specs@),
            entity_order(*a, *b, sv, 0) == entity_order(*a, *b, sv, k as int),
        decreases specs@.len() - k,
    {
        let f = specs[k].field.as_str();
        let o = compare_for_sort(a.get(f), b.get(f), specs[k].descending);
        assert(sv[k as int] == (specs@[k as int].field@, specs@[k as int].descending));
        if o != Order::Equal {
            return o;
        }
        k += 1;
    }
    Order::Equal
}

/// Sort entities by the given specifications: by each field in turn, a
/// missing or null value after every other one whatever the direction. The sort is
/// stable: entities that no specification tells apart keep their order.
pub fn sort_entities(entities: &mut Vec<&Entity>, specs: &[SortSpec])
    ensures
        final(entities)@.to_multiset() == old(entities)@.to_multiset(),
        sorted_between(final(entities)@, specs_view(specs@), 0, final(entities)@.len() as int),
        exists|perm: Seq<int>|
            #[trigger] rearranged_stably(old(entities)@, final(entities)@, specs_view(specs@), perm),
{
    let ghost sv = specs_view(specs@);
    let ghost orig = entities@;
    let ghost mut perm: Seq<int> = Seq::new(entities@.len(), |k: int| k);
    let n = entities.len();
    let mut i: usize = 1;
    if n == 0 {
        assert(rearranged_stably(orig, entities@, sv, perm));
        return;
    }
    assert(rearranged_stably(orig, entities@, sv, perm));
    while i < n
        invariant
            1 <= i <= n,
            n == entities@.len(),
            sv == specs_view(specs@),
            orig == old(entities)@,
            entities@.to_multiset() == old(entities)@.to_multiset(),
            sorted_between(entities@, sv, 0, i as int),
            rearranged_stably(orig, entities@, sv, perm),
        decreases n - i,
    {
        let mut j: usize = i;
        while j > 0 && order_entities(entities[j - 1], entities[j], specs) == Order::Greater
            invariant
                0 <= j <= i < n,
                n == entities@.len(),
                sv == specs_view(specs@),
                orig == old(entities)@,
                entities@.to_multiset() == old(entities)@.to_multiset(),
                rearranged_stably(orig, entities@, sv, perm),
                forall|k: int|
                    0 <= k && k + 1 <= i && k != j - 1 ==> #[trigger] adjacent_ok(entities@, sv, k),
                0 < j < i ==> entity_order(*entities@[j - 1], *entities@[j + 1], sv, 0)
                    != Order::Greater,
            decreases j,
        {
            let ghost before = entities@;
            let x = entities[j];
            let y = entities[j - 1];
            entities.set(j - 1, x);
            entities.set(j, y);
            proof {
                lemma_swap_keeps_stable(orig, before, sv, perm, j as int);
                perm = perm.update(j - 1, perm[j as int]).update(j as int, perm[j - 1]);
                lemma_entity_order_flip(*y, *x, sv, 0);
                vstd::seq_lib::to_multiset_update(before, (j - 1) as int, x);
                vstd::seq_lib::to_multiset_update(before.update((j - 1) as int, x), j as int, y);
                assert(entities@ == before.update((j - 1) as int, x).update(j as int, y));
                broadcast use vstd::multiset::group_multiset_axioms, vstd::multiset::group_multiset_properties;
                assert(before[j as int] == x && before[j - 1] == y);
                vstd::seq_lib::to_multiset_contains(before, y);
                vstd::seq_lib::to_multiset_contains(before, x);
                assert(before.contains(y));
                assert(before.contains(x));
                assert(entities@.to_multiset() =~= before.to_multiset());
                assert forall|k: int|
                    0 <= k && k + 1 <= i && k != j - 2 implies #[trigger] adjacent_ok(entities@, sv, k) by {
                    if k == j - 1 {
                    } else if k == j {
                        assert(entities@[k] == before[k - 1]);
                        assert(entities@[k + 1] == before[k + 1]);
                    } else {
                        assert(entities@[k] == before[k]);
                        assert(entities@[k + 1] == before[k + 1]);
                        assert(adjacent_ok(before, sv, k));
                    }
                }
                if j >= 2 {
                    assert(entities@[j - 2] == before[j - 2]);
                    assert(entities@[j as int] == before[j - 1]);
                    assert(adjacent_ok(before, sv, j - 2));
                }
            }
            j -= 1;
        }
        i += 1;
    }
}

/// Missing and null values sort last: in any list sorted by the
/// specifications, ascending or descending, an entity whose first
/// specification's field is missing or null never comes before one whose
/// field holds a value that is not null.
pub proof fn lemma_missing_sorts_last(s: Seq<&Entity>, specs: Seq<(Seq<char>, bool)>, i: int, j: int)
    requires
        sorted_between(s, specs, 0, s.len() as int),
        specs.len() > 0,
        0 <= i < j < s.len(),
        field_of(*s[i], specs[0].0) is None || field_of(*s[i], specs[0].0) == Some(ValueV::Null),
    ensures
        field_of(*s[j], specs[0].0) is None || field_of(*s[j], specs[0].0) == Some(ValueV::Null),
    decreases j - i,
{
    assert(adjacent_ok(s, specs, i));
    if sort_key(*s[i + 1], specs[0].0) is Some {
        assert(entity_order(*s[i], *s[i + 1], specs, 0) == Order::Greater);
    }
    if i + 1 < j {
        lemma_missing_sorts_last(s, specs, i + 1, j);
    }
}

/// The entities that a parsed query matches, in their order.
pub fn matching_refs<'a>(entities: &'a Vec<Entity>, expr: &crate::query::ast::Expr) -> (r: Vec<&'a Entity>)
    ensures
        r@.map_values(|e: &Entity| *e) == crate::cli::meta::matching(
            entities@,
            expr@,
            entities@.len() as int,
        ),
{
    let mut r: Vec<&Entity> = Vec::new();
    let mut i: usize = 0;
    while i < entities.len()
        invariant
            i <= entities@.len(),
            r@.map_values(|e: &Entity| *e) == crate::cli::meta::matching(entities@, expr@, i as int),
        decreases entities@.len() - i,
    {
        let ghost before = r@.map_values(|e: &Entity| *e);
        if crate::query::evaluator::evaluate(expr, &entities[i]) {
            r.push(&entities[i]);
            assert(r@.map_values(|e: &Entity| *e) =~= before.push(entities@[i as int]));
        }
        i += 1;
    }
    r
}

/// The line that lists a result: `- [type] title (id)`.
pub open spec fn result_line(e: Entity) -> Seq<char> {
    "- ["@ + e.entity_type@ + "] "@ + crate::entity::title_of(e.frontmatter@, e.id@) + " ("@
        + e.id@ + ")"@
}

/// The line that lists a result.
pub fn result_line_of(e: &Entity) -> (r: String)
    ensures
        r@ == result_line(*e),
{
    let mut r = "- [".to_owned();
    r.append(e.entity_type.as_str());
    r.append("] ");
    r.append(e.title());
    r.append(" (");
    r.append(e.id.as_str());
    r.append(")");
    r
}

/// The details shown under a result: its status and due date, those it
/// has, as `status: s, due: d`; `None` when it has neither.
pub open spec fn result_details(fm: Map<Seq<char>, ValueV>) -> Option<Seq<char>> {
    let status = if fm.contains_key("status"@) {
        Some("status: "@ + crate::value::display(fm["status"@]))
    } else {
        None
    };
    let due = if fm.contains_key("due"@) {
        Some("due: "@ + crate::value::display(fm["due"@]))
    } else {
        None
    };
    match (status, due) {
        (Some(s), Some(d)) => Some(s + ", "@ + d),
        (Some(s), None) => Some(s),
        (None, Some(d)) => Some(d),
        (None, None) => None,
    }
}

/// The details shown under a result.
pub fn result_details_of(e: &Entity) -> (r: Option<String>)
    ensures
        match result_details(e.frontmatter@) {
            Some(t) => r matches Some(x) && x@ == t,
            None => r is None,
        },
{
    let status = match e.get("status") {
        Some(v) => {
            let mut t = "status: ".to_owned();
            let d = v.to_display_string();
            t.append(d.as_str());
            Some(t)
        },
        None => None,
    };
    let due = match e.get("due") {
        Some(v) => {
            let mut t = "due: ".to_owned();
            let d = v.to_display_string();
            t.append(d.as_str());
            Some(t)
        },
        None => None,
    };
    match (status, due) {
        (Some(mut s), Some(d)) => {
            s.append(", ");
            s.append(d.as_str());
            Some(s)
        },
        (Some(s), None) => Some(s),
        (None, Some(d)) => Some(d),
        (None, None) => None,
    }
}

/// The text of two sort specifications joined by a comma.
pub open spec fn joined(a: Seq<char>, b: Seq<char>) -> Seq<char> {
    a + seq![','] + b
}

/// Each scanner of a sort specification stops no earlier than it starts.
proof fn lemma_scanners_advance(c: Seq<char>, i: int)
    requires
        0 <= i,
    ensures
        skip_separators(c, i) >= i,
        skip_spaces(c, i) >= i,
        bare_end(c, i) >= i,
        order_end(c, i) >= i,
        quote_end(c, i) >= i,
        i <= c.len() ==> skip_separators(c, i) <= c.len() && skip_spaces(c, i) <= c.len() && bare_end(
            c,
            i,
        ) <= c.len() && order_end(c, i) <= c.len() && quote_end(c, i) <= c.len(),
    decreases c.len() - i,
{
    if i < c.len() {
        lemma_scanners_advance(c, i + 1);
    }
}

/// Within the first text, the scanners see the joined text as they see the
/// first text: the comma after it stops them where its end does.
proof fn lemma_scanners_prefix(a: Seq<char>, b: Seq<char>, i: int)
    requires
        0 <= i <= a.len(),
    ensures
        bare_end(joined(a, b), i) == bare_end(a, i),
        order_end(joined(a, b), i) == order_end(a, i),
        skip_spaces(joined(a, b), i) == skip_spaces(a, i),
        quote_end(a, i) < a.len() ==> quote_end(joined(a, b), i) == quote_end(a, i),
        skip_separators(a, i) < a.len() ==> skip_separators(joined(a, b), i) == skip_separators(a, i),
        skip_separators(a, i) >= a.len() ==> skip_separators(joined(a, b), i) == skip_separators(
            joined(a, b),
            a.len() as int,
        ),
    decreases a.len() - i,
{
    let c = joined(a, b);
    assert(c[a.len() as int] == ',');
    assert(!is_ws(','));
    if i < a.len() {
        assert(c[i] == a[i]);
        lemma_scanners_prefix(a, b, i + 1);
    }
}

/// Past the comma, the scanners see the joined text as they see the second
/// text, shifted.
proof fn lemma_scanners_shift(a: Seq<char>, b: Seq<char>, k: int)
    requires
        0 <= k,
    ensures
        ({
            let c = joined(a, b);
            let d = a.len() + 1;
            &&& bare_end(c, k + d) == bare_end(b, k) + d
            &&& order_end(c, k + d) == order_end(b, k) + d
            &&& skip_spaces(c, k + d) == skip_spaces(b, k) + d
            &&& quote_end(c, k + d) == quote_end(b, k) + d
            &&& skip_separators(c, k + d) == skip_separators(b, k) + d
        }),
    decreases b.len() - k,
{
    let c = joined(a, b);
    let d = a.len() + 1;
    if k < b.len() {
        assert(c[k + d] == b[k]);
        lemma_scanners_shift(a, b, k + 1);
    }
}

/// Starting anywhere up to the first item's start, a specification reads
/// the same.
proof fn lemma_specs_same_start(c: Seq<char>, i: int, m: int)
    requires
        0 <= i <= m,
        m <= skip_separators(c, m),
        skip_separators(c, i) == skip_separators(c, m),
    ensures
        specs_from(c, i) == specs_from(c, m),
{
    let i1 = skip_separators(c, m);
    if i1 < c.len() {
        lemma_scanners_advance(c, i1);
        lemma_scanners_advance(c, i1 + 1);
        if c[i1] == '"' {
            let j = quote_end(c, i1 + 1);
            lemma_scanners_advance(c, j + 1);
            let i3 = skip_spaces(c, j + 1);
            if 0 <= i3 < c.len() && c[i3] == ':' {
                lemma_scanners_advance(c, i3 + 1);
            }
        } else {
            let j = bare_end(c, i1);
            lemma_scanners_advance(c, j);
            let i3 = skip_spaces(c, j);
            if 0 <= i3 < c.len() && c[i3] == ':' {
                lemma_scanners_advance(c, i3 + 1);
            }
        }
    }
}

/// Past the comma, the joined text reads as the second text.
proof fn lemma_specs_shift(a: Seq<char>, b: Seq<char>, k: int)
    requires
        0 <= k,
    ensures
        specs_from(joined(a, b), k + a.len() + 1) == specs_from(b, k),
    decreases b.len() - k,
{
    let c = joined(a, b);
    let d = a.len() + 1;
    lemma_scanners_shift(a, b, k);
    let i1 = skip_separators(b, k);
    lemma_scanners_advance(b, k);
    if i1 < b.len() {
        assert(c[i1 + d] == b[i1]);
        lemma_scanners_shift(a, b, i1);
        lemma_scanners_shift(a, b, i1 + 1);
        lemma_scanners_advance(b, i1);
        lemma_scanners_advance(b, i1 + 1);
        let (j, i2) = if b[i1] == '"' {
            let j = quote_end(b, i1 + 1);
            (j, j + 1)
        } else {
            let j = bare_end(b, i1);
            (j, j)
        };
        if b[i1] == '"' {
            assert(c.subrange(i1 + d + 1, j + d) =~= b.subrange(i1 + 1, j));
        } else {
            assert(c.subrange(i1 + d, j + d) =~= b.subrange(i1, j));
        }
        if i2 <= b.len() {
            lemma_scanners_shift(a, b, i2);
            lemma_scanners_advance(b, i2);
            let i3 = skip_spaces(b, i2);
            if 0 <= i3 < b.len() {
                assert(c[i3 + d] == b[i3]);
            }
            if 0 <= i3 < b.len() && b[i3] == ':' {
                lemma_scanners_shift(a, b, i3 + 1);
                lemma_scanners_advance(b, i3 + 1);
                let j2 = order_end(b, i3 + 1);
                assert(c.subrange(i3 + d + 1, j2 + d) =~= b.subrange(i3 + 1, j2));
                if k < j2 && j2 <= b.len() {
                    lemma_specs_shift(a, b, j2);
                }
            } else {
                if k < i3 && i3 <= b.len() {
                    lemma_specs_shift(a, b, i3);
                }
            }
        }
    }
}

/// Within the first text, the joined text gives what the first text gives,
/// followed by what the joined text gives from the end of the first text.
#[verifier::rlimit(80)]
proof fn lemma_specs_prefix(a: Seq<char>, b: Seq<char>, i: int)
    requires
        0 <= i <= a.len(),
        specs_from(a, i) is Ok,
    ensures
        specs_from(joined(a, b), i) == specs_after(
            specs_from(a, i)->Ok_0,
            specs_from(joined(a, b), a.len() as int),
        ),
    decreases a.len() - i,
{
    let c = joined(a, b);
    let n = a.len() as int;
    assert(c[n] == ',');
    lemma_scanners_prefix(a, b, i);
    lemma_scanners_advance(a, i);
    let i1 = skip_separators(a, i);
    if i1 >= n {
        lemma_scanners_prefix(a, b, n);
        lemma_scanners_advance(c, n);
        lemma_specs_same_start(c, i, n);
        assert(specs_from(a, i)->Ok_0 =~= Seq::<(Seq<char>, bool)>::empty());
        match specs_from(c, n) {
            Ok(t) => {
                assert(Seq::<(Seq<char>, bool)>::empty() + t =~= t);
            },
            Err(_) => {},
        }
    } else {
        assert(c[i1] == a[i1]);
        lemma_scanners_prefix(a, b, i1);
        lemma_scanners_prefix(a, b, i1 + 1);
        lemma_scanners_advance(a, i1);
        lemma_scanners_advance(a, i1 + 1);
        let (j, i2) = if a[i1] == '"' {
            let j = quote_end(a, i1 + 1);
            (j, j + 1)
        } else {
            let j = bare_end(a, i1);
            (j, j)
        };
        if a[i1] == '"' {
            if j < n {
                assert(c.subrange(i1 + 1, j) =~= a.subrange(i1 + 1, j));
            }
        } else {
            assert(c.subrange(i1, j) =~= a.subrange(i1, j));
        }
        if i2 <= n {
            lemma_scanners_prefix(a, b, i2);
            lemma_scanners_advance(a, i2);
            let i3 = skip_spaces(a, i2);
            if 0 <= i3 < n {
                assert(c[i3] == a[i3]);
            }
            if 0 <= i3 < n && a[i3] == ':' {
                lemma_scanners_prefix(a, b, i3 + 1);
                lemma_scanners_advance(a, i3 + 1);
                let j2 = order_end(a, i3 + 1);
                assert(c.subrange(i3 + 1, j2) =~= a.subrange(i3 + 1, j2));
                if i < j2 && j2 <= n && specs_from(a, j2) is Ok {
                    lemma_specs_prefix(a, b, j2);
                    let rest = specs_from(a, j2)->Ok_0;
                    match specs_from(c, n) {
                        Ok(t) => {
                            assert(seq![(trim(a.subrange(i1 + 1, j)), order_word(a.subrange(i3 + 1, j2))
                                == Some(true))] + (rest + t) =~= (seq![
                                (trim(a.subrange(i1 + 1, j)), order_word(a.subrange(i3 + 1, j2))
                                    == Some(true)),
                            ] + rest) + t);
                            assert(seq![(trim(a.subrange(i1, j)), order_word(a.subrange(i3 + 1, j2))
                                == Some(true))] + (rest + t) =~= (seq![
                                (trim(a.subrange(i1, j)), order_word(a.subrange(i3 + 1, j2))
                                    == Some(true)),
                            ] + rest) + t);
                        },
                        Err(_) => {},
                    }
                }
            } else {
                if i < i3 && i3 <= n && specs_from(a, i3) is Ok {
                    lemma_specs_prefix(a, b, i3);
                    let rest = specs_from(a, i3)->Ok_0;
                    match specs_from(c, n) {
                        Ok(t) => {
                            assert(seq![(trim(a.subrange(i1 + 1, j)), false)] + (rest + t) =~= (seq![
                                (trim(a.subrange(i1 + 1, j)), false),
                            ] + rest) + t);
                            assert(seq![(trim(a.subrange(i1, j)), false)] + (rest + t) =~= (seq![
                                (trim(a.subrange(i1, j)), false),
                            ] + rest) + t);
                        },
                        Err(_) => {},
                    }
                }
            }
        }
    }
}

/// Joining two sort specifications with a comma joins their lists of
/// specifications, in order.
pub proof fn lemma_sort_specs_join(a: Seq<char>, b: Seq<char>)
    requires
        sort_specs(a) is Ok,
        sort_specs(b) is Ok,
    ensures
        sort_specs(joined(a, b)) == Ok::<Seq<(Seq<char>, bool)>, Seq<char>>(
            sort_specs(a)->Ok_0 + sort_specs(b)->Ok_0,
        ),
{
    let c = joined(a, b);
    let n = a.len() as int;
    lemma_specs_prefix(a, b, 0);
    assert(c[n] == ',');
    assert(!is_ws(','));
    lemma_scanners_advance(c, n + 1);
    lemma_specs_same_start(c, n, n + 1);
    lemma_specs_shift(a, b, 0);
}

/// Whether a character may stand in an unquoted field name of a sort
/// specification: no `:`, `,`, `"` or whitespace.
pub open spec fn name_char(ch: char) -> bool {
    ch != ':' && ch != ',' && ch != '"' && !is_ws(ch)
}

/// An unquoted field name ends where its run of name characters ends.
proof fn lemma_bare_run(c: Seq<char>, i: int, n: int)
    requires
        0 <= i <= n <= c.len(),
        forall|k: int| i <= k < n ==> name_char(#[trigger] c[k]),
        n < c.len() ==> c[n] == ':',
    ensures
        bare_end(c, i) == n,
    decreases n - i,
{
    if i < n {
        lemma_bare_run(c, i + 1, n);
    }
}

/// An order word runs to the end of a text that holds no comma or
/// whitespace from `i` on.
proof fn lemma_order_run(c: Seq<char>, i: int)
    requires
        0 <= i <= c.len(),
        forall|k: int| i <= k < c.len() ==> #[trigger] c[k] != ',' && !is_ws(c[k]),
    ensures
        order_end(c, i) == c.len(),
    decreases c.len() - i,
{
    if i < c.len() {
        lemma_order_run(c, i + 1);
    }
}

/// How `field:word` reads, for an unquoted field name and a word without
/// commas or whitespace.
proof fn lemma_field_with_order(f: Seq<char>, w: Seq<char>)
    requires
        f.len() > 0,
        forall|k: int| 0 <= k < f.len() ==> name_char(#[trigger] f[k]),
        forall|k: int| 0 <= k < w.len() ==> #[trigger] w[k] != ',' && !is_ws(w[k]),
    ensures
        sort_specs(f + seq![':'] + w) == match order_word(w) {
            Some(d) => Ok::<Seq<(Seq<char>, bool)>, Seq<char>>(seq![(f, d)]),
            None => Err("invalid sort order '"@ + w + "', expected 'asc' or 'desc'"@),
        },
{
    let c = f + seq![':'] + w;
    let n = f.len() as int;
    assert(c[0] == f[0]);
    assert(name_char(f[0]));
    assert(skip_separators(c, 0) == 0);
    assert forall|k: int| 0 <= k < n implies name_char(#[trigger] c[k]) by {
        assert(c[k] == f[k]);
    }
    assert(c[n] == ':');
    lemma_bare_run(c, 0, n);
    assert(c.subrange(0, n) =~= f);
    assert(!is_ws(':'));
    assert(skip_spaces(c, n) == n);
    assert forall|k: int| n + 1 <= k < c.len() implies #[trigger] c[k] != ',' && !is_ws(c[k]) by {
        assert(c[k] == w[k - n - 1]);
    }
    lemma_order_run(c, n + 1);
    assert(c.subrange(n + 1, c.len() as int) =~= w);
    assert(name_char(f[n - 1]));
    crate::text::lemma_trim_fixed(f);
    assert(skip_separators(c, c.len() as int) == c.len());
    assert(specs_from(c, c.len() as int) == Ok::<Seq<(Seq<char>, bool)>, Seq<char>>(Seq::empty()));
    match order_word(w) {
        Some(d) => {
            assert(seq![(f, d)] + Seq::<(Seq<char>, bool)>::empty() =~= seq![(f, d)]);
        },
        None => {},
    }
}

/// A field name alone reads as ascending.
proof fn lemma_field_alone(f: Seq<char>)
    requires
        f.len() > 0,
        forall|k: int| 0 <= k < f.len() ==> name_char(#[trigger] f[k]),
    ensures
        sort_specs(f) == Ok::<Seq<(Seq<char>, bool)>, Seq<char>>(seq![(f, false)]),
{
    let n = f.len() as int;
    assert(name_char(f[0]));
    assert(skip_separators(f, 0) == 0);
    lemma_bare_run(f, 0, n);
    assert(f.subrange(0, n) =~= f);
    assert(name_char(f[n - 1]));
    crate::text::lemma_trim_fixed(f);
    assert(skip_spaces(f, n) == n);
    assert(skip_separators(f, n) == n);
    assert(specs_from(f, n) == Ok::<Seq<(Seq<char>, bool)>, Seq<char>>(Seq::empty()));
    assert(f[0] != '"');
    assert(seq![(f, false)] + Seq::<(Seq<char>, bool)>::empty() =~= seq![(f, false)]);
    assert(specs_from(f, 0) == Ok::<Seq<(Seq<char>, bool)>, Seq<char>>(seq![(f, false)]));
}

/// The order words: for every unquoted field name `f`, `f:desc` and
/// `f:DESC` sort by `f` descending; `f:asc`, `f:ASC` and `f` alone sort by
/// it ascending.
pub proof fn lemma_order_words(f: Seq<char>)
    requires
        f.len() > 0,
        forall|k: int| 0 <= k < f.len() ==> name_char(#[trigger] f[k]),
    ensures
        sort_specs(f + seq![':'] + "desc"@) == Ok::<Seq<(Seq<char>, bool)>, Seq<char>>(seq![(f, true)]),
        sort_specs(f + seq![':'] + "DESC"@) == Ok::<Seq<(Seq<char>, bool)>, Seq<char>>(seq![(f, true)]),
        sort_specs(f + seq![':'] + "asc"@) == Ok::<Seq<(Seq<char>, bool)>, Seq<char>>(seq![(f, false)]),
        sort_specs(f + seq![':'] + "ASC"@) == Ok::<Seq<(Seq<char>, bool)>, Seq<char>>(seq![(f, false)]),
        sort_specs(f) == Ok::<Seq<(Seq<char>, bool)>, Seq<char>>(seq![(f, false)]),
{
    reveal_strlit("desc");
    reveal_strlit("DESC");
    reveal_strlit("asc");
    reveal_strlit("ASC");
    assert("desc"@[0] != "DESC"@[0]);
    assert("asc"@.len() != "desc"@.len() && "asc"@.len() != "DESC"@.len());
    assert("ASC"@.len() != "desc"@.len() && "ASC"@.len() != "DESC"@.len());
    lemma_field_with_order(f, "desc"@);
    lemma_field_with_order(f, "DESC"@);
    lemma_field_with_order(f, "asc"@);
    lemma_field_with_order(f, "ASC"@);
    lemma_field_alone(f);
}

} // verus!
