//! Aggregations over a field of the entities that a query selects: its
//! distinct values, and how many entities hold each.

use vstd::prelude::*;
use crate::entity::Entity;
use crate::error::CortxError;
use crate::frontmatter::{ascending, lemma_insert_ascending, lemma_insert_contains};
use crate::query::ast::Expr;
use crate::query::evaluator::{entity_matches, evaluate};
use crate::query::parser::{context_of_day, parse_query_with, parsed_as, DateContext, DateContextV};
use crate::text::{holds_text, str_equal, texts};
use crate::value::{
    chars_order, compare_strs, display, lemma_chars_order_equal, lemma_chars_order_flip, local_today,
    Order, Value, ValueV,
};

verus! {

/// The meta commands.
#[derive(Debug)]
pub enum MetaCommands {
    /// Get distinct values for a field.
    Distinct { field: String, filter: Option<String> },
    /// Count entities grouped by a field.
    CountBy { field: String, filter: Option<String> },
}

/// The arguments of `cortx meta`.
#[derive(Debug)]
pub struct MetaArgs {
    pub command: MetaCommands,
}

/// The entities among the first `n` that a query matches, in order.
pub open spec fn matching(es: Seq<Entity>, q: crate::query::ast::ExprV, n: int) -> Seq<Entity>
    decreases n,
{
    if n <= 0 || n > es.len() {
        Seq::empty()
    } else if entity_matches(q, es[n - 1].frontmatter@, es[n - 1].body@) {
        matching(es, q, n - 1).push(es[n - 1])
    } else {
        matching(es, q, n - 1)
    }
}

/// The entities that a parsed query matches, in their order.
pub fn select_matching(entities: Vec<Entity>, expr: &Expr) -> (r: Vec<Entity>)
    ensures
        r@ == matching(entities@, expr@, entities@.len() as int),
{
    let ghost es = entities@;
    let mut rest = entities;
    let mut r: Vec<Entity> = Vec::new();
    let ghost mut i: int = 0;
    while rest.len() > 0
        invariant
            0 <= i <= es.len(),
            rest@ == es.subrange(i, es.len() as int),
            r@ == matching(es, expr@, i),
        decreases rest@.len(),
    {
        let e = rest.remove(0);
        proof {
            assert(e == es[i]);
            assert(rest@ =~= es.subrange(i + 1, es.len() as int));
        }
        if evaluate(expr, &e) {
            r.push(e);
        }
        proof {
            i = i + 1;
        }
    }
    proof {
        assert(i == es.len());
    }
    r
}

/// The entities that a filter selects: all of them without a filter;
/// otherwise those that the query matches, the query's date keywords read
/// with `ctx`. A filter that does not parse is a query error.
pub fn apply_filter_with(entities: Vec<Entity>, filter: Option<&str>, ctx: &DateContext) -> (r:
    Result<Vec<Entity>, CortxError>)
    ensures
        match filter {
            None => r == Ok::<Vec<Entity>, CortxError>(entities),
            Some(f) => exists|q: Result<Expr, CortxError>|
                #![trigger parsed_as(q, f@, ctx@)]
                parsed_as(q, f@, ctx@) && match q {
                    Ok(e) => r matches Ok(v) && v@ == matching(
                        entities@,
                        e@,
                        entities@.len() as int,
                    ),
                    Err(err) => r == Err::<Vec<Entity>, CortxError>(err),
                },
        },
{
    match filter {
        None => Ok(entities),
        Some(f) => {
            let q = parse_query_with(f, ctx);
            let ghost qg = q;
            match q {
                Ok(e) => {
                    let r = select_matching(entities, &e);
                    assert(parsed_as(qg, f@, ctx@));
                    Ok(r)
                },
                Err(err) => {
                    assert(parsed_as(qg, f@, ctx@));
                    Err(err)
                },
            }
        },
    }
}

/// The entities that a filter selects, the query's date keywords read as
/// the days around today.
pub fn apply_filter(entities: Vec<Entity>, filter: Option<&str>) -> (r: Result<Vec<Entity>, CortxError>)
    ensures
        filter is None ==> r == Ok::<Vec<Entity>, CortxError>(entities),
        filter matches Some(f) ==> exists|ctx: DateContextV, q: Result<Expr, CortxError>|
            #![trigger parsed_as(q, f@, ctx)]
            context_of_day(ctx) && parsed_as(q, f@, ctx) && match q {
                Ok(e) => r matches Ok(v) && v@ == matching(entities@, e@, entities@.len() as int),
                Err(err) => r == Err::<Vec<Entity>, CortxError>(err),
            },
{
    let ctx = DateContext::of_day(local_today());
    assert(context_of_day(ctx@));
    apply_filter_with(entities, filter, &ctx)
}

/// The texts that a field value contributes: each item of an array, or the
/// value itself, as they display.
pub open spec fn value_texts(v: ValueV) -> Seq<Seq<char>> {
    match v {
        ValueV::Arr(x) => x.map_values(|i: ValueV| display(i)),
        _ => seq![display(v)],
    }
}

/// The texts that the field `f` contributes over the first `n` entities.
pub open spec fn field_texts(es: Seq<Entity>, f: Seq<char>, n: int) -> Seq<Seq<char>>
    decreases n,
{
    if n <= 0 || n > es.len() {
        Seq::empty()
    } else if es[n - 1].frontmatter@.contains_key(f) {
        field_texts(es, f, n - 1) + value_texts(es[n - 1].frontmatter@[f])
    } else {
        field_texts(es, f, n - 1)
    }
}

fn value_texts_of(v: &Value) -> (r: Vec<String>)
    ensures
        texts(r@) == value_texts(v@),
{
    match v {
        Value::Array(items) => {
            let ghost x = v@->Arr_0;
            let mut r: Vec<String> = Vec::new();
            let mut i: usize = 0;
            while i < items.len()
                invariant
                    i <= items@.len(),
                    *v == Value::Array(*items),
                    x == v@->Arr_0,
                    x.len() == items@.len(),
                    r@.len() == i,
                    forall|k: int| 0 <= k < i ==> (#[trigger] r@[k])@ == display(x[k]),
                decreases items@.len() - i,
            {
                assert(x[i as int] == items@[i as int]@);
                r.push(items[i].to_display_string());
                i += 1;
            }
            assert(texts(r@) =~= value_texts(v@));
            r
        },
        _ => {
            let mut r: Vec<String> = Vec::new();
            r.push(v.to_display_string());
            assert(texts(r@) =~= value_texts(v@));
            r
        },
    }
}

/// The texts that a field contributes over the entities, in order.
pub fn field_values(entities: &Vec<Entity>, field: &str) -> (r: Vec<String>)
    ensures
        texts(r@) == field_texts(entities@, field@, entities@.len() as int),
{
    let mut r: Vec<String> = Vec::new();
    let mut i: usize = 0;
    while i < entities.len()
        invariant
            i <= entities@.len(),
            texts(r@) == field_texts(entities@, field@, i as int),
        decreases entities@.len() - i,
    {
        match entities[i].get(field) {
            Some(v) => {
                let mut more = value_texts_of(v);
                let ghost before = r@;
                let ghost mv = more@;
                r.append(&mut more);
                proof {
                    assert(texts(before + mv) =~= texts(before) + texts(mv));
                }
            },
            None => {},
        }
        i += 1;
    }
    r
}

/// The distinct texts that a field contributes over the entities, in
/// alphabetical order.
pub fn distinct_values(entities: &Vec<Entity>, field: &str) -> (r: Vec<String>)
    ensures
        ascending(texts(r@)),
        texts(r@).no_duplicates(),
        forall|t: Seq<char>|
            texts(r@).contains(t) <==> field_texts(entities@, field@, entities@.len() as int).contains(t),
{
    let all = field_values(entities, field);
    let ghost av = texts(all@);
    let mut r: Vec<String> = Vec::new();
    let mut i: usize = 0;
    while i < all.len()
        invariant
            i <= all@.len(),
            av == texts(all@),
            ascending(texts(r@)),
            forall|t: Seq<char>| texts(r@).contains(t) <==> av.take(i as int).contains(t),
        decreases all@.len() - i,
    {
        let key = all[i].clone();
        let ghost rv = texts(r@);
        let ghost kv = key@;
        assert(av[i as int] == kv);
        let mut p: usize = 0;
        while p < r.len() && compare_strs(r[p].as_str(), key.as_str()) == Order::Less
            invariant
                p <= r@.len(),
                rv == texts(r@),
                kv == key@,
                forall|m: int| 0 <= m < p ==> chars_order(#[trigger] rv[m], kv) == Order::Less,
            decreases r@.len() - p,
        {
            assert(rv[p as int] == r@[p as int]@);
            p += 1;
        }
        let present = p < r.len() && str_equal(r[p].as_str(), key.as_str());
        proof {
            if p < rv.len() {
                assert(rv[p as int] == r@[p as int]@);
            }
            assert(av.take(i + 1) =~= av.take(i as int).push(kv));
            lemma_insert_contains(av.take(i as int), kv, i as int, kv);
        }
        if !present {
            proof {
                if p < rv.len() {
                    let o = chars_order(rv[p as int], kv);
                    if o == Order::Equal {
                        assert(rv[p as int].subrange(0, 0) =~= kv.subrange(0, 0));
                        lemma_chars_order_equal(rv[p as int], kv, 0);
                    }
                    assert(chars_order(rv[p as int], kv) == Order::Greater);
                }
                lemma_insert_ascending(rv, kv, p as int);
            }
            r.insert(p, key);
            proof {
                let nv = texts(r@);
                assert(nv =~= rv.insert(p as int, kv));
                assert forall|t: Seq<char>| nv.contains(t) <==> av.take(i + 1).contains(t) by {
                    lemma_insert_contains(rv, kv, p as int, t);
                    lemma_insert_contains(av.take(i as int), kv, i as int, t);
                    assert(av.take(i as int).insert(i as int, kv) =~= av.take(i + 1));
                }
            }
        } else {
            proof {
                assert forall|t: Seq<char>| rv.contains(t) <==> av.take(i + 1).contains(t) by {
                    lemma_insert_contains(av.take(i as int), kv, i as int, t);
                    assert(av.take(i as int).insert(i as int, kv) =~= av.take(i + 1));
                    if t == kv {
                        assert(rv[p as int] == kv);
                    }
                }
            }
        }
        i += 1;
    }
    proof {
        assert(av.take(all@.len() as int) =~= av);
        let rv = texts(r@);
        assert(rv.no_duplicates()) by {
            assert forall|a: int, b: int| 0 <= a < b < rv.len() implies rv[a] != rv[b] by {
                assert(chars_order(rv[a], rv[b]) == Order::Less);
                lemma_chars_order_flip(rv[a], rv[a], 0);
            }
        }
    }
    r
}

/// How many of the texts are `t`.
pub open spec fn count_in(ds: Seq<Seq<char>>, t: Seq<char>) -> nat
    decreases ds.len(),
{
    if ds.len() == 0 {
        0
    } else {
        count_in(ds.drop_last(), t) + if ds.last() == t {
            1nat
        } else {
            0nat
        }
    }
}

proof fn lemma_count_le(ds: Seq<Seq<char>>, t: Seq<char>)
    ensures
        count_in(ds, t) <= ds.len(),
        count_in(ds, t) > 0 <==> ds.contains(t),
    decreases ds.len(),
{
    if ds.len() > 0 {
        lemma_count_le(ds.drop_last(), t);
        if ds.drop_last().contains(t) {
            let j = choose|j: int| 0 <= j < ds.drop_last().len() && ds.drop_last()[j] == t;
            assert(ds[j] == t);
        }
        if ds.contains(t) && ds.last() != t {
            let j = choose|j: int| 0 <= j < ds.len() && ds[j] == t;
            assert(ds.drop_last()[j] == t);
        }
    }
}

fn count_text(all: &Vec<String>, t: &str) -> (r: usize)
    ensures
        r == count_in(texts(all@), t@),
{
    let ghost av = texts(all@);
    let mut c: usize = 0;
    let mut j: usize = 0;
    while j < all.len()
        invariant
            j <= all@.len(),
            av == texts(all@),
            c == count_in(av.take(j as int), t@),
            c <= j,
        decreases all@.len() - j,
    {
        assert(av.take(j + 1).drop_last() =~= av.take(j as int));
        assert(av[j as int] == all@[j as int]@);
        if str_equal(all[j].as_str(), t) {
            c += 1;
        }
        j += 1;
    }
    assert(av.take(all@.len() as int) =~= av);
    c
}

/// Whether the text `s` occurs in `ds` before every occurrence of the text
/// `t`.
pub open spec fn appears_before(ds: Seq<Seq<char>>, s: Seq<char>, t: Seq<char>) -> bool {
    exists|x: int| #![trigger ds[x]] 0 <= x < ds.len() && ds[x] == s && !ds.take(x).contains(t)
}

/// The texts of a list of counts.
pub open spec fn count_texts(v: Seq<(String, usize)>) -> Seq<Seq<char>> {
    v.map_values(|p: (String, usize)| p.0@)
}

/// How many entities hold each text that a field contributes: each text
/// once, with its count, the counts from the largest down, equal counts in
/// the order the texts first appear.
pub fn count_by(entities: &Vec<Entity>, field: &str) -> (r: Vec<(String, usize)>)
    ensures
        ({
            let ds = field_texts(entities@, field@, entities@.len() as int);
            &&& count_texts(r@).no_duplicates()
            &&& forall|t: Seq<char>| count_texts(r@).contains(t) <==> ds.contains(t)
            &&& forall|i: int| 0 <= i < r@.len() ==> (#[trigger] r@[i]).1 == count_in(ds, r@[i].0@)
            &&& forall|i: int, j: int| 0 <= i < j < r@.len() ==> (#[trigger] r@[i]).1 >= (#[trigger] r@[j]).1
            &&& forall|i: int, j: int|
                0 <= i < j < r@.len() && (#[trigger] r@[i]).1 == (#[trigger] r@[j]).1 ==> appears_before(
                    ds,
                    r@[i].0@,
                    r@[j].0@,
                )
        }),
{
    let all = field_values(entities, field);
    let ghost av = texts(all@);
    let mut r: Vec<(String, usize)> = Vec::new();
    let mut i: usize = 0;
    while i < all.len()
        invariant
            i <= all@.len(),
            av == texts(all@),
            count_texts(r@).no_duplicates(),
            forall|t: Seq<char>| count_texts(r@).contains(t) <==> av.take(i as int).contains(t),
            forall|k: int| 0 <= k < r@.len() ==> (#[trigger] r@[k]).1 == count_in(av, r@[k].0@),
            forall|a: int, b: int| 0 <= a < b < r@.len() ==> (#[trigger] r@[a]).1 >= (#[trigger] r@[b]).1,
            forall|a: int, b: int|
                0 <= a < b < r@.len() && (#[trigger] r@[a]).1 == (#[trigger] r@[b]).1 ==> appears_before(
                    av,
                    r@[a].0@,
                    r@[b].0@,
                ),
        decreases all@.len() - i,
    {
        let key = all[i].clone();
        let ghost kv = key@;
        let ghost cv = count_texts(r@);
        assert(av[i as int] == kv);
        assert(av.take(i + 1) =~= av.take(i as int).push(kv));
        proof {
            lemma_insert_contains(av.take(i as int), kv, i as int, kv);
            assert(av.take(i as int).insert(i as int, kv) =~= av.take(i + 1));
        }
        // Whether the text was seen before.
        let mut seen = false;
        let mut k: usize = 0;
        while k < r.len()
            invariant
                k <= r@.len(),
                cv == count_texts(r@),
                kv == key@,
                seen <==> exists|m: int| 0 <= m < k && cv[m] == kv,
            decreases r@.len() - k,
        {
            assert(cv[k as int] == r@[k as int].0@);
            if str_equal(r[k].0.as_str(), key.as_str()) {
                seen = true;
            }
            k += 1;
        }
        if !seen {
            let c = count_text(&all, key.as_str());
            let mut p: usize = 0;
            while p < r.len() && r[p].1 >= c
                invariant
                    p <= r@.len(),
                    forall|m: int| 0 <= m < p ==> (#[trigger] r@[m]).1 >= c,
                decreases r@.len() - p,
            {
                p += 1;
            }
            let ghost before = r@;
            r.insert(p, (key, c));
            proof {
                let nv = count_texts(r@);
                assert(nv =~= cv.insert(p as int, kv));
                assert(!cv.contains(kv)) by {
                    if cv.contains(kv) {
                        let m = choose|m: int| 0 <= m < cv.len() && cv[m] == kv;
                        assert(exists|m: int| 0 <= m < r@.len() - 1 && cv[m] == kv);
                    }
                }
                assert(nv.no_duplicates()) by {
                    assert forall|a: int, b: int| 0 <= a < b < nv.len() implies nv[a] != nv[b] by {
                        if a == p {
                            assert(cv.contains(nv[b]));
                        } else if b == p {
                            assert(cv.contains(nv[a]));
                        } else {
                            let a2 = if a < p { a } else { a - 1 };
                            let b2 = if b < p { b } else { b - 1 };
                            assert(nv[a] == cv[a2] && nv[b] == cv[b2]);
                        }
                    }
                }
                assert forall|t: Seq<char>| nv.contains(t) <==> av.take(i + 1).contains(t) by {
                    lemma_insert_contains(cv, kv, p as int, t);
                    lemma_insert_contains(av.take(i as int), kv, i as int, t);
                }
                assert forall|m: int| 0 <= m < r@.len() implies (#[trigger] r@[m]).1 == count_in(
                    av,
                    r@[m].0@,
                ) by {
                    if m < p {
                        assert(r@[m] == before[m]);
                    } else if m > p {
                        assert(r@[m] == before[m - 1]);
                    }
                }
                assert forall|a: int, b: int| 0 <= a < b < r@.len() implies (#[trigger] r@[a]).1
                    >= (#[trigger] r@[b]).1 by {
                    if b < p {
                        assert(r@[a] == before[a] && r@[b] == before[b]);
                    } else if b == p {
                        assert(r@[a] == before[a]);
                    } else if a < p {
                        assert(r@[a] == before[a] && r@[b] == before[b - 1]);
                    } else if a == p {
                        assert(r@[b] == before[b - 1]);
                        assert(before[p as int].1 < c);
                        assert(before[p as int].1 >= before[b - 1].1 || b - 1 == p);
                    } else {
                        assert(r@[a] == before[a - 1] && r@[b] == before[b - 1]);
                    }
                }
                assert(!av.take(i as int).contains(kv));
                assert forall|a: int, b: int|
                    0 <= a < b < r@.len() && (#[trigger] r@[a]).1 == (#[trigger] r@[b]).1 implies appears_before(
                        av,
                        r@[a].0@,
                        r@[b].0@,
                    ) by {
                    if b < p {
                        assert(r@[a] == before[a] && r@[b] == before[b]);
                    } else if b == p {
                        assert(r@[a] == before[a]);
                        assert(cv[a] == before[a].0@);
                        assert(cv.contains(cv[a]));
                        assert(av.take(i as int).contains(cv[a]));
                        let m = choose|m: int| 0 <= m < i && #[trigger] av.take(i as int)[m] == cv[a];
                        assert(av[m] == cv[a]);
                        assert(!av.take(m).contains(kv)) by {
                            if av.take(m).contains(kv) {
                                let y = choose|y: int| 0 <= y < m && #[trigger] av.take(m)[y] == kv;
                                assert(av.take(i as int)[y] == kv);
                            }
                        }
                        assert(r@[b].0@ == kv);
                    } else if a < p {
                        assert(r@[a] == before[a] && r@[b] == before[b - 1]);
                        assert(before[p as int].1 < c);
                        assert(before[p as int].1 >= before[b - 1].1 || b - 1 == p);
                    } else if a == p {
                        assert(r@[b] == before[b - 1]);
                        assert(before[p as int].1 < c);
                        assert(before[p as int].1 >= before[b - 1].1 || b - 1 == p);
                    } else {
                        assert(r@[a] == before[a - 1] && r@[b] == before[b - 1]);
                    }
                }
            }
        } else {
            proof {
                assert forall|t: Seq<char>| cv.contains(t) <==> av.take(i + 1).contains(t) by {
                    lemma_insert_contains(av.take(i as int), kv, i as int, t);
                    if t == kv {
                        let m = choose|m: int| 0 <= m < r@.len() && cv[m] == kv;
                        assert(cv.contains(kv));
                    }
                }
            }
        }
        i += 1;
    }
    proof {
        assert(av.take(all@.len() as int) =~= av);
    }
    r
}

} // verus!
