//! Whether an entity matches a query.

use vstd::prelude::*;
use crate::entity::Entity;
use crate::query::ast::{CompareOp, Expr, ExprV};
use crate::text::{chars_of, contains_seq, find_chars, lowercase, to_lowercase};
use crate::value::{array_contains, is_ge, is_gt, is_le, is_lt, same_value, value_order, values_equal, Order, Value, ValueV};

verus! {

/// Whether a field value stands in relation `op` to the query value.
pub open spec fn compare_holds(v: ValueV, op: CompareOp, q: ValueV) -> bool {
    match op {
        CompareOp::Eq => same_value(v, q),
        CompareOp::Ne => !same_value(v, q),
        CompareOp::Lt => is_lt(v, q),
        CompareOp::Le => is_le(v, q),
        CompareOp::Gt => is_gt(v, q),
        CompareOp::Ge => is_ge(v, q),
    }
}

/// Whether an entity with frontmatter `fm` and body `body` matches `e`.
///
/// A condition on a missing field holds only for `!=`; `between` takes both
/// ends in; `in` asks for equality with one of the values; text search looks
/// for the lower-cased pattern in the lower-cased body.
pub open spec fn entity_matches(e: ExprV, fm: Map<Seq<char>, ValueV>, body: Seq<char>) -> bool
    decreases e,
{
    match e {
        ExprV::Compare { field, op, value } => if fm.contains_key(field) {
            compare_holds(fm[field], op, value)
        } else {
            op == CompareOp::Ne
        },
        ExprV::Between { field, start, end } => fm.contains_key(field) && is_ge(fm[field], start)
            && is_le(fm[field], end),
        ExprV::Contains { field, value } => fm.contains_key(field) && array_contains(
            fm[field],
            value,
        ),
        ExprV::In { field, values } => fm.contains_key(field) && exists|i: int|
            0 <= i < values.len() && same_value(fm[field], #[trigger] values[i]),
        ExprV::TextSearch { pattern } => contains_seq(lowercase(body), lowercase(pattern)),
        ExprV::And(l, r) => entity_matches(*l, fm, body) && entity_matches(*r, fm, body),
        ExprV::Or(l, r) => entity_matches(*l, fm, body) || entity_matches(*r, fm, body),
        ExprV::Not(x) => !entity_matches(*x, fm, body),
    }
}

fn compare_values(v: &Value, op: CompareOp, q: &Value) -> (r: bool)
    ensures
        r == compare_holds(v@, op, q@),
{
    match op {
        CompareOp::Eq => values_equal(v, q),
        CompareOp::Ne => !values_equal(v, q),
        CompareOp::Lt => value_order(v, q) == Some(Order::Less),
        CompareOp::Le => {
            let o = value_order(v, q);
            o == Some(Order::Less) || o == Some(Order::Equal)
        },
        CompareOp::Gt => value_order(v, q) == Some(Order::Greater),
        CompareOp::Ge => {
            let o = value_order(v, q);
            o == Some(Order::Greater) || o == Some(Order::Equal)
        },
    }
}

/// Evaluate a query expression against an entity: whether the entity matches.
pub fn evaluate(expr: &Expr, entity: &Entity) -> (r: bool)
    ensures
        r == entity_matches(expr@, entity.frontmatter@, entity.body@),
    decreases expr,
{
    match expr {
        Expr::Compare { field, op, value } => match entity.get(field.as_str()) {
            Some(v) => compare_values(v, *op, value),
            None => *op == CompareOp::Ne,
        },
        Expr::Between { field, start, end } => match entity.get(field.as_str()) {
            Some(v) => {
                let lo = value_order(v, start);
                let hi = value_order(v, end);
                (lo == Some(Order::Greater) || lo == Some(Order::Equal)) && (hi == Some(Order::Less)
                    || hi == Some(Order::Equal))
            },
            None => false,
        },
        Expr::Contains { field, value } => match entity.get(field.as_str()) {
            Some(v) => v.contains(value),
            None => false,
        },
        Expr::In { field, values } => match entity.get(field.as_str()) {
            Some(v) => {
                let ghost vs = expr@->In_values;
                let mut i: usize = 0;
                while i < values.len()
                    invariant
                        i <= values.len(),
                        *expr == (Expr::In { field: *field, values: *values }),
                        vs == expr@->In_values,
                        vs.len() == values@.len(),
                        entity.frontmatter@.contains_key(field@),
                        entity.frontmatter@[field@] == v@,
                        forall|k: int| 0 <= k < i ==> !same_value(v@, #[trigger] vs[k]),
                    decreases values.len() - i,
                {
                    assert(vs[i as int] == values@[i as int]@);
                    if values_equal(v, &values[i]) {
                        assert(same_value(v@, vs[i as int]));
                        return true;
                    }
                    i += 1;
                }
                false
            },
            None => false,
        },
        Expr::TextSearch { pattern } => {
            let body_lower = to_lowercase(entity.body.as_str());
            let pattern_lower = to_lowercase(pattern.as_str());
            let b = chars_of(body_lower.as_str());
            let p = chars_of(pattern_lower.as_str());
            find_chars(b.as_slice(), p.as_slice()).is_some()
        },
        Expr::And(l, r) => evaluate(l, entity) && evaluate(r, entity),
        Expr::Or(l, r) => evaluate(l, entity) || evaluate(r, entity),
        Expr::Not(x) => !evaluate(x, entity),
    }
}

/// `<` is strict and is `>` read the other way round: `v < q` holds exactly
/// when `q > v` does, never of a value and itself, and never together with
/// `v >= q`; `v <= q` holds exactly when `v < q` does or the two compare as
/// equal.
pub proof fn lemma_lt_is_strict(v: ValueV, q: ValueV)
    ensures
        compare_holds(v, CompareOp::Lt, q) == compare_holds(q, CompareOp::Gt, v),
        compare_holds(v, CompareOp::Gt, q) == compare_holds(q, CompareOp::Lt, v),
        !compare_holds(v, CompareOp::Lt, v),
        !compare_holds(v, CompareOp::Gt, v),
        !(compare_holds(v, CompareOp::Lt, q) && compare_holds(v, CompareOp::Ge, q)),
        !(compare_holds(v, CompareOp::Gt, q) && compare_holds(v, CompareOp::Le, q)),
        compare_holds(v, CompareOp::Le, q) == (compare_holds(v, CompareOp::Lt, q) || crate::value::compare(
            v,
            q,
        ) == Some(Order::Equal)),
        compare_holds(v, CompareOp::Ge, q) == (compare_holds(v, CompareOp::Gt, q) || crate::value::compare(
            v,
            q,
        ) == Some(Order::Equal)),
{
    crate::value::lemma_compare_flip(v, q);
    crate::value::lemma_compare_flip(v, v);
}

/// A condition `field < value` on an entity excludes `field >= value`:
/// the entity matches at most one of them.
pub proof fn lemma_lt_excludes_ge(field: Seq<char>, value: ValueV, fm: Map<Seq<char>, ValueV>, body: Seq<char>)
    ensures
        !(entity_matches(ExprV::Compare { field, op: CompareOp::Lt, value }, fm, body)
            && entity_matches(ExprV::Compare { field, op: CompareOp::Ge, value }, fm, body)),
{
    if fm.contains_key(field) {
        lemma_lt_is_strict(fm[field], value);
    }
}

/// `field != value` matches exactly the entities that `field = value` does
/// not, a missing field included.
pub proof fn lemma_ne_is_not_eq(
    field: Seq<char>,
    value: ValueV,
    fm: Map<Seq<char>, ValueV>,
    body: Seq<char>,
)
    ensures
        entity_matches(ExprV::Compare { field, op: CompareOp::Ne, value }, fm, body) == !entity_matches(
            ExprV::Compare { field, op: CompareOp::Eq, value },
            fm,
            body,
        ),
{
}

/// `field between [start, end]` matches exactly when `field >= start and
/// field <= end` does.
pub proof fn lemma_between_is_ge_and_le(
    field: Seq<char>,
    start: ValueV,
    end: ValueV,
    fm: Map<Seq<char>, ValueV>,
    body: Seq<char>,
)
    ensures
        entity_matches(ExprV::Between { field, start, end }, fm, body) == entity_matches(
            ExprV::And(
                Box::new(ExprV::Compare { field, op: CompareOp::Ge, value: start }),
                Box::new(ExprV::Compare { field, op: CompareOp::Le, value: end }),
            ),
            fm,
            body,
        ),
{
    reveal_with_fuel(entity_matches, 2);
}

/// `field in [v1, ..., vn]` matches exactly when `field = vi` does for some `i`.
pub proof fn lemma_in_is_some_eq(
    field: Seq<char>,
    values: Seq<ValueV>,
    fm: Map<Seq<char>, ValueV>,
    body: Seq<char>,
)
    ensures
        entity_matches(ExprV::In { field, values }, fm, body) == exists|i: int|
            0 <= i < values.len() && #[trigger] entity_matches(
                ExprV::Compare { field, op: CompareOp::Eq, value: values[i] },
                fm,
                body,
            ),
{
    reveal_with_fuel(entity_matches, 2);
    let lhs = entity_matches(ExprV::In { field, values }, fm, body);
    let rhs = exists|i: int|
        0 <= i < values.len() && #[trigger] entity_matches(
            ExprV::Compare { field, op: CompareOp::Eq, value: values[i] },
            fm,
            body,
        );
    if lhs {
        let i = choose|i: int| 0 <= i < values.len() && same_value(fm[field], #[trigger] values[i]);
        assert(entity_matches(ExprV::Compare { field, op: CompareOp::Eq, value: values[i] }, fm, body));
        assert(rhs);
    }
    if rhs {
        let i = choose|i: int|
            0 <= i < values.len() && #[trigger] entity_matches(
                ExprV::Compare { field, op: CompareOp::Eq, value: values[i] },
                fm,
                body,
            );
        assert(fm.contains_key(field));
        assert(same_value(fm[field], values[i]));
        assert(exists|j: int| 0 <= j < values.len() && same_value(fm[field], #[trigger] values[j]));
        let e = ExprV::In { field, values };
        assert(e->In_field == field);
        assert(e->In_values == values);
        assert(entity_matches(e, fm, body) == (fm.contains_key(field) && exists|j: int| 0 <= j < values.len() && same_value(fm[field], #[trigger] values[j])));
    }
}

/// On a field the entity does not have, only `!=` matches: no other
/// comparison, no `between`, `contains` or `in`.
pub proof fn lemma_missing_field(
    field: Seq<char>,
    op: CompareOp,
    value: ValueV,
    values: Seq<ValueV>,
    fm: Map<Seq<char>, ValueV>,
    body: Seq<char>,
)
    requires
        !fm.contains_key(field),
    ensures
        entity_matches(ExprV::Compare { field, op, value }, fm, body) == (op == CompareOp::Ne),
        !entity_matches(ExprV::Between { field, start: value, end: value }, fm, body),
        !entity_matches(ExprV::Contains { field, value }, fm, body),
        !entity_matches(ExprV::In { field, values }, fm, body),
{
}

/// Text search does not see case: patterns with the same lower case match the
/// same entities.
pub proof fn lemma_text_search_ignores_case(
    p: Seq<char>,
    q: Seq<char>,
    fm: Map<Seq<char>, ValueV>,
    body: Seq<char>,
)
    requires
        lowercase(p) == lowercase(q),
    ensures
        entity_matches(ExprV::TextSearch { pattern: p }, fm, body) == entity_matches(
            ExprV::TextSearch { pattern: q },
            fm,
            body,
        ),
{
}

} // verus!
