//! Checking a frontmatter against the definition of its type.

use vstd::prelude::*;
use crate::error::CortxError;
use crate::fields::Frontmatter;
use crate::schema::types::{FieldDefV, FieldType, FieldTypeV, TypeDefV, TypeDefinition, strings_view};
use crate::text::{holds_text, join, join_strings, str_equal, texts};
use crate::value::{Value, ValueV, chrono_parse_ymd};

verus! {

/// The message for a required field that is missing.
pub open spec fn missing_msg(f: Seq<char>) -> Seq<char> {
    "missing required field '"@ + f + "'"@
}

/// A message about the field `f`: `field 'f' must ` and the rest.
pub open spec fn field_msg(f: Seq<char>, rest: Seq<char>) -> Seq<char> {
    "field '"@ + f + "' must "@ + rest
}

/// What is wrong with the value `v` of the field `f` whose type is `ft`, if
/// anything. Strings are checked against a constant or a list of allowed
/// values; dates may be written as `YYYY-MM-DD` text; an array of strings may
/// also be null. Other types take any value.
pub open spec fn value_error(f: Seq<char>, ft: FieldTypeV, v: ValueV) -> Option<Seq<char>> {
    match ft {
        FieldTypeV::Const(expected) => match v {
            ValueV::Str(s) => if s != expected {
                Some(field_msg(f, "be '"@ + expected + "', got '"@ + s + "'"@))
            } else {
                None
            },
            _ => None,
        },
        FieldTypeV::Enum(variants) => match v {
            ValueV::Str(s) => if !variants.contains(s) {
                Some(field_msg(f, "be one of ["@ + join(variants, ", "@) + "], got '"@ + s + "'"@))
            } else {
                None
            },
            _ => None,
        },
        FieldTypeV::Date => match v {
            ValueV::Date(..) => None,
            ValueV::Str(s) => if chrono_parse_ymd(s) is None {
                Some(field_msg(f, "be a date (YYYY-MM-DD), got '"@ + s + "'"@))
            } else {
                None
            },
            _ => Some(field_msg(f, "be a date"@)),
        },
        FieldTypeV::ArrayString => match v {
            ValueV::Arr(_) => None,
            ValueV::Null => None,
            _ => Some(field_msg(f, "be an array of strings"@)),
        },
        FieldTypeV::Bool => match v {
            ValueV::Bool(_) => None,
            _ => Some(field_msg(f, "be a boolean"@)),
        },
        FieldTypeV::Number => match v {
            ValueV::Num { .. } => None,
            _ => Some(field_msg(f, "be a number"@)),
        },
        _ => None,
    }
}

/// The messages for the required fields that the frontmatter lacks, in the
/// order of the list.
pub open spec fn required_errors(required: Seq<Seq<char>>, fm: Map<Seq<char>, ValueV>) -> Seq<
    Seq<char>,
>
    decreases required.len(),
{
    if required.len() == 0 {
        Seq::empty()
    } else {
        let rest = required_errors(required.drop_last(), fm);
        if fm.contains_key(required.last()) {
            rest
        } else {
            rest.push(missing_msg(required.last()))
        }
    }
}

/// The messages for the values of the fields `keys` that their definitions
/// refuse, in the order of `keys`. Fields without a definition are allowed.
pub open spec fn field_errors(
    keys: Seq<Seq<char>>,
    fm: Map<Seq<char>, ValueV>,
    fields: Map<Seq<char>, FieldDefV>,
) -> Seq<Seq<char>>
    decreases keys.len(),
{
    if keys.len() == 0 {
        Seq::empty()
    } else {
        let rest = field_errors(keys.drop_last(), fm, fields);
        let k = keys.last();
        if fields.contains_key(k) && value_error(k, fields[k].field_type, fm[k]) is Some {
            rest.push(value_error(k, fields[k].field_type, fm[k])->0)
        } else {
            rest
        }
    }
}

/// Whether a frontmatter meets its type: every required field is present,
/// and every field that the type defines holds a value its type accepts.
pub open spec fn schema_valid(td: TypeDefV, fm: Map<Seq<char>, ValueV>) -> bool {
    &&& forall|i: int| 0 <= i < td.required.len() ==> fm.contains_key(#[trigger] td.required[i])
    &&& forall|k: Seq<char>|
        fm.contains_key(k) && td.fields.contains_key(k) ==> (#[trigger] value_error(
            k,
            td.fields[k].field_type,
            fm[k],
        )) is None
}

proof fn lemma_required_errors_empty(required: Seq<Seq<char>>, fm: Map<Seq<char>, ValueV>)
    ensures
        required_errors(required, fm).len() == 0 <==> forall|i: int|
            0 <= i < required.len() ==> fm.contains_key(#[trigger] required[i]),
    decreases required.len(),
{
    if required.len() > 0 {
        let init = required.drop_last();
        lemma_required_errors_empty(init, fm);
        if forall|i: int| 0 <= i < required.len() ==> fm.contains_key(#[trigger] required[i]) {
            assert forall|i: int| 0 <= i < init.len() implies fm.contains_key(#[trigger] init[i]) by {
                assert(init[i] == required[i]);
            }
            assert(fm.contains_key(required[required.len() - 1]));
        }
        if required_errors(required, fm).len() == 0 {
            assert forall|i: int| 0 <= i < required.len() implies fm.contains_key(
                #[trigger] required[i],
            ) by {
                if i < init.len() {
                    assert(init[i] == required[i]);
                }
            }
        }
    }
}

proof fn lemma_field_errors_empty(
    keys: Seq<Seq<char>>,
    fm: Map<Seq<char>, ValueV>,
    fields: Map<Seq<char>, FieldDefV>,
)
    ensures
        field_errors(keys, fm, fields).len() == 0 <==> forall|i: int|
            0 <= i < keys.len() ==> !(fields.contains_key(#[trigger] keys[i]) && value_error(
                keys[i],
                fields[keys[i]].field_type,
                fm[keys[i]],
            ) is Some),
    decreases keys.len(),
{
    if keys.len() > 0 {
        let init = keys.drop_last();
        lemma_field_errors_empty(init, fm, fields);
        assert forall|i: int| 0 <= i < init.len() implies init[i] == keys[i] by {}
    }
}

/// Whether a result is `Ok` with no errors, or a validation error whose
/// message is the errors joined by `"; "`.
pub open spec fn validation_outcome(r: Result<(), CortxError>, errors: Seq<Seq<char>>) -> bool {
    if errors.len() == 0 {
        r is Ok
    } else {
        r matches Err(CortxError::Validation(m)) && m@ == join(errors, "; "@)
    }
}

/// Appends `rest` to `field '<f>' must `.
fn field_message(f: &str, rest: &str) -> (r: String)
    ensures
        r@ == field_msg(f@, rest@),
{
    let mut m = "field '".to_owned();
    m.append(f);
    m.append("' must ");
    m.append(rest);
    m
}

/// `s` between quotes after `pre`, then `'`: `pre's'`.
fn quoted_after(pre: &str, s: &str) -> (r: String)
    ensures
        r@ == pre@ + s@ + "'"@,
{
    let mut m = pre.to_owned();
    m.append(s);
    m.append("'");
    m
}

fn value_error_of(f: &str, ft: &FieldType, v: &Value) -> (r: Option<String>)
    ensures
        match r {
            Some(m) => value_error(f@, ft@, v@) == Some(m@),
            None => value_error(f@, ft@, v@) is None,
        },
{
    match ft {
        FieldType::Const(expected) => match v {
            Value::String(s) => if !str_equal(s.as_str(), expected.as_str()) {
                let mut rest = "be '".to_owned();
                rest.append(expected.as_str());
                let tail = quoted_after("', got '", s.as_str());
                rest.append(tail.as_str());
                Some(field_message(f, rest.as_str()))
            } else {
                None
            },
            _ => None,
        },
        FieldType::Enum(variants) => match v {
            Value::String(s) => if !holds_text(variants, s.as_str()) {
                let mut rest = "be one of [".to_owned();
                let joined = join_strings(variants, ", ");
                rest.append(joined.as_str());
                let tail = quoted_after("], got '", s.as_str());
                rest.append(tail.as_str());
                Some(field_message(f, rest.as_str()))
            } else {
                None
            },
            _ => None,
        },
        FieldType::Date => match v {
            Value::Date(_) => None,
            Value::String(s) => if Value::parse_as_date(s.as_str()).is_none() {
                let rest = quoted_after("be a date (YYYY-MM-DD), got '", s.as_str());
                Some(field_message(f, rest.as_str()))
            } else {
                None
            },
            _ => Some(field_message(f, "be a date")),
        },
        FieldType::ArrayString => match v {
            Value::Array(_) | Value::Null => None,
            _ => Some(field_message(f, "be an array of strings")),
        },
        FieldType::Bool => match v {
            Value::Bool(_) => None,
            _ => Some(field_message(f, "be a boolean")),
        },
        FieldType::Number => match v {
            Value::Number(_) => None,
            _ => Some(field_message(f, "be a number")),
        },
        _ => None,
    }
}

/// Checks a frontmatter against its type definition: the required fields
/// that are missing (in the order of the type's list), then the values that
/// their field's type refuses (in the frontmatter's order). Fields that the
/// type does not define are allowed. All errors are reported together, as
/// one validation error whose message joins them with `"; "`.
pub fn validate_frontmatter(frontmatter: &Frontmatter, type_def: &TypeDefinition) -> (r: Result<
    (),
    CortxError,
>)
    ensures
        validation_outcome(
            r,
            required_errors(type_def@.required, frontmatter@) + field_errors(
                frontmatter.key_list(),
                frontmatter@,
                type_def@.fields,
            ),
        ),
        r is Ok <==> schema_valid(type_def@, frontmatter@),
{
    let ghost req = type_def@.required;
    let ghost fm = frontmatter@;
    let ghost keys = frontmatter.key_list();
    let ghost fields = type_def@.fields;
    let mut errors: Vec<String> = Vec::new();
    let mut i: usize = 0;
    while i < type_def.required.len()
        invariant
            i <= type_def.required@.len(),
            req == type_def@.required,
            req == strings_view(type_def.required@),
            fm == frontmatter@,
            texts(errors@) == required_errors(req.take(i as int), fm),
        decreases type_def.required@.len() - i,
    {
        assert(req.take(i + 1).drop_last() =~= req.take(i as int));
        let name = type_def.required[i].as_str();
        if !frontmatter.contains_key(name) {
            let m = quoted_after("missing required field '", name);
            let ghost before = errors@;
            errors.push(m);
            assert(texts(errors@) =~= texts(before).push(m@));
        }
        i += 1;
    }
    assert(req.take(type_def.required@.len() as int) =~= req);
    let ghost req_errors = texts(errors@);
    frontmatter.key_list_facts();
    let n = frontmatter.len();
    let mut j: usize = 0;
    while j < n
        invariant
            j <= n,
            n == keys.len(),
            keys == frontmatter.key_list(),
            fm == frontmatter@,
            fields == type_def@.fields,
            texts(errors@) == req_errors + field_errors(keys.take(j as int), fm, fields),
        decreases n - j,
    {
        assert(keys.take(j + 1).drop_last() =~= keys.take(j as int));
        let (name, value) = frontmatter.entry_at(j);
        match type_def.fields.get(name) {
            Some(def) => {
                match value_error_of(name, &def.field_type, value) {
                    Some(m) => {
                        let ghost before = errors@;
                        errors.push(m);
                        assert(texts(errors@) =~= texts(before).push(m@));
                    },
                    None => {},
                }
            },
            None => {},
        }
        assert(field_errors(keys.take(j + 1), fm, fields) == {
            let rest = field_errors(keys.take(j as int), fm, fields);
            let k = name@;
            if fields.contains_key(k) && value_error(k, fields[k].field_type, fm[k]) is Some {
                rest.push(value_error(k, fields[k].field_type, fm[k])->0)
            } else {
                rest
            }
        });
        j += 1;
    }
    assert(keys.take(n as int) =~= keys);
    proof {
        lemma_required_errors_empty(req, fm);
        lemma_field_errors_empty(keys, fm, fields);
        let all = required_errors(req, fm) + field_errors(keys, fm, fields);
        assert(all.len() == 0 <==> schema_valid(type_def@, fm)) by {
            if schema_valid(type_def@, fm) {
                assert forall|i: int| 0 <= i < keys.len() implies !(fields.contains_key(
                    #[trigger] keys[i],
                ) && value_error(keys[i], fields[keys[i]].field_type, fm[keys[i]]) is Some) by {
                    assert(keys.contains(keys[i]));
                }
            }
            if all.len() == 0 {
                assert forall|k: Seq<char>|
                    fm.contains_key(k) && fields.contains_key(k) implies (#[trigger] value_error(
                    k,
                    fields[k].field_type,
                    fm[k],
                )) is None by {
                    assert(keys.contains(k));
                    let i = choose|i: int| 0 <= i < keys.len() && keys[i] == k;
                    assert(!(fields.contains_key(keys[i]) && value_error(
                        keys[i],
                        fields[keys[i]].field_type,
                        fm[keys[i]],
                    ) is Some));
                }
            }
        }
    }
    if errors.len() == 0 {
        Ok(())
    } else {
        let m = join_strings(&errors, "; ");
        Err(CortxError::Validation(m))
    }
}

/// Fields that a type does not define are allowed: adding one to a
/// frontmatter that meets its type leaves it meeting its type.
pub proof fn lemma_unknown_field_allowed(
    td: TypeDefV,
    fm: Map<Seq<char>, ValueV>,
    name: Seq<char>,
    v: ValueV,
)
    requires
        !td.fields.contains_key(name),
        schema_valid(td, fm),
    ensures
        schema_valid(td, fm.insert(name, v)),
{
    let fm2 = fm.insert(name, v);
    assert forall|k: Seq<char>| fm2.contains_key(k) && td.fields.contains_key(k) implies (
    #[trigger] value_error(k, td.fields[k].field_type, fm2[k])) is None by {
        assert(k != name);
        assert(fm.contains_key(k));
    }
}

/// A required field that is missing makes a frontmatter fail its type,
/// whatever else it holds.
pub proof fn lemma_missing_required_fails(td: TypeDefV, fm: Map<Seq<char>, ValueV>, i: int)
    requires
        0 <= i < td.required.len(),
        !fm.contains_key(td.required[i]),
    ensures
        !schema_valid(td, fm),
{
}

} // verus!
