//! The registry of entity types, read from the `types` mapping of a YAML
//! document (`types.yaml`).

use vstd::prelude::*;
use crate::error::CortxError;
use crate::name_map::NameMap;
use crate::schema::types::{
    FieldDefinition, FieldDefV, FieldType, FieldTypeV, LinkDef, LinkDefV, LinkTargets, LinkTargetsV,
    PolyTarget, TypeDefinition, TypeDefV, strings_view,
};
use crate::text::{concat, has_prefix, holds_text, starts_with, str_equal};
use crate::yaml::{yaml_bool, yaml_get, yaml_pairs, yaml_seq, yaml_str, YamlNode, YamlV};

verus! {

/// The registry of entity types, by name.
#[derive(Debug)]
pub struct TypeRegistry {
    types: NameMap<TypeDefinition>,
}

impl View for TypeRegistry {
    type V = Map<Seq<char>, TypeDefV>;

    closed spec fn view(&self) -> Map<Seq<char>, TypeDefV> {
        self.types@.map_values(|t: TypeDefinition| t@)
    }
}

/// The text under `key` of a mapping node, if it is a string.
pub open spec fn str_at(y: YamlV, key: Seq<char>) -> Option<Seq<char>> {
    match yaml_get(y, key) {
        Some(v) => yaml_str(v),
        None => None,
    }
}

/// The truth value under `key` of a mapping node, if it is a boolean.
pub open spec fn bool_at(y: YamlV, key: Seq<char>) -> Option<bool> {
    match yaml_get(y, key) {
        Some(v) => yaml_bool(v),
        None => None,
    }
}

/// The texts of the string items among the first `n` of `items`.
pub open spec fn strings_prefix(items: Seq<YamlV>, n: int) -> Seq<Seq<char>>
    decreases n,
{
    if n <= 0 || n > items.len() {
        Seq::empty()
    } else {
        match yaml_str(items[n - 1]) {
            Some(s) => strings_prefix(items, n - 1).push(s),
            None => strings_prefix(items, n - 1),
        }
    }
}

/// The texts of the string items of a list.
pub open spec fn strings_of(items: Seq<YamlV>) -> Seq<Seq<char>> {
    strings_prefix(items, items.len() as int)
}

/// The polymorphic targets of the first `n` entries of a `ref` mapping:
/// each string key with the `inverse` text under its value.
pub open spec fn poly_prefix(ps: Seq<(YamlV, YamlV)>, n: int) -> Seq<(Seq<char>, Option<Seq<char>>)>
    decreases n,
{
    if n <= 0 || n > ps.len() {
        Seq::empty()
    } else {
        match yaml_str(ps[n - 1].0) {
            Some(k) => poly_prefix(ps, n - 1).push((k, str_at(ps[n - 1].1, "inverse"@))),
            None => poly_prefix(ps, n - 1),
        }
    }
}

/// The targets of a link field: `ref: type` (with `inverse: field`),
/// `ref: [type, ...]`, or `ref: { type: { inverse: field }, ... }`; no
/// `ref` (or another kind of node) stands for a single empty target.
pub open spec fn link_targets_of(val: YamlV) -> LinkTargetsV {
    match yaml_get(val, "ref"@) {
        Some(r) => if yaml_str(r) is Some {
            LinkTargetsV::Single { ref_type: yaml_str(r)->0, inverse: str_at(val, "inverse"@) }
        } else if yaml_seq(r) is Some {
            LinkTargetsV::Poly(strings_of(yaml_seq(r)->0).map_values(|s: Seq<char>| (s, None)))
        } else if yaml_pairs(r) is Some {
            LinkTargetsV::Poly(poly_prefix(yaml_pairs(r)->0, yaml_pairs(r)->0.len() as int))
        } else {
            LinkTargetsV::Single { ref_type: Seq::empty(), inverse: str_at(val, "inverse"@) }
        },
        None => LinkTargetsV::Single { ref_type: Seq::empty(), inverse: str_at(val, "inverse"@) },
    }
}

/// The link definition of a link field: its targets, with `bidirectional`
/// and `inverse_one` false unless the field says true.
pub open spec fn link_def_of(val: YamlV) -> LinkDefV {
    LinkDefV {
        targets: link_targets_of(val),
        bidirectional: bool_at(val, "bidirectional"@) == Some(true),
        inverse_one: bool_at(val, "inverse_one"@) == Some(true),
    }
}

/// The type of a field: `const: v`, else `enum: [...]`, else `type: name`,
/// else a string.
pub open spec fn field_type_of(val: YamlV, field_name: Seq<char>) -> Result<FieldTypeV, Seq<char>> {
    if str_at(val, "const"@) is Some {
        Ok(FieldTypeV::Const(str_at(val, "const"@)->0))
    } else if yaml_get(val, "enum"@) is Some && yaml_seq(yaml_get(val, "enum"@)->0) is Some {
        Ok(FieldTypeV::Enum(strings_of(yaml_seq(yaml_get(val, "enum"@)->0)->0)))
    } else if str_at(val, "type"@) is Some {
        let t = str_at(val, "type"@)->0;
        if t == "string"@ {
            Ok(FieldTypeV::String)
        } else if t == "date"@ {
            Ok(FieldTypeV::Date)
        } else if t == "datetime"@ {
            Ok(FieldTypeV::Datetime)
        } else if t == "bool"@ {
            Ok(FieldTypeV::Bool)
        } else if t == "number"@ {
            Ok(FieldTypeV::Number)
        } else if t == "array[string]"@ {
            Ok(FieldTypeV::ArrayString)
        } else if t == "array[link]"@ {
            Ok(FieldTypeV::ArrayLink(link_def_of(val)))
        } else if has_prefix(t, "link"@) {
            Ok(FieldTypeV::Link(link_def_of(val)))
        } else {
            Err("unknown field type '"@ + t + "' for field '"@ + field_name + "'"@)
        }
    } else {
        Ok(FieldTypeV::String)
    }
}

/// The definition of a field: required when the type lists it as required
/// and the field does not say `optional: true`.
pub open spec fn field_def_of(val: YamlV, required: Seq<Seq<char>>, field_name: Seq<char>) -> Result<
    FieldDefV,
    Seq<char>,
> {
    match field_type_of(val, field_name) {
        Err(e) => Err(e),
        Ok(ft) => Ok(
            FieldDefV {
                field_type: ft,
                required: required.contains(field_name) && bool_at(val, "optional"@) != Some(true),
                default: str_at(val, "default"@),
            },
        ),
    }
}

/// The fields of the first `n` entries of a `fields` mapping.
pub open spec fn fields_prefix(ps: Seq<(YamlV, YamlV)>, required: Seq<Seq<char>>, n: int) -> Result<
    Map<Seq<char>, FieldDefV>,
    Seq<char>,
>
    decreases n,
{
    if n <= 0 || n > ps.len() {
        Ok(Map::empty())
    } else {
        match fields_prefix(ps, required, n - 1) {
            Err(e) => Err(e),
            Ok(m) => match yaml_str(ps[n - 1].0) {
                None => Err("field name must be a string"@),
                Some(name) => match field_def_of(ps[n - 1].1, required, name) {
                    Err(e) => Err(e),
                    Ok(d) => Ok(m.insert(name, d)),
                },
            },
        }
    }
}

/// The list of texts under `key`, if it is a sequence (its string items).
pub open spec fn required_of(val: YamlV) -> Seq<Seq<char>> {
    match yaml_get(val, "required"@) {
        Some(r) => match yaml_seq(r) {
            Some(items) => strings_of(items),
            None => Seq::empty(),
        },
        None => Seq::empty(),
    }
}

/// The entries of the `fields` mapping of a type, if there is one.
pub open spec fn field_pairs_of(val: YamlV) -> Seq<(YamlV, YamlV)> {
    match yaml_get(val, "fields"@) {
        Some(f) => match yaml_pairs(f) {
            Some(ps) => ps,
            None => Seq::empty(),
        },
        None => Seq::empty(),
    }
}

/// The definition of the type `name` from its YAML node.
pub open spec fn type_def_of(name: Seq<char>, val: YamlV) -> Result<TypeDefV, Seq<char>> {
    let required = required_of(val);
    let ps = field_pairs_of(val);
    match fields_prefix(ps, required, ps.len() as int) {
        Err(e) => Err(e),
        Ok(fields) => Ok(
            TypeDefV {
                name,
                folder: match str_at(val, "folder"@) {
                    Some(f) => f,
                    None => Seq::empty(),
                },
                required,
                fields,
            },
        ),
    }
}

/// The types of the first `n` entries of the `types` mapping.
pub open spec fn types_prefix(ps: Seq<(YamlV, YamlV)>, n: int) -> Result<
    Map<Seq<char>, TypeDefV>,
    Seq<char>,
>
    decreases n,
{
    if n <= 0 || n > ps.len() {
        Ok(Map::empty())
    } else {
        match types_prefix(ps, n - 1) {
            Err(e) => Err(e),
            Ok(m) => match yaml_str(ps[n - 1].0) {
                None => Err("type name must be a string"@),
                Some(name) => match type_def_of(name, ps[n - 1].1) {
                    Err(e) => Err(e),
                    Ok(d) => Ok(m.insert(name, d)),
                },
            },
        }
    }
}

/// The type registry that a YAML document describes, or the message of the
/// schema error that refuses it.
pub open spec fn registry_of(root: YamlV) -> Result<Map<Seq<char>, TypeDefV>, Seq<char>> {
    match yaml_get(root, "types"@) {
        Some(t) => match yaml_pairs(t) {
            Some(ps) => types_prefix(ps, ps.len() as int),
            None => Err("missing 'types' key in config"@),
        },
        None => Err("missing 'types' key in config"@),
    }
}

/// Whether an error is a schema error with the message `m`.
pub open spec fn is_schema_error(e: CortxError, m: Seq<char>) -> bool {
    e matches CortxError::Schema(x) && x@ == m
}

fn schema_error(m: String) -> (e: CortxError)
    ensures
        is_schema_error(e, m@),
{
    CortxError::Schema(m)
}

fn str_under(y: &YamlNode, key: &str) -> (r: Option<String>)
    ensures
        opt_text(r) == str_at(y@, key@),
{
    match y.get(key) {
        Some(v) => match v.as_str() {
            Some(s) => Some(s.to_owned()),
            None => None,
        },
        None => None,
    }
}

/// The text of an optional string.
pub open spec fn opt_text(o: Option<String>) -> Option<Seq<char>> {
    match o {
        Some(s) => Some(s@),
        None => None,
    }
}

fn bool_under(y: &YamlNode, key: &str) -> (r: Option<bool>)
    ensures
        r == bool_at(y@, key@),
{
    match y.get(key) {
        Some(v) => v.as_bool(),
        None => None,
    }
}

fn strings_in(items: &Vec<YamlNode>) -> (r: Vec<String>)
    ensures
        strings_view(r@) == strings_of(Seq::new(items@.len(), |i: int| items@[i]@)),
{
    let ghost iv = Seq::new(items@.len(), |i: int| items@[i]@);
    let mut r: Vec<String> = Vec::new();
    let mut i: usize = 0;
    while i < items.len()
        invariant
            i <= items@.len(),
            iv == Seq::new(items@.len(), |i: int| items@[i]@),
            strings_view(r@) == strings_prefix(iv, i as int),
        decreases items@.len() - i,
    {
        let ghost before = r@;
        match items[i].as_str() {
            Some(s) => {
                r.push(s.to_owned());
                assert(strings_view(r@) =~= strings_view(before).push(s@));
            },
            None => {},
        }
        i += 1;
    }
    r
}

fn link_def_from(val: &YamlNode) -> (r: LinkDef)
    ensures
        r@ == link_def_of(val@),
{
    let targets = match val.get("ref") {
        Some(r) => {
            if let Some(s) = r.as_str() {
                LinkTargets::Single { ref_type: s.to_owned(), inverse: str_under(val, "inverse") }
            } else if let Some(items) = r.as_sequence() {
                let names = strings_in(items);
                let mut targets: Vec<PolyTarget> = Vec::new();
                let mut i: usize = 0;
                while i < names.len()
                    invariant
                        i <= names@.len(),
                        targets@.len() == i,
                        forall|k: int|
                            0 <= k < i ==> (#[trigger] targets@[k]).ref_type@ == names@[k]@
                                && targets@[k].inverse is None,
                    decreases names@.len() - i,
                {
                    targets.push(PolyTarget { ref_type: names[i].clone(), inverse: None });
                    i += 1;
                }
                let t = LinkTargets::Poly(targets);
                assert(t@->Poly_0 =~= strings_view(names@).map_values(
                    |s: Seq<char>| (s, None::<Seq<char>>),
                ));
                t
            } else if let Some(ps) = r.as_mapping() {
                let ghost pv = Seq::new(ps@.len(), |i: int| (ps@[i].0@, ps@[i].1@));
                let mut targets: Vec<PolyTarget> = Vec::new();
                let mut i: usize = 0;
                while i < ps.len()
                    invariant
                        i <= ps@.len(),
                        pv == Seq::new(ps@.len(), |i: int| (ps@[i].0@, ps@[i].1@)),
                        targets@.map_values(
                            |t: PolyTarget| (t.ref_type@, crate::schema::types::opt_view(t.inverse)),
                        ) == poly_prefix(pv, i as int),
                    decreases ps@.len() - i,
                {
                    let ghost before = targets@;
                    match ps[i].0.as_str() {
                        Some(k) => {
                            let inv = str_under(&ps[i].1, "inverse");
                            targets.push(PolyTarget { ref_type: k.to_owned(), inverse: inv });
                            assert(targets@.map_values(
                                |t: PolyTarget| (t.ref_type@, crate::schema::types::opt_view(t.inverse)),
                            ) =~= before.map_values(
                                |t: PolyTarget| (t.ref_type@, crate::schema::types::opt_view(t.inverse)),
                            ).push((k@, str_at(pv[i as int].1, "inverse"@))));
                        },
                        None => {},
                    }
                    i += 1;
                }
                LinkTargets::Poly(targets)
            } else {
                LinkTargets::Single { ref_type: String::new(), inverse: str_under(val, "inverse") }
            }
        },
        None => LinkTargets::Single { ref_type: String::new(), inverse: str_under(val, "inverse") },
    };
    let bidirectional = match bool_under(val, "bidirectional") {
        Some(b) => b,
        None => false,
    };
    let inverse_one = match bool_under(val, "inverse_one") {
        Some(b) => b,
        None => false,
    };
    LinkDef { targets, bidirectional, inverse_one }
}

/// Whether a result of the library matches a result of the spec: the same
/// value, or a schema error with the same message.
pub open spec fn schema_outcome<T, V>(r: Result<T, CortxError>, s: Result<V, Seq<char>>, f: spec_fn(T) -> V) -> bool {
    match s {
        Ok(v) => r matches Ok(x) && f(x) == v,
        Err(m) => r matches Err(e) && is_schema_error(e, m),
    }
}

fn field_type_from(val: &YamlNode, field_name: &str) -> (r: Result<FieldType, CortxError>)
    ensures
        schema_outcome(r, field_type_of(val@, field_name@), |t: FieldType| t@),
{
    if let Some(c) = str_under(val, "const") {
        return Ok(FieldType::Const(c));
    }
    if let Some(e) = val.get("enum") {
        if let Some(items) = e.as_sequence() {
            return Ok(FieldType::Enum(strings_in(items)));
        }
    }
    match str_under(val, "type") {
        Some(t) => {
            let ts = t.as_str();
            if str_equal(ts, "string") {
                Ok(FieldType::String)
            } else if str_equal(ts, "date") {
                Ok(FieldType::Date)
            } else if str_equal(ts, "datetime") {
                Ok(FieldType::Datetime)
            } else if str_equal(ts, "bool") {
                Ok(FieldType::Bool)
            } else if str_equal(ts, "number") {
                Ok(FieldType::Number)
            } else if str_equal(ts, "array[string]") {
                Ok(FieldType::ArrayString)
            } else if str_equal(ts, "array[link]") {
                Ok(FieldType::ArrayLink(link_def_from(val)))
            } else if starts_with(ts, "link") {
                Ok(FieldType::Link(link_def_from(val)))
            } else {
                let m1 = concat("unknown field type '", ts);
                let m2 = concat(m1.as_str(), "' for field '");
                let m3 = concat(m2.as_str(), field_name);
                let m4 = concat(m3.as_str(), "'");
                Err(schema_error(m4))
            }
        },
        None => Ok(FieldType::String),
    }
}

fn field_def_from(val: &YamlNode, required: &Vec<String>, field_name: &str) -> (r: Result<
    FieldDefinition,
    CortxError,
>)
    ensures
        schema_outcome(r, field_def_of(val@, strings_view(required@), field_name@), |d: FieldDefinition| d@),
{
    let field_type = match field_type_from(val, field_name) {
        Ok(t) => t,
        Err(e) => return Err(e),
    };
    let is_required = holds_text(required, field_name);
    let is_optional = match bool_under(val, "optional") {
        Some(b) => b,
        None => false,
    };
    let default = str_under(val, "default");
    Ok(FieldDefinition { field_type, required: is_required && !is_optional, default })
}

/// The views of the pairs of a mapping node.
pub open spec fn pairs_view(ps: Seq<(YamlNode, YamlNode)>) -> Seq<(YamlV, YamlV)> {
    Seq::new(ps.len(), |i: int| (ps[i].0@, ps[i].1@))
}

/// An error among the first `n` fields stays the error of every longer prefix.
proof fn lemma_fields_err_stays(ps: Seq<(YamlV, YamlV)>, required: Seq<Seq<char>>, n: int, m: int)
    requires
        0 <= n <= m <= ps.len(),
        fields_prefix(ps, required, n) is Err,
    ensures
        fields_prefix(ps, required, m) == fields_prefix(ps, required, n),
    decreases m - n,
{
    if m > n {
        lemma_fields_err_stays(ps, required, n, m - 1);
    }
}

/// An error among the first `n` types stays the error of every longer prefix.
proof fn lemma_types_err_stays(ps: Seq<(YamlV, YamlV)>, n: int, m: int)
    requires
        0 <= n <= m <= ps.len(),
        types_prefix(ps, n) is Err,
    ensures
        types_prefix(ps, m) == types_prefix(ps, n),
    decreases m - n,
{
    if m > n {
        lemma_types_err_stays(ps, n, m - 1);
    }
}

fn fields_from(ps: &Vec<(YamlNode, YamlNode)>, required: &Vec<String>) -> (r: Result<
    NameMap<FieldDefinition>,
    CortxError,
>)
    ensures
        schema_outcome(
            r,
            fields_prefix(pairs_view(ps@), strings_view(required@), ps@.len() as int),
            |m: NameMap<FieldDefinition>| m@.map_values(|f: FieldDefinition| f@),
        ),
{
    let ghost pv = pairs_view(ps@);
    let ghost req = strings_view(required@);
    let mut fields: NameMap<FieldDefinition> = NameMap::new();
    assert(fields@.map_values(|f: FieldDefinition| f@) =~= Map::<Seq<char>, FieldDefV>::empty());
    let mut i: usize = 0;
    while i < ps.len()
        invariant
            i <= ps@.len(),
            pv == pairs_view(ps@),
            req == strings_view(required@),
            fields_prefix(pv, req, i as int) == Ok::<Map<Seq<char>, FieldDefV>, Seq<char>>(
                fields@.map_values(|f: FieldDefinition| f@),
            ),
        decreases ps@.len() - i,
    {
        let name = match ps[i].0.as_str() {
            Some(n) => n,
            None => {
                proof {
                    lemma_fields_err_stays(pv, req, i + 1, ps@.len() as int);
                }
                return Err(schema_error("field name must be a string".to_owned()));
            },
        };
        let def = match field_def_from(&ps[i].1, required, name) {
            Ok(d) => d,
            Err(e) => {
                proof {
                    lemma_fields_err_stays(pv, req, i + 1, ps@.len() as int);
                }
                return Err(e);
            },
        };
        let ghost before = fields@;
        let ghost dv = def@;
        fields.insert(name.to_owned(), def);
        assert(fields@.map_values(|f: FieldDefinition| f@) =~= before.map_values(
            |f: FieldDefinition| f@,
        ).insert(name@, dv));
        i += 1;
    }
    Ok(fields)
}

fn type_def_from(name: &str, val: &YamlNode) -> (r: Result<TypeDefinition, CortxError>)
    ensures
        schema_outcome(r, type_def_of(name@, val@), |d: TypeDefinition| d@),
{
    let folder = match str_under(val, "folder") {
        Some(f) => f,
        None => String::new(),
    };
    let required: Vec<String> = match val.get("required") {
        Some(r) => match r.as_sequence() {
            Some(items) => strings_in(items),
            None => Vec::new(),
        },
        None => Vec::new(),
    };
    assert(strings_view(required@) == required_of(val@)) by {
        if !(yaml_get(val@, "required"@) is Some && yaml_seq(yaml_get(val@, "required"@)->0) is Some) {
            assert(strings_view(required@) =~= Seq::<Seq<char>>::empty());
        }
    }
    let empty: Vec<(YamlNode, YamlNode)> = Vec::new();
    let pairs: &Vec<(YamlNode, YamlNode)> = match val.get("fields") {
        Some(f) => match f.as_mapping() {
            Some(ps) => ps,
            None => &empty,
        },
        None => &empty,
    };
    assert(pairs_view(pairs@) =~= field_pairs_of(val@));
    let fields = match fields_from(pairs, &required) {
        Ok(f) => f,
        Err(e) => return Err(e),
    };
    Ok(TypeDefinition { name: name.to_owned(), folder, required, fields })
}

impl TypeRegistry {
    /// The registry that a YAML document describes: the mapping under its
    /// `types` key, each entry a type name and its `folder`, `required` list
    /// and `fields` mapping. A document without such a mapping, or with a
    /// name that is not a string, or with a field of an unknown type, gives
    /// a schema error.
    pub fn from_yaml(root: &YamlNode) -> (r: Result<TypeRegistry, CortxError>)
        ensures
            schema_outcome(r, registry_of(root@), |t: TypeRegistry| t@),
    {
        let ps = match root.get("types") {
            Some(t) => match t.as_mapping() {
                Some(ps) => ps,
                None => return Err(schema_error("missing 'types' key in config".to_owned())),
            },
            None => return Err(schema_error("missing 'types' key in config".to_owned())),
        };
        let ghost pv = pairs_view(ps@);
        assert(registry_of(root@) == types_prefix(pv, ps@.len() as int));
        let mut types: NameMap<TypeDefinition> = NameMap::new();
        assert(types@.map_values(|t: TypeDefinition| t@) =~= Map::<Seq<char>, TypeDefV>::empty());
        let mut i: usize = 0;
        while i < ps.len()
            invariant
                i <= ps@.len(),
                pv == pairs_view(ps@),
                registry_of(root@) == types_prefix(pv, ps@.len() as int),
                types_prefix(pv, i as int) == Ok::<Map<Seq<char>, TypeDefV>, Seq<char>>(
                    types@.map_values(|t: TypeDefinition| t@),
                ),
            decreases ps@.len() - i,
        {
            let name = match ps[i].0.as_str() {
                Some(n) => n,
                None => {
                    proof {
                        lemma_types_err_stays(pv, i + 1, ps@.len() as int);
                    }
                    return Err(schema_error("type name must be a string".to_owned()));
                },
            };
            let def = match type_def_from(name, &ps[i].1) {
                Ok(d) => d,
                Err(e) => {
                    proof {
                        lemma_types_err_stays(pv, i + 1, ps@.len() as int);
                    }
                    return Err(e);
                },
            };
            let ghost before = types@;
            let ghost dv = def@;
            types.insert(name.to_owned(), def);
            assert(types@.map_values(|t: TypeDefinition| t@) =~= before.map_values(
                |t: TypeDefinition| t@,
            ).insert(name@, dv));
            i += 1;
        }
        let r = TypeRegistry { types };
        assert(r@ == types@.map_values(|t: TypeDefinition| t@));
        Ok(r)
    }

    /// The definition of the type `name`, if the registry has one.
    pub fn get(&self, name: &str) -> (r: Option<&TypeDefinition>)
        ensures
            match r {
                Some(d) => self@.contains_key(name@) && self@[name@] == d@,
                None => !self@.contains_key(name@),
            },
    {
        self.types.get(name)
    }

    /// The names of the registry's types, each once.
    pub fn type_names(&self) -> (r: Vec<&str>)
        ensures
            r@.len() == self@.dom().len(),
            r@.map_values(|s: &str| s@).no_duplicates(),
            forall|k: Seq<char>| self@.contains_key(k) <==> r@.map_values(|s: &str| s@).contains(k),
    {
        self.types.name_facts();
        let n = self.types.len();
        let mut r: Vec<&str> = Vec::new();
        let mut i: usize = 0;
        while i < n
            invariant
                i <= n,
                n == self.types.name_list().len(),
                r@.len() == i,
                forall|k: int| 0 <= k < i ==> (#[trigger] r@[k])@ == self.types.name_list()[k],
            decreases n - i,
        {
            let (name, _) = self.types.entry_at(i);
            r.push(name);
            i += 1;
        }
        assert(r@.map_values(|s: &str| s@) =~= self.types.name_list());
        assert(self@.dom() =~= self.types@.dom());
        r
    }
}

} // verus!
