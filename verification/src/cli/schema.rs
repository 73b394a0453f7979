//! Describing the schema: the types, and the fields of a type.

use vstd::prelude::*;
use crate::frontmatter::{ascending, sort_distinct};
use crate::schema::registry::TypeRegistry;
use crate::schema::types::{
    FieldType, FieldTypeV, LinkDef, LinkDefV, LinkTargets, LinkTargetsV, TypeDefinition,
};
use crate::text::{join, join_strings, texts};

verus! {

/// The schema commands.
#[derive(Debug)]
pub enum SchemaCommands {
    /// List all entity types defined in types.yaml.
    Types { format: String },
    /// Show fields and schema for a specific type.
    Show { entity_type: String, format: String },
}

/// The arguments of `cortx schema`.
#[derive(Debug)]
pub struct SchemaArgs {
    pub command: SchemaCommands,
}

/// The target types of a link: the single type, or the polymorphic ones
/// joined by `|`.
pub open spec fn targets_text(d: LinkDefV) -> Seq<char> {
    match d.targets {
        LinkTargetsV::Single { ref_type, .. } => ref_type,
        LinkTargetsV::Poly(ts) => join(ts.map_values(|t: (Seq<char>, Option<Seq<char>>)| t.0), "|"@),
    }
}

/// How a field type is written in the schema listing.
pub open spec fn field_type_text(ft: FieldTypeV) -> Seq<char> {
    match ft {
        FieldTypeV::String => "string"@,
        FieldTypeV::Date => "date"@,
        FieldTypeV::Datetime => "datetime"@,
        FieldTypeV::Bool => "bool"@,
        FieldTypeV::Number => "number"@,
        FieldTypeV::ArrayString => "array[string]"@,
        FieldTypeV::Const(v) => "const:"@ + v,
        FieldTypeV::Enum(vs) => "enum["@ + join(vs, ","@) + "]"@,
        FieldTypeV::Link(d) => "link:"@ + targets_text(d),
        FieldTypeV::ArrayLink(d) => "array[link]:"@ + targets_text(d),
    }
}

/// The target types of a link definition.
pub fn link_targets_str(def: &LinkDef) -> (r: String)
    ensures
        r@ == targets_text(def@),
{
    match &def.targets {
        LinkTargets::Single { ref_type, .. } => ref_type.clone(),
        LinkTargets::Poly(ts) => {
            let mut names: Vec<String> = Vec::new();
            let mut i: usize = 0;
            while i < ts.len()
                invariant
                    i <= ts@.len(),
                    names@.len() == i,
                    forall|k: int| 0 <= k < i ==> (#[trigger] names@[k])@ == ts@[k].ref_type@,
                decreases ts@.len() - i,
            {
                names.push(ts[i].ref_type.clone());
                i += 1;
            }
            assert(texts(names@) =~= def@.targets->Poly_0.map_values(
                |t: (Seq<char>, Option<Seq<char>>)| t.0,
            ));
            join_strings(&names, "|")
        },
    }
}

/// How a field type is written in the schema listing.
pub fn field_type_str(ft: &FieldType) -> (r: String)
    ensures
        r@ == field_type_text(ft@),
{
    match ft {
        FieldType::String => "string".to_owned(),
        FieldType::Date => "date".to_owned(),
        FieldType::Datetime => "datetime".to_owned(),
        FieldType::Bool => "bool".to_owned(),
        FieldType::Number => "number".to_owned(),
        FieldType::ArrayString => "array[string]".to_owned(),
        FieldType::Const(v) => {
            let mut r = "const:".to_owned();
            r.append(v.as_str());
            r
        },
        FieldType::Enum(vs) => {
            let mut r = "enum[".to_owned();
            let j = join_strings(vs, ",");
            r.append(j.as_str());
            r.append("]");
            r
        },
        FieldType::Link(d) => {
            let mut r = "link:".to_owned();
            let t = link_targets_str(d);
            r.append(t.as_str());
            r
        },
        FieldType::ArrayLink(d) => {
            let mut r = "array[link]:".to_owned();
            let t = link_targets_str(d);
            r.append(t.as_str());
            r
        },
    }
}

/// The names of the registry's types in alphabetical order.
pub fn sorted_type_names(registry: &TypeRegistry) -> (r: Vec<String>)
    ensures
        ascending(texts(r@)),
        texts(r@).no_duplicates(),
        forall|k: Seq<char>| registry@.contains_key(k) <==> texts(r@).contains(k),
{
    let names = registry.type_names();
    let mut owned: Vec<String> = Vec::new();
    let mut i: usize = 0;
    while i < names.len()
        invariant
            i <= names@.len(),
            owned@.len() == i,
            forall|k: int| 0 <= k < i ==> (#[trigger] owned@[k])@ == names@[k]@,
        decreases names@.len() - i,
    {
        owned.push(names[i].to_owned());
        i += 1;
    }
    assert(texts(owned@) =~= names@.map_values(|s: &str| s@));
    sort_distinct(&owned)
}

/// The names of a type's fields in alphabetical order.
pub fn sorted_field_names(def: &TypeDefinition) -> (r: Vec<String>)
    ensures
        ascending(texts(r@)),
        texts(r@).no_duplicates(),
        forall|k: Seq<char>| def@.fields.contains_key(k) <==> texts(r@).contains(k),
{
    let names = def.fields.names();
    def.fields.name_facts();
    assert(texts(names@) == def.fields.name_list());
    sort_distinct(&names)
}

} // verus!
