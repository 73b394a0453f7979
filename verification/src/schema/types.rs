//! The definitions of entity types.

use vstd::prelude::*;
use crate::name_map::NameMap;
use crate::text::texts;

verus! {

/// A single target in a polymorphic link relation.
#[derive(Debug, PartialEq)]
pub struct PolyTarget {
    /// The entity type this link can point to.
    pub ref_type: String,
    /// The inverse field name on the target entity (only for bidirectional links).
    pub inverse: Option<String>,
}

/// Describes which entity types a link field can target.
#[derive(Debug, PartialEq)]
pub enum LinkTargets {
    /// `ref: "goal"`: points to exactly one entity type.
    Single { ref_type: String, inverse: Option<String> },
    /// `ref: [goal, task]` or `ref: { goal: { inverse: ... }, ... }`: polymorphic.
    Poly(Vec<PolyTarget>),
}

/// Full metadata for a link or array-of-links field.
///
/// A `Link` field holds one reference and its inverse is an array (many to
/// one); an `ArrayLink` field holds many and so does its inverse (many to
/// many); with `inverse_one`, both sides hold one reference (one to one).
#[derive(Debug, PartialEq)]
pub struct LinkDef {
    pub targets: LinkTargets,
    pub bidirectional: bool,
    /// When true, the inverse is also a single link (one-to-one).
    pub inverse_one: bool,
}

/// The type of a field.
#[derive(Debug, PartialEq)]
pub enum FieldType {
    String,
    Date,
    Datetime,
    Bool,
    Number,
    ArrayString,
    Enum(Vec<String>),
    Const(String),
    /// A single link to one or more entity types.
    Link(LinkDef),
    /// An array of links to one or more entity types.
    ArrayLink(LinkDef),
}

/// The definition of a field.
#[derive(Debug)]
pub struct FieldDefinition {
    pub field_type: FieldType,
    pub required: bool,
    pub default: Option<String>,
}

/// The definition of an entity type.
#[derive(Debug)]
pub struct TypeDefinition {
    pub name: String,
    pub folder: String,
    pub required: Vec<String>,
    pub fields: NameMap<FieldDefinition>,
}

/// The content of link targets.
pub ghost enum LinkTargetsV {
    Single { ref_type: Seq<char>, inverse: Option<Seq<char>> },
    Poly(Seq<(Seq<char>, Option<Seq<char>>)>),
}

/// The content of a link definition.
pub ghost struct LinkDefV {
    pub targets: LinkTargetsV,
    pub bidirectional: bool,
    pub inverse_one: bool,
}

/// The content of a field type.
pub ghost enum FieldTypeV {
    String,
    Date,
    Datetime,
    Bool,
    Number,
    ArrayString,
    Enum(Seq<Seq<char>>),
    Const(Seq<char>),
    Link(LinkDefV),
    ArrayLink(LinkDefV),
}

/// The content of a field definition.
pub ghost struct FieldDefV {
    pub field_type: FieldTypeV,
    pub required: bool,
    pub default: Option<Seq<char>>,
}

/// The content of a type definition.
pub ghost struct TypeDefV {
    pub name: Seq<char>,
    pub folder: Seq<char>,
    pub required: Seq<Seq<char>>,
    pub fields: Map<Seq<char>, FieldDefV>,
}

/// The text of an optional string.
pub open spec fn opt_view(o: Option<String>) -> Option<Seq<char>> {
    match o {
        Some(s) => Some(s@),
        None => None,
    }
}

/// The texts of a list of strings.
pub open spec fn strings_view(v: Seq<String>) -> Seq<Seq<char>> {
    texts(v)
}

impl View for LinkTargets {
    type V = LinkTargetsV;

    open spec fn view(&self) -> LinkTargetsV {
        match self {
            LinkTargets::Single { ref_type, inverse } => LinkTargetsV::Single {
                ref_type: ref_type@,
                inverse: opt_view(*inverse),
            },
            LinkTargets::Poly(v) => LinkTargetsV::Poly(
                v@.map_values(|t: PolyTarget| (t.ref_type@, opt_view(t.inverse))),
            ),
        }
    }
}

impl View for LinkDef {
    type V = LinkDefV;

    open spec fn view(&self) -> LinkDefV {
        LinkDefV {
            targets: self.targets@,
            bidirectional: self.bidirectional,
            inverse_one: self.inverse_one,
        }
    }
}

impl View for FieldType {
    type V = FieldTypeV;

    open spec fn view(&self) -> FieldTypeV {
        match self {
            FieldType::String => FieldTypeV::String,
            FieldType::Date => FieldTypeV::Date,
            FieldType::Datetime => FieldTypeV::Datetime,
            FieldType::Bool => FieldTypeV::Bool,
            FieldType::Number => FieldTypeV::Number,
            FieldType::ArrayString => FieldTypeV::ArrayString,
            FieldType::Enum(v) => FieldTypeV::Enum(strings_view(v@)),
            FieldType::Const(s) => FieldTypeV::Const(s@),
            FieldType::Link(d) => FieldTypeV::Link(d@),
            FieldType::ArrayLink(d) => FieldTypeV::ArrayLink(d@),
        }
    }
}

impl View for FieldDefinition {
    type V = FieldDefV;

    open spec fn view(&self) -> FieldDefV {
        FieldDefV {
            field_type: self.field_type@,
            required: self.required,
            default: opt_view(self.default),
        }
    }
}

impl View for TypeDefinition {
    type V = TypeDefV;

    open spec fn view(&self) -> TypeDefV {
        TypeDefV {
            name: self.name@,
            folder: self.folder@,
            required: strings_view(self.required@),
            fields: self.fields@.map_values(|f: FieldDefinition| f@),
        }
    }
}

impl FieldType {
    /// Whether this is a link or an array of links.
    pub fn is_link(&self) -> (r: bool)
        ensures
            r == (self@ is Link || self@ is ArrayLink),
    {
        match self {
            FieldType::Link(_) | FieldType::ArrayLink(_) => true,
            _ => false,
        }
    }
}

} // verus!
