//! Entities: a Markdown file's frontmatter and body.

use vstd::prelude::*;
use crate::fields::Frontmatter;
use crate::value::{Value, ValueV};

verus! {

/// A Second Brain entity parsed from a Markdown file.
///
/// Each entity has frontmatter (structured metadata) and a Markdown body.
/// The `id` and `entity_type` are taken from the frontmatter for convenience.
#[derive(Debug)]
pub struct Entity {
    pub id: String,
    pub entity_type: String,
    pub frontmatter: Frontmatter,
    pub body: String,
    pub file_path: Option<String>,
}

/// The text of the string field `key`, or `default` where the field is
/// missing or not a string.
pub open spec fn string_field_or(
    fm: Map<Seq<char>, ValueV>,
    key: Seq<char>,
    default: Seq<char>,
) -> Seq<char> {
    if fm.contains_key(key) && fm[key] is Str {
        fm[key]->Str_0
    } else {
        default
    }
}

/// The title an entity shows: its `title` field if there is one, else its
/// `name` field; the id where the chosen field is missing or not a string.
pub open spec fn title_of(fm: Map<Seq<char>, ValueV>, id: Seq<char>) -> Seq<char> {
    if fm.contains_key("title"@) {
        string_field_or(fm, "title"@, id)
    } else {
        string_field_or(fm, "name"@, id)
    }
}

fn string_field(fm: &Frontmatter, key: &str) -> (r: Option<String>)
    ensures
        match r {
            Some(s) => fm@.contains_key(key@) && fm@[key@] == ValueV::Str(s@),
            None => !(fm@.contains_key(key@) && fm@[key@] is Str),
        },
{
    match fm.get(key) {
        Some(v) => match v.as_str() {
            Some(s) => Some(s.to_owned()),
            None => None,
        },
        None => None,
    }
}

impl Entity {
    /// An entity of the given frontmatter and body, with its id and type taken
    /// from the `id` and `type` fields (`unknown` where either is missing or
    /// not a string).
    pub fn new(frontmatter: Frontmatter, body: String) -> (r: Entity)
        ensures
            r.id@ == string_field_or(frontmatter@, "id"@, "unknown"@),
            r.entity_type@ == string_field_or(frontmatter@, "type"@, "unknown"@),
            r.frontmatter == frontmatter,
            r.body == body,
            r.file_path is None,
    {
        let id = match string_field(&frontmatter, "id") {
            Some(s) => s,
            None => "unknown".to_owned(),
        };
        let entity_type = match string_field(&frontmatter, "type") {
            Some(s) => s,
            None => "unknown".to_owned(),
        };
        Entity { id, entity_type, frontmatter, body, file_path: None }
    }

    /// The same entity, read from the file at `path`.
    pub fn with_path(self, path: String) -> (r: Entity)
        ensures
            r.id == self.id,
            r.entity_type == self.entity_type,
            r.frontmatter == self.frontmatter,
            r.body == self.body,
            r.file_path == Some(path),
    {
        let mut e = self;
        e.file_path = Some(path);
        e
    }

    /// The value of the frontmatter field `field`.
    pub fn get(&self, field: &str) -> (r: Option<&Value>)
        ensures
            match r {
                Some(v) => self.frontmatter@.contains_key(field@) && self.frontmatter@[field@] == v@,
                None => !self.frontmatter@.contains_key(field@),
            },
    {
        self.frontmatter.get(field)
    }

    /// The entity's title.
    pub fn title(&self) -> (r: &str)
        ensures
            r@ == title_of(self.frontmatter@, self.id@),
    {
        let chosen = match self.frontmatter.get("title") {
            Some(v) => Some(v),
            None => self.frontmatter.get("name"),
        };
        match chosen {
            Some(v) => match v.as_str() {
                Some(s) => s,
                None => self.id.as_str(),
            },
            None => self.id.as_str(),
        }
    }
}

} // verus!
