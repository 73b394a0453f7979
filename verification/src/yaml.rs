//! YAML documents as the library reads them, and the conversion between YAML
//! and frontmatter values.

use vstd::prelude::*;
use crate::value::{chrono_date_text, chrono_parse_ymd, Number, Value, ValueV};

verus! {

/// A YAML node, as a YAML parser hands it over.
#[derive(Debug)]
pub enum YamlNode {
    Null,
    Bool(bool),
    Number(Number),
    String(String),
    Sequence(Vec<YamlNode>),
    Mapping(Vec<(YamlNode, YamlNode)>),
    Tagged(String, Box<YamlNode>),
}

/// The content of a YAML node.
pub ghost enum YamlV {
    Null,
    Bool(bool),
    Num { key: int, nan: bool, bits: int, text: Seq<char> },
    Str(Seq<char>),
    List(Seq<YamlV>),
    Pairs(Seq<(YamlV, YamlV)>),
    Tagged(Seq<char>, Box<YamlV>),
}

/// The content of a YAML node.
pub open spec fn yaml_view(y: YamlNode) -> YamlV
    decreases y,
{
    match y {
        YamlNode::Null => YamlV::Null,
        YamlNode::Bool(b) => YamlV::Bool(b),
        YamlNode::Number(n) => YamlV::Num {
            key: n.key as int,
            nan: n.nan,
            bits: n.bits as int,
            text: n.text@,
        },
        YamlNode::String(s) => YamlV::Str(s@),
        YamlNode::Sequence(v) => YamlV::List(
            Seq::new(
                v@.len(),
                |i: int|
                    if 0 <= i < v@.len() {
                        yaml_view(v@[i])
                    } else {
                        YamlV::Null
                    },
            ),
        ),
        YamlNode::Mapping(m) => YamlV::Pairs(
            Seq::new(
                m@.len(),
                |i: int|
                    if 0 <= i < m@.len() {
                        (yaml_view(m@[i].0), yaml_view(m@[i].1))
                    } else {
                        (YamlV::Null, YamlV::Null)
                    },
            ),
        ),
        YamlNode::Tagged(t, b) => YamlV::Tagged(t@, Box::new(yaml_view(*b))),
    }
}

impl View for YamlNode {
    type V = YamlV;

    open spec fn view(&self) -> YamlV {
        yaml_view(*self)
    }
}

/// The frontmatter value of a YAML node: strings that chrono reads as
/// `YYYY-MM-DD` become dates, sequences become arrays, tags are looked
/// through, and mappings become null.
pub open spec fn value_of_yaml(y: YamlV) -> ValueV
    decreases y,
{
    match y {
        YamlV::Str(s) => match chrono_parse_ymd(s) {
            Some((yy, m, d)) => ValueV::Date(yy, m, d),
            None => ValueV::Str(s),
        },
        YamlV::Bool(b) => ValueV::Bool(b),
        YamlV::Num { key, nan, bits, text } => ValueV::Num { key, nan, bits, text },
        YamlV::List(x) => ValueV::Arr(
            Seq::new(
                x.len(),
                |i: int|
                    if 0 <= i < x.len() {
                        value_of_yaml(x[i])
                    } else {
                        ValueV::Null
                    },
            ),
        ),
        YamlV::Null => ValueV::Null,
        YamlV::Tagged(_, b) => value_of_yaml(*b),
        YamlV::Pairs(_) => ValueV::Null,
    }
}

/// The YAML node that writes a value: dates as their text, arrays as
/// sequences.
pub open spec fn yaml_of_value(v: ValueV) -> YamlV
    decreases v,
{
    match v {
        ValueV::Str(s) => YamlV::Str(s),
        ValueV::Date(y, m, d) => YamlV::Str(chrono_date_text(y, m, d)),
        ValueV::Bool(b) => YamlV::Bool(b),
        ValueV::Num { key, nan, bits, text } => YamlV::Num { key, nan, bits, text },
        ValueV::Arr(x) => YamlV::List(
            Seq::new(
                x.len(),
                |i: int|
                    if 0 <= i < x.len() {
                        yaml_of_value(x[i])
                    } else {
                        YamlV::Null
                    },
            ),
        ),
        ValueV::Null => YamlV::Null,
    }
}

/// Whether a value reads back from YAML as it was written: no text of it
/// reads as a date, and its dates have years in 0..=9999.
pub open spec fn reads_back(v: ValueV) -> bool
    decreases v,
{
    match v {
        ValueV::Str(s) => chrono_parse_ymd(s) is None,
        ValueV::Date(y, _, _) => 0 <= y <= 9999,
        ValueV::Arr(x) => forall|i: int| 0 <= i < x.len() ==> reads_back(#[trigger] x[i]),
        _ => true,
    }
}

impl Value {
    /// The frontmatter value of a YAML node.
    pub fn from_yaml(yaml: &YamlNode) -> (r: Value)
        ensures
            r@ == value_of_yaml(yaml@),
        decreases yaml,
    {
        match yaml {
            YamlNode::String(s) => {
                match Value::parse_as_date(s.as_str()) {
                    Some(d) => d,
                    None => Value::String(s.clone()),
                }
            },
            YamlNode::Bool(b) => Value::Bool(*b),
            YamlNode::Number(n) => Value::Number(n.clone()),
            YamlNode::Sequence(seq) => {
                let ghost x = yaml@->List_0;
                let mut out: Vec<Value> = Vec::new();
                let mut i: usize = 0;
                while i < seq.len()
                    invariant
                        i <= seq.len(),
                        *yaml == YamlNode::Sequence(*seq),
                        x == yaml@->List_0,
                        x.len() == seq@.len(),
                        out@.len() == i,
                        forall|k: int| 0 <= k < i ==> (#[trigger] out@[k])@ == value_of_yaml(x[k]),
                    decreases seq.len() - i,
                {
                    proof {
                        assert(decreases_to!(*yaml => (*yaml)->Sequence_0));
                        assert(decreases_to!((*yaml)->Sequence_0 => (*yaml)->Sequence_0@));
                        assert(decreases_to!((*yaml)->Sequence_0@ => seq@[i as int]));
                    }
                    let v = Value::from_yaml(&seq[i]);
                    assert(x[i as int] == seq@[i as int]@);
                    out.push(v);
                    i += 1;
                }
                let r = Value::Array(out);
                assert(r@->Arr_0 =~= value_of_yaml(yaml@)->Arr_0);
                r
            },
            YamlNode::Null => Value::Null,
            YamlNode::Tagged(_, b) => Value::from_yaml(b),
            YamlNode::Mapping(_) => Value::Null,
        }
    }

    /// The YAML node that writes this value. Read back, it gives the value
    /// again, when no text of it reads as a date and its dates have years in
    /// 0..=9999.
    pub fn to_yaml(&self) -> (r: YamlNode)
        ensures
            r@ == yaml_of_value(self@),
            reads_back(self@) ==> value_of_yaml(r@) == self@,
        decreases self,
    {
        match self {
            Value::String(s) => YamlNode::String(s.clone()),
            Value::Date(d) => YamlNode::String(d.to_text()),
            Value::Bool(b) => YamlNode::Bool(*b),
            Value::Number(n) => YamlNode::Number(n.clone()),
            Value::Array(a) => {
                let ghost x = self@->Arr_0;
                let mut out: Vec<YamlNode> = Vec::new();
                let mut i: usize = 0;
                while i < a.len()
                    invariant
                        i <= a.len(),
                        *self == Value::Array(*a),
                        x == self@->Arr_0,
                        x.len() == a@.len(),
                        out@.len() == i,
                        forall|k: int| 0 <= k < i ==> (#[trigger] out@[k])@ == yaml_of_value(x[k]),
                        forall|k: int|
                            0 <= k < i ==> (reads_back(x[k]) ==> value_of_yaml(
                                (#[trigger] out@[k])@,
                            ) == x[k]),
                    decreases a.len() - i,
                {
                    proof {
                        assert(decreases_to!(*self => (*self)->Array_0));
                        assert(decreases_to!((*self)->Array_0 => (*self)->Array_0@));
                        assert(decreases_to!((*self)->Array_0@ => a@[i as int]));
                    }
                    let y = a[i].to_yaml();
                    assert(x[i as int] == a@[i as int]@);
                    out.push(y);
                    i += 1;
                }
                let r = YamlNode::Sequence(out);
                assert(r@->List_0 =~= yaml_of_value(self@)->List_0);
                proof {
                    if reads_back(self@) {
                        let back = value_of_yaml(r@);
                        assert forall|k: int| 0 <= k < x.len() implies back->Arr_0[k] == x[k] by {
                            assert(reads_back(x[k]));
                            assert(r@->List_0[k] == out@[k]@);
                        }
                        assert(back->Arr_0 =~= x);
                    }
                }
                r
            },
            Value::Null => YamlNode::Null,
        }
    }
}

/// A node with its tags looked through.
pub open spec fn untag(y: YamlV) -> YamlV
    decreases y,
{
    match y {
        YamlV::Tagged(_, b) => untag(*b),
        _ => y,
    }
}

/// The text of a string node.
pub open spec fn yaml_str(y: YamlV) -> Option<Seq<char>> {
    match untag(y) {
        YamlV::Str(s) => Some(s),
        _ => None,
    }
}

/// The truth value of a boolean node.
pub open spec fn yaml_bool(y: YamlV) -> Option<bool> {
    match untag(y) {
        YamlV::Bool(b) => Some(b),
        _ => None,
    }
}

/// The items of a sequence node.
pub open spec fn yaml_seq(y: YamlV) -> Option<Seq<YamlV>> {
    match untag(y) {
        YamlV::List(x) => Some(x),
        _ => None,
    }
}

/// The entries of a mapping node.
pub open spec fn yaml_pairs(y: YamlV) -> Option<Seq<(YamlV, YamlV)>> {
    match untag(y) {
        YamlV::Pairs(x) => Some(x),
        _ => None,
    }
}

/// The value of the first entry from index `i` on whose key is the string `key`.
pub open spec fn lookup_from(ps: Seq<(YamlV, YamlV)>, key: Seq<char>, i: int) -> Option<YamlV>
    decreases ps.len() - i,
{
    if i < 0 || i >= ps.len() {
        None
    } else if ps[i].0 == YamlV::Str(key) {
        Some(ps[i].1)
    } else {
        lookup_from(ps, key, i + 1)
    }
}

/// The value that a mapping node holds under the string key `key` (YAML's
/// `get` with a string index).
pub open spec fn yaml_get(y: YamlV, key: Seq<char>) -> Option<YamlV> {
    match yaml_pairs(y) {
        Some(ps) => lookup_from(ps, key, 0),
        None => None,
    }
}

impl YamlNode {
    /// The node with its tags looked through.
    pub fn untag_ref(&self) -> (r: &YamlNode)
        ensures
            r@ == untag(self@),
        decreases self,
    {
        match self {
            YamlNode::Tagged(_, b) => b.untag_ref(),
            _ => self,
        }
    }

    /// The text of a string node.
    pub fn as_str(&self) -> (r: Option<&str>)
        ensures
            match r {
                Some(s) => yaml_str(self@) == Some(s@),
                None => yaml_str(self@) is None,
            },
    {
        match self.untag_ref() {
            YamlNode::String(s) => Some(s.as_str()),
            _ => None,
        }
    }

    /// The truth value of a boolean node.
    pub fn as_bool(&self) -> (r: Option<bool>)
        ensures
            r == yaml_bool(self@),
    {
        match self.untag_ref() {
            YamlNode::Bool(b) => Some(*b),
            _ => None,
        }
    }

    /// The items of a sequence node.
    pub fn as_sequence(&self) -> (r: Option<&Vec<YamlNode>>)
        ensures
            match r {
                Some(v) => yaml_seq(self@) == Some(Seq::new(v@.len(), |i: int| v@[i]@)),
                None => yaml_seq(self@) is None,
            },
    {
        let u = self.untag_ref();
        match u {
            YamlNode::Sequence(v) => {
                assert(u@->List_0 =~= Seq::new(v@.len(), |i: int| v@[i]@));
                Some(v)
            },
            _ => None,
        }
    }

    /// The entries of a mapping node.
    pub fn as_mapping(&self) -> (r: Option<&Vec<(YamlNode, YamlNode)>>)
        ensures
            match r {
                Some(v) => yaml_pairs(self@) == Some(
                    Seq::new(v@.len(), |i: int| (v@[i].0@, v@[i].1@)),
                ),
                None => yaml_pairs(self@) is None,
            },
    {
        let u = self.untag_ref();
        match u {
            YamlNode::Mapping(v) => {
                assert(u@->Pairs_0 =~= Seq::new(v@.len(), |i: int| (v@[i].0@, v@[i].1@)));
                Some(v)
            },
            _ => None,
        }
    }

    /// The value that a mapping node holds under the string key `key`.
    pub fn get(&self, key: &str) -> (r: Option<&YamlNode>)
        ensures
            match r {
                Some(v) => yaml_get(self@, key@) == Some(v@),
                None => yaml_get(self@, key@) is None,
            },
    {
        match self.as_mapping() {
            Some(ps) => {
                let ghost pv = Seq::new(ps@.len(), |i: int| (ps@[i].0@, ps@[i].1@));
                let mut i: usize = 0;
                while i < ps.len()
                    invariant
                        i <= ps@.len(),
                        pv == Seq::new(ps@.len(), |i: int| (ps@[i].0@, ps@[i].1@)),
                        yaml_get(self@, key@) == lookup_from(pv, key@, i as int),
                    decreases ps@.len() - i,
                {
                    let is_key = match &ps[i].0 {
                        YamlNode::String(k) => crate::text::str_equal(k.as_str(), key),
                        _ => false,
                    };
                    if is_key {
                        return Some(&ps[i].1);
                    }
                    i += 1;
                }
                None
            },
            None => None,
        }
    }
}

} // verus!
