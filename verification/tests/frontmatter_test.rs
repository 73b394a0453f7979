use cortx::error::CortxError;
use cortx::fields::Frontmatter;
use cortx::frontmatter::{
    assemble_document, frontmatter_from_yaml, frontmatter_to_yaml, sorted_keys, split_frontmatter,
};
use cortx::value::{Date, Number, Value};
use cortx::yaml::YamlNode;

fn node(v: &serde_yaml::Value) -> YamlNode {
    match v {
        serde_yaml::Value::Null => YamlNode::Null,
        serde_yaml::Value::Bool(b) => YamlNode::Bool(*b),
        serde_yaml::Value::Number(n) => {
            let f = n.as_f64().unwrap_or(0.0);
            YamlNode::Number(Number::from_bits(f.to_bits(), f.to_string()))
        }
        serde_yaml::Value::String(s) => YamlNode::String(s.clone()),
        serde_yaml::Value::Sequence(items) => YamlNode::Sequence(items.iter().map(node).collect()),
        serde_yaml::Value::Mapping(m) => {
            YamlNode::Mapping(m.iter().map(|(k, v)| (node(k), node(v))).collect())
        }
        serde_yaml::Value::Tagged(t) => {
            YamlNode::Tagged(t.tag.to_string(), Box::new(node(&t.value)))
        }
    }
}

fn to_serde(n: &YamlNode) -> serde_yaml::Value {
    match n {
        YamlNode::Null => serde_yaml::Value::Null,
        YamlNode::Bool(b) => serde_yaml::Value::Bool(*b),
        YamlNode::Number(x) => serde_yaml::Value::Number(serde_yaml::Number::from(f64::from_bits(x.bits))),
        YamlNode::String(s) => serde_yaml::Value::String(s.clone()),
        YamlNode::Sequence(items) => serde_yaml::Value::Sequence(items.iter().map(to_serde).collect()),
        YamlNode::Mapping(ps) => {
            let mut m = serde_yaml::Mapping::new();
            for (k, v) in ps {
                m.insert(to_serde(k), to_serde(v));
            }
            serde_yaml::Value::Mapping(m)
        }
        YamlNode::Tagged(t, b) => serde_yaml::Value::Tagged(Box::new(serde_yaml::value::TaggedValue {
            tag: serde_yaml::value::Tag::new(t.clone()),
            value: to_serde(b),
        })),
    }
}

fn parse_frontmatter(content: &str) -> Result<(Frontmatter, String), CortxError> {
    let (yaml, body) = split_frontmatter(content)?;
    let v: serde_yaml::Value =
        serde_yaml::from_str(&yaml).map_err(|e| CortxError::Yaml(e.to_string()))?;
    let fm = frontmatter_from_yaml(&node(&v))?;
    Ok((fm, body))
}

fn serialize_entity(fm: &Frontmatter, body: &str) -> String {
    let yaml = serde_yaml::to_string(&to_serde(&frontmatter_to_yaml(fm))).unwrap_or_default();
    assemble_document(&yaml, body)
}

#[test]
fn test_parse_frontmatter_basic() {
    let content = r#"---
id: task-001
type: task
title: "Do the thing"
status: open
tags:
  - home
  - urgent
---
# Body content

Some notes here.
"#;
    let (fm, body) = parse_frontmatter(content).unwrap();
    assert_eq!(fm.get("id").unwrap(), &Value::String("task-001".into()));
    assert_eq!(fm.get("type").unwrap(), &Value::String("task".into()));
    assert_eq!(fm.get("title").unwrap(), &Value::String("Do the thing".into()));
    assert_eq!(fm.get("status").unwrap(), &Value::String("open".into()));
    assert_eq!(
        fm.get("tags").unwrap(),
        &Value::Array(vec![Value::String("home".into()), Value::String("urgent".into())])
    );
    assert!(body.contains("# Body content"));
    assert!(body.contains("Some notes here."));
}

#[test]
fn test_parse_frontmatter_with_date() {
    let content = "---\ndue: 2026-04-05\n---\nBody\n";
    let (fm, _body) = parse_frontmatter(content).unwrap();
    assert_eq!(fm.get("due").unwrap(), &Value::Date(Date::from_ymd_opt(2026, 4, 5).unwrap()));
}

#[test]
fn test_parse_frontmatter_no_frontmatter() {
    let content = "# Just a plain markdown file\n\nNo frontmatter here.\n";
    let result = parse_frontmatter(content);
    assert!(result.is_err());
}

#[test]
fn test_serialize_entity_roundtrip() {
    let mut fm = Frontmatter::new();
    fm.insert("id".into(), Value::String("task-001".into()));
    fm.insert("type".into(), Value::String("task".into()));
    fm.insert("title".into(), Value::String("Do the thing".into()));
    fm.insert("status".into(), Value::String("open".into()));

    let body = "# Notes\n\nSome content.\n";
    let output = serialize_entity(&fm, body);

    assert!(output.starts_with("---\n"));
    assert!(output.contains("id: task-001"));
    assert!(output.contains("type: task"));
    assert!(output.ends_with("# Notes\n\nSome content.\n"));

    let (parsed_fm, parsed_body) = parse_frontmatter(&output).unwrap();
    assert_eq!(parsed_fm.get("id").unwrap(), &Value::String("task-001".into()));
    assert_eq!(parsed_body.trim(), body.trim());
}

#[test]
fn test_parse_frontmatter_unclosed() {
    let content = "---\nid: task-001\ntype: task\n";
    let err = parse_frontmatter(content).unwrap_err();
    assert!(err.to_string().contains("unclosed"));
}

#[test]
fn test_parse_frontmatter_not_a_mapping() {
    let content = "---\njust a string\n---\nBody\n";
    let err = parse_frontmatter(content).unwrap_err();
    assert!(err.to_string().contains("mapping"));
}

// -- Further cases --

#[test]
fn split_skips_leading_whitespace_and_newlines_before_the_body() {
    let (yaml, body) = split_frontmatter("  \n---\na: 1\n---\n\n\nBody").unwrap();
    assert_eq!(yaml, "\na: 1");
    assert_eq!(body, "Body");
}

#[test]
fn split_errors_name_their_cause() {
    assert_eq!(
        split_frontmatter("no dashes").unwrap_err().to_string(),
        "storage error: no YAML frontmatter found"
    );
    assert_eq!(
        split_frontmatter("---\nx: 1\n").unwrap_err().to_string(),
        "storage error: unclosed YAML frontmatter"
    );
}

#[test]
fn assembled_document_splits_back() {
    let doc = assemble_document("a: 1\nb: two\n", "Body\n");
    assert_eq!(doc, "---\na: 1\nb: two\n---\nBody\n");
    let (yaml, body) = split_frontmatter(&doc).unwrap();
    assert_eq!(yaml, "\na: 1\nb: two");
    assert_eq!(body, "Body\n");
}

#[test]
fn serialized_keys_are_sorted() {
    let mut fm = Frontmatter::new();
    fm.insert("zeta".into(), Value::Bool(true));
    fm.insert("alpha".into(), Value::Null);
    fm.insert("mid".into(), Value::String("x".into()));
    assert_eq!(sorted_keys(&fm), vec!["alpha".to_string(), "mid".to_string(), "zeta".to_string()]);
    let out = serialize_entity(&fm, "");
    let a = out.find("alpha").unwrap();
    let m = out.find("mid").unwrap();
    let z = out.find("zeta").unwrap();
    assert!(a < m && m < z);
}

#[test]
fn non_string_keys_are_skipped() {
    let (fm, _) = parse_frontmatter("---\n1: one\nname: x\n---\n").unwrap();
    assert_eq!(fm.len(), 1);
    assert_eq!(fm.get("name").unwrap(), &Value::String("x".into()));
}
