use cortx::cli::rename::{
    back_ref_field, body_links_to, link_value_matches, rename_ids, replace_all, retitle,
    rewrite_back_refs, rewrite_body_links, stem_collides,
};
use cortx::error::CortxError;
use cortx::fields::Frontmatter;
use cortx::schema::registry::TypeRegistry;
use cortx::value::{Date, Number, Value};
use cortx::yaml::YamlNode;

fn node(v: &serde_yaml::Value) -> YamlNode {
    match v {
        serde_yaml::Value::Null => YamlNode::Null,
        serde_yaml::Value::Bool(b) => YamlNode::Bool(*b),
        serde_yaml::Value::Number(n) => {
            let f = n.as_f64().unwrap_or(0.0);
            YamlNode::Number(Number::from_bits(f.to_bits(), f.to_string()))
        }
        serde_yaml::Value::String(s) => YamlNode::String(s.clone()),
        serde_yaml::Value::Sequence(items) => YamlNode::Sequence(items.iter().map(node).collect()),
        serde_yaml::Value::Mapping(m) => {
            YamlNode::Mapping(m.iter().map(|(k, v)| (node(k), node(v))).collect())
        }
        serde_yaml::Value::Tagged(t) => {
            YamlNode::Tagged(t.tag.to_string(), Box::new(node(&t.value)))
        }
    }
}

fn registry() -> TypeRegistry {
    let yaml = r#"
types:
  task:
    folder: "tasks"
    fields:
      title: { type: string }
      project: { type: link, ref: project }
      related: { type: "array[link]", ref: note }
"#;
    let v: serde_yaml::Value = serde_yaml::from_str(yaml).unwrap();
    TypeRegistry::from_yaml(&node(&v)).unwrap()
}

#[test]
fn rename_ids_sanitize_both_titles() {
    assert_eq!(
        rename_ids("Website: Redesign", "Web Relaunch").unwrap(),
        Some(("Website Redesign".to_string(), "Web Relaunch".to_string()))
    );
    assert_eq!(rename_ids("A/B", "A B").unwrap(), None);
    match rename_ids("x", "///") {
        Err(CortxError::Validation(m)) => assert!(m.contains("sanitizes to empty id")),
        other => panic!("unexpected {other:?}"),
    }
}

#[test]
fn link_values_match_wrapped_ids() {
    assert!(link_value_matches(&Value::String("[[Old]]".into()), "Old"));
    assert!(!link_value_matches(&Value::String("Old".into()), "Old"));
    let arr = Value::Array(vec![Value::String("[[A]]".into()), Value::String("[[Old]]".into())]);
    assert!(link_value_matches(&arr, "Old"));
    assert!(!link_value_matches(&Value::Null, "Old"));
}

#[test]
fn back_refs_are_found_and_rewritten() {
    let reg = registry();
    let td = reg.get("task").unwrap();
    let mut fm = Frontmatter::new();
    fm.insert("title".into(), Value::String("[[Old]]".into()));
    fm.insert(
        "related".into(),
        Value::Array(vec![Value::String("[[Old]]".into()), Value::String("[[Other]]".into())]),
    );
    assert_eq!(back_ref_field(&fm, td, "Old"), Some("related".to_string()));
    assert_eq!(back_ref_field(&fm, td, "Nobody"), None);
    rewrite_back_refs(&mut fm, td, "Old", "New");
    assert_eq!(
        fm.get("related").unwrap(),
        &Value::Array(vec![Value::String("[[New]]".into()), Value::String("[[Other]]".into())])
    );
    // Not a link field: left alone.
    assert_eq!(fm.get("title").unwrap(), &Value::String("[[Old]]".into()));
}

#[test]
fn body_links_skip_the_frontmatter() {
    assert!(body_links_to("---\nproject: \"[[Old]]\"\n---\nsee [[Old]]\n", "Old"));
    assert!(!body_links_to("---\nproject: \"[[Old]]\"\n---\nnothing\n", "Old"));
    assert!(body_links_to("plain [[Old]] text", "Old"));
}

#[test]
fn replace_all_works_left_to_right() {
    assert_eq!(replace_all("aaa", "aa", "b"), "ba");
    assert_eq!(replace_all("x [[A]] y [[A]]", "[[A]]", "[[B]]"), "x [[B]] y [[B]]");
    assert_eq!(rewrite_body_links("see [[Old]].", "Old", "New"), "see [[New]].");
}

#[test]
fn retitle_sets_title_and_date() {
    let mut fm = Frontmatter::new();
    fm.insert("title".into(), Value::String("Old".into()));
    let today = Date::from_ymd_opt(2026, 4, 5).unwrap();
    retitle(&mut fm, "New", today);
    assert_eq!(fm.get("title").unwrap(), &Value::String("New".into()));
    assert_eq!(fm.get("updated_at").unwrap(), &Value::Date(today));
}

#[test]
fn collisions_ignore_case() {
    assert!(stem_collides("Buy Groceries", "buy groceries"));
    assert!(!stem_collides("Buy Groceries", "Buy Milk"));
}
