use cortx::cli::doctor::{
    check_back_ref, LinkFinding,
    check_link_format, drift, extract_body_wikilinks, filenames_outcome, links_outcome, observe_stem,
};
use cortx::fields::Frontmatter;
use cortx::name_map::NameMap;
use cortx::schema::registry::TypeRegistry;
use cortx::storage::markdown::{
    add_inverse_ref, back_ref_repair, bidirectional_def, has_back_ref, inverse_target, link_ref_ids,
    apply_updates, last_updates, set_inverse_ref,
};
use cortx::value::{Date, Number, Value};
use cortx::wikilink::{unwrap_frontmatter, wrap_frontmatter};
use cortx::yaml::YamlNode;

fn node(v: &serde_yaml::Value) -> YamlNode {
    match v {
        serde_yaml::Value::Null => YamlNode::Null,
        serde_yaml::Value::Bool(b) => YamlNode::Bool(*b),
        serde_yaml::Value::Number(n) => {
            let f = n.as_f64().unwrap_or(0.0);
            YamlNode::Number(Number::from_bits(f.to_bits(), f.to_string()))
        }
        serde_yaml::Value::String(s) => YamlNode::String(s.clone()),
        serde_yaml::Value::Sequence(items) => YamlNode::Sequence(items.iter().map(node).collect()),
        serde_yaml::Value::Mapping(m) => {
            YamlNode::Mapping(m.iter().map(|(k, v)| (node(k), node(v))).collect())
        }
        serde_yaml::Value::Tagged(t) => {
            YamlNode::Tagged(t.tag.to_string(), Box::new(node(&t.value)))
        }
    }
}

fn registry() -> TypeRegistry {
    let yaml = r#"
types:
  task:
    folder: "tasks"
    fields:
      title: { type: string }
      project: { type: link, ref: project, inverse: tasks, bidirectional: true }
      related: { type: "array[link]", ref: { note: { inverse: backlinks }, task: {} }, bidirectional: true }
      owner: { type: link, ref: person }
"#;
    let v: serde_yaml::Value = serde_yaml::from_str(yaml).unwrap();
    TypeRegistry::from_yaml(&node(&v)).unwrap()
}

fn s(x: &str) -> Value {
    Value::String(x.into())
}

#[test]
fn body_wikilinks_are_trimmed_and_filtered() {
    assert_eq!(
        extract_body_wikilinks("See [[ A ]], [[b|c]], [[  ]] and [[D]] then [[open"),
        vec!["A".to_string(), "D".to_string()]
    );
    assert!(extract_body_wikilinks("no links").is_empty());
}

#[test]
fn drift_compares_stem_with_sanitized_title() {
    let mut fm = Frontmatter::new();
    fm.insert("title".into(), s("Meeting: Notes"));
    assert_eq!(drift("Meeting Notes", &fm), None);
    assert_eq!(drift("old-name", &fm), Some("Meeting Notes".to_string()));
    let empty = Frontmatter::new();
    assert_eq!(drift("anything", &empty), None);
}

#[test]
fn bare_links_are_reported_and_fixed() {
    let reg = registry();
    let td = reg.get("task").unwrap();
    let mut fm = Frontmatter::new();
    fm.insert("title".into(), s("Plain title"));
    fm.insert("project".into(), s("Website"));
    fm.insert("related".into(), Value::Array(vec![s("[[Ok]]"), s("Bare"), s("")]));
    let issues = check_link_format(&mut fm, td, false);
    let found: Vec<(String, String, bool)> =
        issues.iter().map(|i| (i.field.clone(), i.text.clone(), i.in_array)).collect();
    assert_eq!(found.len(), 2);
    assert!(found.contains(&("project".to_string(), "Website".to_string(), false)));
    assert!(found.contains(&("related".to_string(), "Bare".to_string(), true)));
    assert_eq!(fm.get("project").unwrap(), &s("Website"));

    let fixed = check_link_format(&mut fm, td, true);
    assert_eq!(fixed.len(), 2);
    assert_eq!(fm.get("project").unwrap(), &s("[[Website]]"));
    assert_eq!(fm.get("related").unwrap(), &Value::Array(vec![s("[[Ok]]"), s("[[Bare]]"), s("")]));
    assert_eq!(fm.get("title").unwrap(), &s("Plain title"));
}

#[test]
fn stems_collide_ignoring_case() {
    let mut seen: NameMap<String> = NameMap::new();
    assert_eq!(observe_stem(&mut seen, "Buy Milk", "/v/tasks/Buy Milk.md"), None);
    assert_eq!(observe_stem(&mut seen, "Buy Milk", "/v/tasks/Buy Milk.md"), None);
    assert_eq!(
        observe_stem(&mut seen, "buy milk", "/v/notes/buy milk.md"),
        Some("/v/tasks/Buy Milk.md".to_string())
    );
}

#[test]
fn outcomes_count_issues() {
    assert!(links_outcome(0, false).is_ok());
    assert!(links_outcome(3, true).is_ok());
    assert_eq!(
        links_outcome(3, false).unwrap_err().to_string(),
        "validation error: 3 relation inconsistency/ies"
    );
    assert_eq!(
        filenames_outcome(12, false).unwrap_err().to_string(),
        "validation error: 12 filename/wikilink issue(s)"
    );
}

#[test]
fn ref_ids_of_link_values() {
    assert_eq!(link_ref_ids(&s("A")), Some(vec!["A".to_string()]));
    assert_eq!(link_ref_ids(&s("")), None);
    assert_eq!(
        link_ref_ids(&Value::Array(vec![s("A"), s(""), Value::Null, s("B")])),
        Some(vec!["A".to_string(), "B".to_string()])
    );
    assert_eq!(link_ref_ids(&Value::Bool(true)), None);
}

#[test]
fn inverse_targets() {
    let reg = registry();
    let td = reg.get("task").unwrap();
    let project = bidirectional_def(td, "project").unwrap();
    assert_eq!(
        inverse_target(&project.targets, &vec![]),
        Some(("project".to_string(), "tasks".to_string()))
    );
    let related = bidirectional_def(td, "related").unwrap();
    assert_eq!(
        inverse_target(&related.targets, &vec![true, true]),
        Some(("note".to_string(), "backlinks".to_string()))
    );
    assert_eq!(inverse_target(&related.targets, &vec![false, true]), None);
    assert!(bidirectional_def(td, "owner").is_none());
    assert!(bidirectional_def(td, "missing").is_none());
}

#[test]
fn inverse_refs_are_added_once() {
    let mut fm = Frontmatter::new();
    fm.insert("tasks".into(), s("not an array"));
    add_inverse_ref(&mut fm, "tasks", "T1");
    assert_eq!(fm.get("tasks").unwrap(), &Value::Array(vec![s("T1")]));
    add_inverse_ref(&mut fm, "tasks", "T1");
    assert_eq!(fm.get("tasks").unwrap(), &Value::Array(vec![s("T1")]));
    add_inverse_ref(&mut fm, "tasks", "T2");
    assert_eq!(fm.get("tasks").unwrap(), &Value::Array(vec![s("T1"), s("T2")]));
    assert!(has_back_ref(&fm, "tasks", false, "T2"));
    assert!(!has_back_ref(&fm, "tasks", true, "T2"));
    assert!(!has_back_ref(&fm, "others", false, "T2"));
}

#[test]
fn back_ref_repairs() {
    let mut fm = Frontmatter::new();
    fm.insert("tasks".into(), Value::Array(vec![s("T1")]));
    assert_eq!(back_ref_repair(&fm, "tasks", false, "T2"), Value::Array(vec![s("T1"), s("T2")]));
    assert_eq!(back_ref_repair(&fm, "tasks", false, "T1"), Value::Array(vec![s("T1")]));
    assert_eq!(back_ref_repair(&fm, "owner", true, "T1"), s("T1"));
}

#[test]
fn links_are_wrapped_for_writing_and_unwrapped_for_reading() {
    let reg = registry();
    let td = reg.get("task").unwrap();
    let mut fm = Frontmatter::new();
    fm.insert("title".into(), s("A title"));
    fm.insert("project".into(), s("Website Redesign"));
    fm.insert("related".into(), Value::Array(vec![s("Weekly Review"), s("Meal Planning")]));
    wrap_frontmatter(&mut fm, td);
    assert_eq!(fm.get("project").unwrap(), &s("[[Website Redesign]]"));
    assert_eq!(
        fm.get("related").unwrap(),
        &Value::Array(vec![s("[[Weekly Review]]"), s("[[Meal Planning]]")])
    );
    assert_eq!(fm.get("title").unwrap(), &s("A title"));
    unwrap_frontmatter(&mut fm, td).unwrap();
    assert_eq!(fm.get("project").unwrap(), &s("Website Redesign"));
    assert_eq!(
        fm.get("related").unwrap(),
        &Value::Array(vec![s("Weekly Review"), s("Meal Planning")])
    );
}

#[test]
fn unwrapping_refuses_piped_links() {
    let reg = registry();
    let td = reg.get("task").unwrap();
    let mut fm = Frontmatter::new();
    fm.insert("project".into(), s("[[a|b]]"));
    let err = unwrap_frontmatter(&mut fm, td).unwrap_err();
    assert!(err.to_string().contains("piped wikilinks are not supported"));
}

#[test]
fn inverse_refs_honour_one_to_one_links() {
    let mut one = Frontmatter::new();
    one.insert("owner".into(), s("old"));
    set_inverse_ref(&mut one, "owner", true, "task-1");
    assert_eq!(one.get("owner"), Some(&s("task-1")));

    let mut many = Frontmatter::new();
    many.insert("tasks".into(), Value::Array(vec![s("task-0")]));
    set_inverse_ref(&mut many, "tasks", false, "task-1");
    set_inverse_ref(&mut many, "tasks", false, "task-1");
    assert_eq!(many.get("tasks"), Some(&Value::Array(vec![s("task-0"), s("task-1")])));
}

#[test]
fn back_refs_are_checked_one_link_at_a_time() {
    assert!(matches!(check_back_ref(None, "tasks", false, "t1", true), LinkFinding::Dangling));
    let mut fm = Frontmatter::new();
    fm.insert("tasks".into(), Value::Array(vec![s("t1")]));
    assert!(matches!(check_back_ref(Some(&fm), "tasks", false, "t1", true), LinkFinding::Consistent));
    match check_back_ref(Some(&fm), "tasks", false, "t2", true) {
        LinkFinding::MissingInverse { repair } => {
            assert_eq!(repair, Some(Value::Array(vec![s("t1"), s("t2")])))
        }
        other => panic!("unexpected {other:?}"),
    }
    assert!(matches!(
        check_back_ref(Some(&fm), "owner", true, "t2", false),
        LinkFinding::MissingInverse { repair: None }
    ));
}

#[test]
fn only_the_last_update_of_a_field_takes_effect() {
    let u = vec![
        ("project".to_string(), s("A")),
        ("status".to_string(), s("open")),
        ("project".to_string(), s("B")),
    ];
    assert_eq!(
        last_updates(&u),
        vec![("status".to_string(), s("open")), ("project".to_string(), s("B"))]
    );
}

#[test]
fn last_updates_give_the_same_fields_as_all_updates() {
    let u = vec![
        ("project".to_string(), s("A")),
        ("status".to_string(), s("open")),
        ("project".to_string(), s("B")),
    ];
    let today = Date::from_ymd_opt(2026, 4, 5).unwrap();
    let mut all = Frontmatter::new();
    apply_updates(&mut all, &u, today);
    let mut last = Frontmatter::new();
    apply_updates(&mut last, &last_updates(&u), today);
    for k in ["project", "status", "updated_at"] {
        assert_eq!(all.get(k), last.get(k), "{k}");
    }
    assert_eq!(all.len(), last.len());
}
