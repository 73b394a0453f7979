use cortx::error::CortxError;
use cortx::fields::Frontmatter;
use cortx::schema::registry::TypeRegistry;
use cortx::schema::types::{FieldType, LinkTargets};
use cortx::schema::validation::validate_frontmatter;
use cortx::value::{Number, Value};
use cortx::yaml::YamlNode;

fn node(v: &serde_yaml::Value) -> YamlNode {
    match v {
        serde_yaml::Value::Null => YamlNode::Null,
        serde_yaml::Value::Bool(b) => YamlNode::Bool(*b),
        serde_yaml::Value::Number(n) => {
            let f = n.as_f64().unwrap_or(0.0);
            YamlNode::Number(Number::from_bits(f.to_bits(), f.to_string()))
        }
        serde_yaml::Value::String(s) => YamlNode::String(s.clone()),
        serde_yaml::Value::Sequence(items) => YamlNode::Sequence(items.iter().map(node).collect()),
        serde_yaml::Value::Mapping(m) => {
            YamlNode::Mapping(m.iter().map(|(k, v)| (node(k), node(v))).collect())
        }
        serde_yaml::Value::Tagged(t) => {
            YamlNode::Tagged(t.tag.to_string(), Box::new(node(&t.value)))
        }
    }
}

fn registry(yaml: &str) -> Result<TypeRegistry, CortxError> {
    let v: serde_yaml::Value = serde_yaml::from_str(yaml).map_err(|e| CortxError::Yaml(e.to_string()))?;
    TypeRegistry::from_yaml(&node(&v))
}

#[test]
fn test_load_types_yaml() {
    let yaml = r#"
types:
  task:
    folder: "1_Projects/tasks"
    required: [id, type, title, status]
    fields:
      id:       { type: string }
      type:     { const: task }
      title:    { type: string }
      status:   { enum: [open, in_progress, waiting, done, cancelled] }
      due:      { type: date }
      tags:     { type: "array[string]", default: "[]" }
"#;
    let registry = registry(yaml).unwrap();
    assert!(registry.get("task").is_some());
    assert!(registry.get("unknown").is_none());
}

#[test]
fn test_type_definition_fields() {
    let yaml = r#"
types:
  task:
    folder: "tasks"
    required: [id, type, title, status]
    fields:
      id:       { type: string }
      type:     { const: task }
      title:    { type: string }
      status:   { enum: [open, in_progress, done] }
      due:      { type: date }
      tags:     { type: "array[string]", default: "[]" }
"#;
    let registry = registry(yaml).unwrap();
    let task_def = registry.get("task").unwrap();
    assert_eq!(task_def.folder, "tasks");
    assert!(task_def.required.contains(&"id".to_string()));
    assert_eq!(
        task_def.fields.get("status").unwrap().field_type,
        FieldType::Enum(vec!["open".into(), "in_progress".into(), "done".into()])
    );
    assert_eq!(task_def.fields.get("due").unwrap().field_type, FieldType::Date);
    assert_eq!(task_def.fields.get("tags").unwrap().field_type, FieldType::ArrayString);
}

#[test]
fn test_type_definition_const_field() {
    let yaml = r#"
types:
  task:
    folder: "tasks"
    required: [type]
    fields:
      type: { const: task }
"#;
    let registry = registry(yaml).unwrap();
    let task_def = registry.get("task").unwrap();
    assert_eq!(task_def.fields.get("type").unwrap().field_type, FieldType::Const("task".into()));
}

#[test]
fn test_registry_type_names() {
    let yaml = r#"
types:
  task:
    folder: "tasks"
    required: []
    fields: {}
  person:
    folder: "people"
    required: []
    fields: {}
"#;
    let registry = registry(yaml).unwrap();
    let mut names = registry.type_names();
    names.sort();
    assert_eq!(names, vec!["person", "task"]);
}

// -- Further cases --

const TASK_SCHEMA: &str = r#"
types:
  task:
    folder: "tasks"
    required: [id, type, status]
    fields:
      id:     { type: string }
      type:   { const: task }
      status: { enum: [open, done] }
      due:    { type: date }
      done:   { type: bool }
      effort: { type: number }
      tags:   { type: "array[string]" }
      note:   { type: string, optional: true }
      project: { type: link, ref: project, inverse: tasks, bidirectional: true }
      related: { type: "array[link]", ref: [note, task] }
"#;

fn task_fm() -> Frontmatter {
    let mut fm = Frontmatter::new();
    fm.insert("id".into(), Value::String("t1".into()));
    fm.insert("type".into(), Value::String("task".into()));
    fm.insert("status".into(), Value::String("open".into()));
    fm
}

#[test]
fn validation_accepts_a_valid_task() {
    let reg = registry(TASK_SCHEMA).unwrap();
    let td = reg.get("task").unwrap();
    assert!(validate_frontmatter(&task_fm(), td).is_ok());
}

#[test]
fn validation_reports_every_error() {
    let reg = registry(TASK_SCHEMA).unwrap();
    let td = reg.get("task").unwrap();
    let mut fm = Frontmatter::new();
    fm.insert("type".into(), Value::String("note".into()));
    fm.insert("due".into(), Value::String("tomorrowish".into()));
    fm.insert("done".into(), Value::String("yes".into()));
    let err = validate_frontmatter(&fm, td).unwrap_err();
    assert_eq!(
        err.to_string(),
        "validation error: missing required field 'id'; missing required field 'status'; \
         field 'type' must be 'task', got 'note'; \
         field 'due' must be a date (YYYY-MM-DD), got 'tomorrowish'; \
         field 'done' must be a boolean"
    );
}

#[test]
fn validation_checks_enums_numbers_and_arrays() {
    let reg = registry(TASK_SCHEMA).unwrap();
    let td = reg.get("task").unwrap();
    let mut fm = task_fm();
    fm.insert("status".into(), Value::String("invalid".into()));
    fm.insert("effort".into(), Value::String("lots".into()));
    fm.insert("tags".into(), Value::String("a".into()));
    fm.insert("due".into(), Value::Bool(true));
    let err = validate_frontmatter(&fm, td).unwrap_err();
    assert_eq!(
        err.to_string(),
        "validation error: field 'status' must be one of [open, done], got 'invalid'; \
         field 'effort' must be a number; field 'tags' must be an array of strings; \
         field 'due' must be a date"
    );
}

#[test]
fn validation_allows_unknown_fields_and_null_arrays() {
    let reg = registry(TASK_SCHEMA).unwrap();
    let td = reg.get("task").unwrap();
    let mut fm = task_fm();
    fm.insert("whatever".into(), Value::Bool(false));
    fm.insert("tags".into(), Value::Null);
    fm.insert("due".into(), Value::String("2026-04-05".into()));
    assert!(validate_frontmatter(&fm, td).is_ok());
}

#[test]
fn registry_reads_link_definitions() {
    let reg = registry(TASK_SCHEMA).unwrap();
    let td = reg.get("task").unwrap();
    match &td.fields.get("project").unwrap().field_type {
        FieldType::Link(d) => {
            assert!(d.bidirectional);
            assert!(!d.inverse_one);
            assert_eq!(
                d.targets,
                LinkTargets::Single { ref_type: "project".into(), inverse: Some("tasks".into()) }
            );
        }
        other => panic!("expected link, got {other:?}"),
    }
    match &td.fields.get("related").unwrap().field_type {
        FieldType::ArrayLink(d) => match &d.targets {
            LinkTargets::Poly(ts) => {
                assert_eq!(ts.len(), 2);
                assert_eq!(ts[0].ref_type, "note");
                assert_eq!(ts[1].ref_type, "task");
            }
            other => panic!("expected poly targets, got {other:?}"),
        },
        other => panic!("expected array link, got {other:?}"),
    }
    assert!(!td.fields.get("note").unwrap().required);
    assert!(td.fields.get("status").unwrap().required);
}

#[test]
fn registry_errors() {
    assert_eq!(
        registry("other: 1").unwrap_err().to_string(),
        "schema error: missing 'types' key in config"
    );
    assert_eq!(
        registry("types:\n  t:\n    fields:\n      f: { type: colour }\n").unwrap_err().to_string(),
        "schema error: unknown field type 'colour' for field 'f'"
    );
    assert_eq!(
        registry("types:\n  1: {}\n").unwrap_err().to_string(),
        "schema error: type name must be a string"
    );
}
