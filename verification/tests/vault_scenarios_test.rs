//! The rename and doctor scenarios, run on files held in memory: each step
//! reads or writes a file as the store does, and decides with the library.

use cortx::cli::doctor::{check_link_format, drift, filenames_outcome};
use cortx::cli::rename::{
    back_ref_field, body_links_to, rename_ids, retitle, rewrite_back_refs, rewrite_body_links,
    stem_collides,
};
use cortx::error::CortxError;
use cortx::fields::Frontmatter;
use cortx::frontmatter::{assemble_document, frontmatter_from_yaml, frontmatter_to_yaml, split_frontmatter};
use cortx::schema::registry::TypeRegistry;
use cortx::storage::markdown::entity_file_name;
use cortx::value::{Date, Number};
use cortx::yaml::YamlNode;

fn node(v: &serde_yaml::Value) -> YamlNode {
    match v {
        serde_yaml::Value::Null => YamlNode::Null,
        serde_yaml::Value::Bool(b) => YamlNode::Bool(*b),
        serde_yaml::Value::Number(n) => {
            let f = n.as_f64().unwrap_or(0.0);
            YamlNode::Number(Number::from_bits(f.to_bits(), f.to_string()))
        }
        serde_yaml::Value::String(s) => YamlNode::String(s.clone()),
        serde_yaml::Value::Sequence(items) => YamlNode::Sequence(items.iter().map(node).collect()),
        serde_yaml::Value::Mapping(m) => {
            YamlNode::Mapping(m.iter().map(|(k, v)| (node(k), node(v))).collect())
        }
        serde_yaml::Value::Tagged(t) => {
            YamlNode::Tagged(t.tag.to_string(), Box::new(node(&t.value)))
        }
    }
}

fn to_serde(n: &YamlNode) -> serde_yaml::Value {
    match n {
        YamlNode::Null => serde_yaml::Value::Null,
        YamlNode::Bool(b) => serde_yaml::Value::Bool(*b),
        YamlNode::Number(x) => serde_yaml::Value::Number(serde_yaml::Number::from(f64::from_bits(x.bits))),
        YamlNode::String(s) => serde_yaml::Value::String(s.clone()),
        YamlNode::Sequence(items) => serde_yaml::Value::Sequence(items.iter().map(to_serde).collect()),
        YamlNode::Mapping(ps) => {
            let mut m = serde_yaml::Mapping::new();
            for (k, v) in ps {
                m.insert(to_serde(k), to_serde(v));
            }
            serde_yaml::Value::Mapping(m)
        }
        YamlNode::Tagged(t, b) => serde_yaml::Value::Tagged(Box::new(serde_yaml::value::TaggedValue {
            tag: serde_yaml::value::Tag::new(t.clone()),
            value: to_serde(b),
        })),
    }
}

fn read_file(content: &str) -> Result<(Frontmatter, String), CortxError> {
    let (yaml, body) = split_frontmatter(content)?;
    let v: serde_yaml::Value = serde_yaml::from_str(&yaml).map_err(|e| CortxError::Yaml(e.to_string()))?;
    Ok((frontmatter_from_yaml(&node(&v))?, body))
}

fn write_file(fm: &Frontmatter, body: &str) -> String {
    let yaml = serde_yaml::to_string(&to_serde(&frontmatter_to_yaml(fm))).unwrap();
    assemble_document(&yaml, body)
}

fn registry(text: &str) -> TypeRegistry {
    let v: serde_yaml::Value = serde_yaml::from_str(text).unwrap();
    TypeRegistry::from_yaml(&node(&v)).unwrap()
}

const MINIMAL_SCHEMA: &str = r#"types:
  task:
    folder: "tasks"
    required: [type, title]
    fields:
      type: { const: task }
      title: { type: string }
      project: { type: link, ref: project }
  project:
    folder: "projects"
    required: [type, title]
    fields:
      type: { const: project }
      title: { type: string }
"#;

const PROJECT_FILE: &str = "---\ntype: project\ntitle: Website Redesign\nstatus: active\n---\n";
const TASK_FILE: &str = "---\ntype: task\ntitle: Buy Groceries\nproject: '[[Website Redesign]]'\n---\n";

fn today() -> Date {
    Date::from_ymd_opt(2026, 4, 5).unwrap()
}

#[test]
fn rename_updates_filename_and_back_refs() {
    let reg = registry(MINIMAL_SCHEMA);
    let (old_id, new_id) = rename_ids("Website Redesign", "Brand Refresh").unwrap().unwrap();
    // The renamed file moves to the new stem.
    assert_eq!(entity_file_name(&old_id), "Website Redesign.md");
    assert_eq!(entity_file_name(&new_id), "Brand Refresh.md");
    // The task's back reference is found and rewritten.
    let (mut task_fm, task_body) = read_file(TASK_FILE).unwrap();
    let task_td = reg.get("task").unwrap();
    assert_eq!(back_ref_field(&task_fm, task_td, &old_id), Some("project".to_string()));
    rewrite_back_refs(&mut task_fm, task_td, &old_id, &new_id);
    let task_content = write_file(&task_fm, &task_body);
    assert!(task_content.contains("[[Brand Refresh]]"), "got: {task_content}");
    assert!(!task_content.contains("[[Website Redesign]]"));
    // The renamed file's own title is updated.
    let (mut project_fm, project_body) = read_file(PROJECT_FILE).unwrap();
    retitle(&mut project_fm, "Brand Refresh", today());
    let project_content = write_file(&project_fm, &project_body);
    assert!(project_content.contains("title: Brand Refresh"), "got: {project_content}");
}

#[test]
fn rename_rewrites_body_wikilinks() {
    let content = format!("{PROJECT_FILE}\n\nSee [[Website Redesign]] for context.\n");
    let (old_id, new_id) = rename_ids("Website Redesign", "Brand Refresh").unwrap().unwrap();
    assert!(body_links_to(&content, &old_id));
    let (fm, body) = read_file(&content).unwrap();
    let rewritten = write_file(&fm, &rewrite_body_links(&body, &old_id, &new_id));
    assert!(rewritten.contains("See [[Brand Refresh]] for context."), "body not rewritten: {rewritten}");
}

#[test]
fn rename_skip_body_preserves_body_wikilinks() {
    // With --skip-body only the frontmatter of the renamed file changes.
    let content = format!("{PROJECT_FILE}\n\nSee [[Website Redesign]] for context.\n");
    let (mut fm, body) = read_file(&content).unwrap();
    retitle(&mut fm, "Brand Refresh", today());
    let rewritten = write_file(&fm, &body);
    assert!(rewritten.contains("See [[Website Redesign]] for context."), "body should be preserved: {rewritten}");
}

#[test]
fn rename_rejects_collision() {
    let (_, new_id) = rename_ids("Website Redesign", "Brand Refresh").unwrap().unwrap();
    // "Brand Refresh.md" already exists in the projects folder.
    assert!(stem_collides("Brand Refresh", &new_id));
    assert!(!stem_collides("Website Redesign", &new_id));
}

#[test]
fn doctor_filenames_detects_drift() {
    let (fm, _) = read_file("---\ntype: task\ntitle: Correct Name\n---\n").unwrap();
    assert_eq!(drift("Wrong Name", &fm), Some("Correct Name".to_string()));
    assert!(filenames_outcome(1, false).is_err());
}

#[test]
fn doctor_filenames_fix_renames_drifted_file() {
    let (fm, _) = read_file("---\ntype: task\ntitle: Correct Name\n---\n").unwrap();
    let expected = drift("Wrong Name", &fm).unwrap();
    assert_eq!(entity_file_name(&expected), "Correct Name.md");
    assert!(filenames_outcome(1, true).is_ok());
}

#[test]
fn doctor_filenames_detects_bare_link_value() {
    let reg = registry(MINIMAL_SCHEMA);
    let (mut fm, _) =
        read_file("---\ntype: task\ntitle: Buy Groceries\nproject: Website Redesign\n---\n").unwrap();
    let issues = check_link_format(&mut fm, reg.get("task").unwrap(), false);
    assert_eq!(issues.len(), 1);
    assert_eq!(issues[0].field, "project");
    assert!(filenames_outcome(issues.len(), false).is_err());
}

#[test]
fn doctor_filenames_fix_wraps_bare_link_value() {
    let reg = registry(MINIMAL_SCHEMA);
    let (mut fm, body) =
        read_file("---\ntype: task\ntitle: Buy Groceries\nproject: Website Redesign\n---\n").unwrap();
    let issues = check_link_format(&mut fm, reg.get("task").unwrap(), true);
    assert_eq!(issues.len(), 1);
    assert!(filenames_outcome(issues.len(), true).is_ok());
    let content = write_file(&fm, &body);
    assert!(content.contains("[[Website Redesign]]"), "got: {content}");
}
