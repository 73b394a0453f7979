//! The command scenarios, run on a vault held in memory: entities made as
//! `cortx create` makes them, files read as the store reads them, and the
//! lines that `query` prints.

use cortx::cli::create::{create_fields, CreateArgs};
use cortx::cli::meta::{apply_filter_with, count_by, distinct_values};
use cortx::cli::note::{extract_headings, insert_after_heading, read_lines, replace_block};
use cortx::cli::query_cmd::{matching_refs, parse_sort_by, result_details_of, result_line_of, sort_entities};
use cortx::cli::schema::{field_type_str, sorted_type_names};
use cortx::entity::Entity;
use cortx::error::CortxError;
use cortx::fields::Frontmatter;
use cortx::frontmatter::{frontmatter_from_yaml, split_frontmatter};
use cortx::query::parser::{parse_query_with, DateContext};
use cortx::schema::registry::TypeRegistry;
use cortx::schema::validation::validate_frontmatter;
use cortx::storage::markdown::type_for;
use cortx::value::{Date, Number};
use cortx::yaml::YamlNode;

const TYPES: &str = r#"
types:
  task:
    folder: "1_Projects/tasks"
    required: [id, type, title, status]
    fields:
      id:       { type: string }
      type:     { const: task }
      title:    { type: string }
      status:   { enum: [open, in_progress, waiting, done, cancelled] }
      priority: { type: string }
      due:      { type: date }
      tags:     { type: "array[string]", default: "[]" }
  project:
    folder: "1_Projects"
    required: [id, type, title]
    fields:
      id:       { type: string }
      type:     { const: project }
      title:    { type: string }
      status:   { enum: [open, active, done] }
  note:
    folder: "3_Resources/notes"
    required: [id, type, title]
    fields:
      id:       { type: string }
      type:     { const: note }
      title:    { type: string }
      tags:     { type: "array[string]", default: "[]" }
"#;

fn node(v: &serde_yaml::Value) -> YamlNode {
    match v {
        serde_yaml::Value::Null => YamlNode::Null,
        serde_yaml::Value::Bool(b) => YamlNode::Bool(*b),
        serde_yaml::Value::Number(n) => {
            let f = n.as_f64().unwrap_or(0.0);
            YamlNode::Number(Number::from_bits(f.to_bits(), f.to_string()))
        }
        serde_yaml::Value::String(s) => YamlNode::String(s.clone()),
        serde_yaml::Value::Sequence(items) => YamlNode::Sequence(items.iter().map(node).collect()),
        serde_yaml::Value::Mapping(m) => {
            YamlNode::Mapping(m.iter().map(|(k, v)| (node(k), node(v))).collect())
        }
        serde_yaml::Value::Tagged(t) => {
            YamlNode::Tagged(t.tag.to_string(), Box::new(node(&t.value)))
        }
    }
}

fn registry_of(text: &str) -> TypeRegistry {
    let v: serde_yaml::Value = serde_yaml::from_str(text).unwrap();
    TypeRegistry::from_yaml(&node(&v)).unwrap()
}

fn ctx() -> DateContext {
    DateContext::of_day(Date::from_ymd_opt(2026, 4, 5).unwrap())
}

/// The in-memory vault and its schema.
struct Vault {
    registry: TypeRegistry,
    entities: Vec<Entity>,
}

impl Vault {
    fn new() -> Vault {
        Vault { registry: registry_of(TYPES), entities: Vec::new() }
    }

    /// `cortx create <type> --title <title> --id <id> [--tags ..] [--set ..]`.
    fn create(&mut self, entity_type: &str, title: &str, id: &str, tags: Option<&str>, sets: &[&str]) {
        let args = CreateArgs {
            entity_type: entity_type.into(),
            id: Some(id.into()),
            title: Some(title.into()),
            name: None,
            tags: tags.map(String::from),
            fields: sets.iter().map(|s| s.to_string()).collect(),
        };
        let fm = create_fields(&args, id, &self.registry, &ctx()).unwrap();
        validate_frontmatter(&fm, type_for(&self.registry, entity_type).unwrap()).unwrap();
        self.entities.push(Entity::new(fm, String::new()));
    }

    /// A file written into the vault, read as the store reads it.
    fn write_file(&mut self, content: &str) {
        let (fm, body) = read_file(content).unwrap();
        self.entities.push(Entity::new(fm, body));
    }

    /// What `cortx query <expr> [--sort-by <spec>]` prints.
    fn query(&self, expr: &str, sort_by: Option<&str>) -> Result<String, CortxError> {
        let q = parse_query_with(expr, &ctx())?;
        let mut found = matching_refs(&self.entities, &q);
        let mut out = match sort_by {
            Some(spec) => {
                let specs = parse_sort_by(spec)?;
                sort_entities(&mut found, &specs);
                format!("Found {} results (sorted by {}):\n\n", found.len(), spec)
            }
            None => format!("Found {} results:\n\n", found.len()),
        };
        for e in &found {
            out.push_str(&result_line_of(e));
            out.push('\n');
            if let Some(details) = result_details_of(e) {
                out.push_str(&format!("  {details}\n"));
            }
        }
        Ok(out)
    }

    fn filtered(&self, filter: Option<&str>) -> Vec<Entity> {
        let copies: Vec<Entity> =
            self.entities.iter().map(|e| Entity::new(e.frontmatter.clone(), e.body.clone())).collect();
        apply_filter_with(copies, filter, &ctx()).unwrap()
    }

    /// What `cortx meta distinct <field>` prints.
    fn distinct(&self, field: &str, filter: Option<&str>) -> String {
        let values = distinct_values(&self.filtered(filter), field);
        let mut out = format!("Distinct values for '{field}' ({} values):\n\n", values.len());
        for v in values {
            out.push_str(&format!("  {v}\n"));
        }
        out
    }

    /// What `cortx meta count-by <field>` prints.
    fn count(&self, field: &str, filter: Option<&str>) -> String {
        let mut out = format!("Count by '{field}':\n\n");
        for (v, n) in count_by(&self.filtered(filter), field) {
            out.push_str(&format!("  {v}: {n}\n"));
        }
        out
    }

    /// What `cortx doctor validate` prints.
    fn doctor_validate(&self) -> String {
        let mut out = String::new();
        let mut errors = 0;
        for e in &self.entities {
            if let Some(td) = self.registry.get(&e.entity_type) {
                if let Err(err) = validate_frontmatter(&e.frontmatter, td) {
                    errors += 1;
                    out.push_str(&format!("ERROR in {} ({}): {}\n", e.id, e.entity_type, err.to_string()));
                }
            }
        }
        if errors == 0 {
            out.push_str(&format!("All {} entities pass validation.\n", self.entities.len()));
        } else {
            out.push_str(&format!("\n{errors} validation error(s) found in {} entities.\n", self.entities.len()));
        }
        out
    }
}

fn read_file(content: &str) -> Result<(Frontmatter, String), CortxError> {
    let (yaml, body) = split_frontmatter(content)?;
    let v: serde_yaml::Value = serde_yaml::from_str(&yaml).map_err(|e| CortxError::Yaml(e.to_string()))?;
    Ok((frontmatter_from_yaml(&node(&v))?, body))
}

fn pos(out: &str, what: &str) -> usize {
    out.find(what).unwrap_or_else(|| panic!("{what} should be in output"))
}

#[test]
fn test_query_filters() {
    let mut vault = Vault::new();
    vault.create("task", "Open task", "task-open", None, &[]);
    vault.create("task", "Done task", "task-done", None, &["status=done"]);
    let out = vault.query(r#"type = "task" and status = "open""#, None).unwrap();
    assert!(out.contains("Open task"));
    assert!(out.contains("1 results"));
}

#[test]
fn test_query_overdue_tasks() {
    let mut vault = Vault::new();
    vault.create("task", "Overdue task", "task-overdue", None, &["due=2020-01-01"]);
    let out = vault.query(r#"type = "task" and status != "done" and due < today"#, None).unwrap();
    assert!(out.contains("Overdue task"));
}

#[test]
fn test_meta_distinct_tags() {
    let mut vault = Vault::new();
    vault.create("task", "T1", "task-t1", Some("home,urgent"), &[]);
    vault.create("task", "T2", "task-t2", Some("home,work"), &[]);
    let out = vault.distinct("tags", Some(r#"type = "task""#));
    assert!(out.contains("home"));
    assert!(out.contains("urgent"));
    assert!(out.contains("work"));
}

#[test]
fn test_meta_count_by_status() {
    let mut vault = Vault::new();
    vault.create("task", "T1", "task-c1", None, &[]);
    vault.create("task", "T2", "task-c2", None, &[]);
    vault.create("task", "T3", "task-c3", None, &["status=done"]);
    let out = vault.count("status", Some(r#"type = "task""#));
    assert!(out.contains("open: 2"));
    assert!(out.contains("done: 1"));
}

#[test]
fn test_doctor_validate() {
    let mut vault = Vault::new();
    vault.create("task", "Valid task", "task-valid", None, &[]);
    assert!(vault.doctor_validate().contains("pass validation"));
}

#[test]
fn test_note_headings_and_insert() {
    let (_, body) = read_file(
        "---\nid: note-test\ntype: note\ntitle: Test Note\ntags: []\n---\n# Overview\n\nSome text.\n\n## Action Items\n\n- Item 1\n",
    )
    .unwrap();
    let headings: Vec<String> = extract_headings(&body).into_iter().map(|(_, h)| h).collect();
    assert!(headings.iter().any(|h| h.contains("# Overview")));
    assert!(headings.iter().any(|h| h.contains("## Action Items")));
    let new_body = insert_after_heading(&body, "## Action Items", "Item 2 (added by agent)").unwrap();
    assert!(new_body.contains("Item 2 (added by agent)"));
}

#[test]
fn test_doctor_validate_with_errors() {
    let mut vault = Vault::new();
    vault.write_file("---\nid: task-bad\ntype: task\n---\nBad task.\n");
    assert!(vault.doctor_validate().contains("validation error"));
}

#[test]
fn test_query_no_results() {
    let vault = Vault::new();
    let out = vault.query(r#"type = "nonexistent""#, None).unwrap();
    assert!(out.contains("Found 0 results"));
}

#[test]
fn test_query_with_status_and_due() {
    let mut vault = Vault::new();
    vault.create("task", "Due task", "task-due", None, &["due=2026-04-10"]);
    let out = vault.query(r#"type = "task""#, None).unwrap();
    assert!(out.contains("status: open"));
    assert!(out.contains("due: 2026-04-10"));
}

#[test]
fn test_note_replace_block() {
    let (_, body) = read_file(
        "---\nid: note-block\ntype: note\ntitle: Block test\ntags: []\n---\n# Content\n\n<!-- block:id=summary -->\nOld summary.\n<!-- /block:id=summary -->\n\nMore text.\n",
    )
    .unwrap();
    let new_body = replace_block(&body, "summary", "New summary content.").unwrap();
    assert!(new_body.contains("New summary content."));
    assert!(!new_body.contains("Old summary."));
}

#[test]
fn test_note_read_lines() {
    let (_, body) = read_file(
        "---\nid: note-lines\ntype: note\ntitle: Lines test\ntags: []\n---\nLine one.\nLine two.\nLine three.\nLine four.\n",
    )
    .unwrap();
    let lines: Vec<String> = read_lines(&body, 2, 3).into_iter().map(|(n, l)| format!("{n:4}: {l}")).collect();
    let out = lines.join("\n");
    assert!(out.contains("Line two."));
    assert!(out.contains("Line three."));
}

#[test]
fn test_note_insert_after_heading_not_found() {
    let (_, body) =
        read_file("---\nid: note-nohead\ntype: note\ntitle: No Head\ntags: []\n---\nSome text.\n").unwrap();
    assert!(insert_after_heading(&body, "## Missing", "stuff").is_err());
}

#[test]
fn test_note_replace_block_not_found() {
    let (_, body) =
        read_file("---\nid: note-noblock\ntype: note\ntitle: No Block\ntags: []\n---\nSome text.\n").unwrap();
    assert!(replace_block(&body, "missing", "stuff").is_err());
}

#[test]
fn test_meta_distinct_no_filter() {
    let mut vault = Vault::new();
    vault.create("task", "T1", "task-nf1", None, &[]);
    assert!(vault.distinct("status", None).contains("open"));
}

#[test]
fn test_meta_count_by_no_filter() {
    let mut vault = Vault::new();
    vault.create("task", "T1", "task-cb1", None, &[]);
    assert!(vault.count("status", None).contains("open: 1"));
}

#[test]
fn test_note_replace_block_missing_close_tag() {
    let (_, body) = read_file(
        "---\nid: note-noclose\ntype: note\ntitle: No Close\ntags: []\n---\n<!-- block:id=test -->\nContent here.\n",
    )
    .unwrap();
    assert!(replace_block(&body, "test", "new content").is_err());
}

#[test]
fn test_meta_count_by_array_field() {
    let mut vault = Vault::new();
    vault.create("task", "T1", "task-cba1", Some("alpha,beta"), &[]);
    vault.create("task", "T2", "task-cba2", Some("beta,gamma"), &[]);
    let out = vault.count("tags", Some(r#"type = "task""#));
    assert!(out.contains("beta: 2"));
    assert!(out.contains("alpha: 1"));
    assert!(out.contains("gamma: 1"));
}

#[test]
fn test_query_sort_single_field_asc() {
    let mut vault = Vault::new();
    vault.create("task", "Task A", "task-sa1", None, &["due=2026-04-10"]);
    vault.create("task", "Task B", "task-sa2", None, &["due=2026-04-05"]);
    let out = vault.query(r#"type = "task""#, Some("due")).unwrap();
    assert!(pos(&out, "Task B") < pos(&out, "Task A"));
}

#[test]
fn test_query_sort_single_field_desc() {
    let mut vault = Vault::new();
    vault.create("task", "Task A", "task-sd1", None, &["due=2026-04-10"]);
    vault.create("task", "Task B", "task-sd2", None, &["due=2026-04-05"]);
    let out = vault.query(r#"type = "task""#, Some("due:desc")).unwrap();
    assert!(pos(&out, "Task A") < pos(&out, "Task B"));
}

#[test]
fn test_query_sort_multi_field() {
    let mut vault = Vault::new();
    vault.create("task", "Task 1", "task-sm1", None, &["status=open", "priority=1"]);
    vault.create("task", "Task 2", "task-sm2", None, &["status=open", "priority=2"]);
    vault.create("task", "Task 3", "task-sm3", None, &["status=done", "priority=1"]);
    let out = vault.query(r#"type = "task""#, Some("status:asc,priority:desc")).unwrap();
    assert!(pos(&out, "Task 3") < pos(&out, "Task 2"), "Task 3 (done) should appear before Task 2 (open)");
    assert!(pos(&out, "Task 2") < pos(&out, "Task 1"), "Task 2 (priority 2) should appear before Task 1 (priority 1)");
}

#[test]
fn test_query_sort_nulls_to_end() {
    let mut vault = Vault::new();
    vault.create("task", "No Due", "task-sn1", None, &[]);
    vault.create("task", "Has Due", "task-sn2", None, &["due=2026-04-05"]);
    let out = vault.query(r#"type = "task""#, Some("due")).unwrap();
    assert!(pos(&out, "Has Due") < pos(&out, "No Due"));
    let out_desc = vault.query(r#"type = "task""#, Some("due:desc")).unwrap();
    assert!(pos(&out_desc, "Has Due") < pos(&out_desc, "No Due"));
}

#[test]
fn test_query_sort_empty_field_rejected() {
    let mut vault = Vault::new();
    vault.create("task", "Test", "task-sf1", None, &[]);
    let e = vault.query("type = \"task\"", Some("")).unwrap_err();
    assert!(e.to_string().contains("empty sort specification"));
    let e = vault.query("type = \"task\"", Some(":asc")).unwrap_err();
    assert!(e.to_string().contains("empty field name"));
}

#[test]
fn test_query_sort_number_values() {
    let mut vault = Vault::new();
    vault.create("task", "Priority 2", "task-p2", None, &["priority=2"]);
    vault.create("task", "Priority 1", "task-p1", None, &["priority=1"]);
    vault.create("task", "Priority 3", "task-p3", None, &["priority=3"]);
    let out = vault.query(r#"type = "task""#, Some("priority")).unwrap();
    assert!(pos(&out, "Priority 1") < pos(&out, "Priority 2"));
    assert!(pos(&out, "Priority 2") < pos(&out, "Priority 3"));
    let out_desc = vault.query(r#"type = "task""#, Some("priority:desc")).unwrap();
    assert!(pos(&out_desc, "Priority 3") < pos(&out_desc, "Priority 2"));
    assert!(pos(&out_desc, "Priority 2") < pos(&out_desc, "Priority 1"));
}

#[test]
fn test_query_sort_multiple_nulls() {
    let mut vault = Vault::new();
    vault.create("task", "Null 1", "task-n1", None, &[]);
    vault.create("task", "Null 2", "task-n2", None, &[]);
    vault.create("task", "Has Value", "task-hv", None, &["due=2026-04-05"]);
    let out = vault.query(r#"type = "task""#, Some("due")).unwrap();
    assert!(pos(&out, "Has Value") < pos(&out, "Null 1"));
    assert!(pos(&out, "Has Value") < pos(&out, "Null 2"));
}

#[test]
fn test_query_sort_string_values() {
    let mut vault = Vault::new();
    vault.create("task", "Charlie", "task-charlie", None, &["status=open"]);
    vault.create("task", "Alice", "task-alice", None, &["status=open"]);
    vault.create("task", "Bob", "task-bob", None, &["status=open"]);
    let out = vault.query(r#"type = "task""#, Some("title")).unwrap();
    assert!(pos(&out, "Alice") < pos(&out, "Bob"));
    assert!(pos(&out, "Bob") < pos(&out, "Charlie"));
    let out_desc = vault.query(r#"type = "task""#, Some("title:desc")).unwrap();
    assert!(pos(&out_desc, "Charlie") < pos(&out_desc, "Bob"));
    assert!(pos(&out_desc, "Bob") < pos(&out_desc, "Alice"));
}

#[test]
fn test_schema_types_text() {
    let vault = Vault::new();
    let names = sorted_type_names(&vault.registry);
    let mut out = format!("Types ({}):\n\n", names.len());
    for name in &names {
        out.push_str(&format!("  {name}  (folder: {})\n", vault.registry.get(name).unwrap().folder));
    }
    assert!(out.contains("Types ("));
    assert!(out.contains("task"));
    assert!(out.contains("project"));
    assert!(out.contains("folder:"));
}

#[test]
fn test_schema_show_text() {
    let vault = Vault::new();
    let def = vault.registry.get("task").unwrap();
    assert_eq!(def.name, "task");
    assert!(def.fields.contains_key("status"));
    assert!(field_type_str(&def.fields.get("status").unwrap().field_type).starts_with("enum["));
}

#[test]
fn test_schema_show_unknown_type() {
    let vault = Vault::new();
    let e = type_for(&vault.registry, "nonexistent").unwrap_err();
    assert!(e.to_string().contains("unknown type 'nonexistent'"));
}

#[test]
fn test_schema_types_custom_vault() {
    let custom_types = r#"types:
  recipe:
    folder: "6_Recipes"
    required: [id, type, title]
    fields:
      id:    { type: string }
      type:  { const: recipe }
      title: { type: string }
"#;
    let names = sorted_type_names(&registry_of(custom_types));
    assert_eq!(names, vec!["recipe"]);
}
