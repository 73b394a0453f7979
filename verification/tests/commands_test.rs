use cortx::cli::archive::archive_updates;
use cortx::cli::create::{
    create_fields, generated_id, parse_cli_value, parse_cli_value_with, split_key_value, CreateArgs,
};
use cortx::cli::init::{register_new_vault, vault_folders};
use cortx::cli::meta::{apply_filter_with, count_by, distinct_values, field_values};
use cortx::cli::query_cmd::{matching_refs, parse_sort_by, result_details_of, result_line_of, sort_entities};
use cortx::cli::schema::{field_type_str, sorted_field_names, sorted_type_names};
use cortx::cli::show::shown_fields;
use cortx::cli::update::parse_updates_with;
use cortx::entity::Entity;
use cortx::fields::Frontmatter;
use cortx::global_config::GlobalConfig;
use cortx::query::parser::{parse_query_with, DateContext};
use cortx::schema::registry::TypeRegistry;
use cortx::storage::file_lock::{lock_path_for, FileLock};
use cortx::storage::markdown::{apply_updates, entity_file_name, entity_type_of, type_for};
use cortx::value::{Date, Number, Value};
use cortx::yaml::YamlNode;

fn node(v: &serde_yaml::Value) -> YamlNode {
    match v {
        serde_yaml::Value::Null => YamlNode::Null,
        serde_yaml::Value::Bool(b) => YamlNode::Bool(*b),
        serde_yaml::Value::Number(n) => {
            let f = n.as_f64().unwrap_or(0.0);
            YamlNode::Number(Number::from_bits(f.to_bits(), f.to_string()))
        }
        serde_yaml::Value::String(s) => YamlNode::String(s.clone()),
        serde_yaml::Value::Sequence(items) => YamlNode::Sequence(items.iter().map(node).collect()),
        serde_yaml::Value::Mapping(m) => {
            YamlNode::Mapping(m.iter().map(|(k, v)| (node(k), node(v))).collect())
        }
        serde_yaml::Value::Tagged(t) => {
            YamlNode::Tagged(t.tag.to_string(), Box::new(node(&t.value)))
        }
    }
}

fn registry() -> TypeRegistry {
    let yaml = r#"
types:
  task:
    folder: "tasks"
    required: [id, type]
    fields:
      status: { enum: [open, done] }
      project: { type: link, ref: project }
      related: { type: "array[link]", ref: [note, project] }
  note:
    folder: "notes"
    fields:
      title: { type: string }
"#;
    let v: serde_yaml::Value = serde_yaml::from_str(yaml).unwrap();
    TypeRegistry::from_yaml(&node(&v)).unwrap()
}

fn ctx() -> DateContext {
    DateContext::of_day(Date::from_ymd_opt(2026, 4, 5).unwrap())
}

fn s(x: &str) -> Value {
    Value::String(x.into())
}

fn entity(id: &str, status: &str, tags: &[&str]) -> Entity {
    let mut fm = Frontmatter::new();
    fm.insert("id".into(), s(id));
    fm.insert("type".into(), s("task"));
    fm.insert("status".into(), s(status));
    fm.insert("tags".into(), Value::Array(tags.iter().map(|t| s(t)).collect()));
    Entity::new(fm, String::new())
}

#[test]
fn cli_values() {
    let c = ctx();
    assert_eq!(parse_cli_value_with("today", &c), Value::Date(Date::from_ymd_opt(2026, 4, 5).unwrap()));
    assert_eq!(parse_cli_value_with("yesterday", &c), Value::Date(Date::from_ymd_opt(2026, 4, 4).unwrap()));
    assert_eq!(parse_cli_value_with("tomorrow", &c), Value::Date(Date::from_ymd_opt(2026, 4, 6).unwrap()));
    assert_eq!(parse_cli_value_with("2026-01-02", &c), Value::Date(Date::from_ymd_opt(2026, 1, 2).unwrap()));
    assert_eq!(
        parse_cli_value_with(r#"[a, "b" , c]"#, &c),
        Value::Array(vec![s("a"), s("b"), s("c")])
    );
    assert_eq!(parse_cli_value_with("[]", &c), Value::Array(vec![s("")]));
    assert_eq!(parse_cli_value_with("plain", &c), s("plain"));
}

#[test]
fn key_values_split_at_the_first_equals() {
    assert_eq!(split_key_value("a=b=c"), Some(("a".to_string(), "b=c".to_string())));
    assert_eq!(split_key_value("novalue"), None);
}

#[test]
fn new_entities_get_defaults() {
    let reg = registry();
    let args = CreateArgs {
        entity_type: "task".into(),
        id: None,
        title: Some("Buy milk".into()),
        name: None,
        tags: Some("home, urgent".into()),
        fields: vec!["due=tomorrow".into(), "junk".into()],
    };
    let fm = create_fields(&args, "task-1", &reg, &ctx()).unwrap();
    assert_eq!(fm.get("id").unwrap(), &s("task-1"));
    assert_eq!(fm.get("type").unwrap(), &s("task"));
    assert_eq!(fm.get("title").unwrap(), &s("Buy milk"));
    assert_eq!(fm.get("status").unwrap(), &s("open"));
    assert_eq!(fm.get("tags").unwrap(), &Value::Array(vec![s("home"), s("urgent")]));
    assert_eq!(fm.get("due").unwrap(), &Value::Date(Date::from_ymd_opt(2026, 4, 6).unwrap()));
    assert_eq!(fm.get("created_at").unwrap(), &Value::Date(Date::from_ymd_opt(2026, 4, 5).unwrap()));
    assert!(fm.get("junk").is_none());

    let with_status = CreateArgs {
        entity_type: "task".into(),
        id: None,
        title: None,
        name: None,
        tags: None,
        fields: vec!["status=done".into()],
    };
    let fm2 = create_fields(&with_status, "task-2", &reg, &ctx()).unwrap();
    assert_eq!(fm2.get("status").unwrap(), &s("done"));
    assert_eq!(fm2.get("tags").unwrap(), &Value::Array(vec![]));

    let note = CreateArgs {
        entity_type: "note".into(),
        id: None,
        title: None,
        name: None,
        tags: None,
        fields: vec![],
    };
    assert!(create_fields(&note, "n", &reg, &ctx()).unwrap().get("status").is_none());
    assert_eq!(generated_id("task", "20260405", "ab12cd34"), "task-20260405-ab12cd34");
}

#[test]
fn updates_cannot_set_the_title() {
    let c = ctx();
    let ok = parse_updates_with(&vec!["status=done".into(), "due=today".into()], &c).unwrap().unwrap();
    assert_eq!(ok.len(), 2);
    assert_eq!(ok[0].0, "status");
    assert_eq!(ok[1].1, Value::Date(Date::from_ymd_opt(2026, 4, 5).unwrap()));
    let err = parse_updates_with(&vec!["title=New".into()], &c).unwrap().unwrap_err();
    assert_eq!(err.to_string(), "validation error: use 'cortx rename' to change an entity's title");
}

#[test]
fn updates_are_applied_in_order() {
    let mut fm = Frontmatter::new();
    fm.insert("status".into(), s("open"));
    let today = Date::from_ymd_opt(2026, 4, 5).unwrap();
    apply_updates(&mut fm, &archive_updates(), today);
    assert_eq!(fm.get("status").unwrap(), &s("archived"));
    assert_eq!(fm.get("updated_at").unwrap(), &Value::Date(today));
    apply_updates(&mut fm, &vec![("a".to_string(), s("1")), ("a".to_string(), s("2"))], today);
    assert_eq!(fm.get("a").unwrap(), &s("2"));
}

#[test]
fn store_rules() {
    let reg = registry();
    let mut fm = Frontmatter::new();
    assert_eq!(entity_type_of(&fm).unwrap_err().to_string(), "validation error: missing 'type' field");
    fm.insert("type".into(), s("task"));
    assert_eq!(entity_type_of(&fm).unwrap(), "task");
    assert!(type_for(&reg, "task").is_ok());
    assert_eq!(type_for(&reg, "ghost").unwrap_err().to_string(), "schema error: unknown type 'ghost'");
    assert_eq!(entity_file_name("Buy Milk"), "Buy Milk.md");
}

#[test]
fn meta_distinct_and_counts() {
    let es = vec![
        entity("a", "open", &["home", "urgent"]),
        entity("b", "done", &["home"]),
        entity("c", "open", &[]),
    ];
    assert_eq!(field_values(&es, "tags"), vec!["home", "urgent", "home"]);
    assert_eq!(distinct_values(&es, "status"), vec!["done".to_string(), "open".to_string()]);
    assert_eq!(
        count_by(&es, "tags"),
        vec![("home".to_string(), 2), ("urgent".to_string(), 1)]
    );
    assert_eq!(count_by(&es, "status"), vec![("open".to_string(), 2), ("done".to_string(), 1)]);
    let filtered = apply_filter_with(es, Some(r#"status = "open""#), &ctx()).unwrap();
    assert_eq!(filtered.len(), 2);
    let all = vec![entity("x", "open", &[])];
    assert_eq!(apply_filter_with(all, None, &ctx()).unwrap().len(), 1);
    assert!(apply_filter_with(vec![], Some("status ="), &ctx()).is_err());
}

#[test]
fn query_results_are_listed_and_sorted() {
    let es = vec![entity("b", "open", &[]), entity("a", "done", &[]), entity("c", "open", &[])];
    let expr = parse_query_with(r#"status = "open""#, &ctx()).unwrap();
    let mut found = matching_refs(&es, &expr);
    assert_eq!(found.len(), 2);
    let specs = parse_sort_by("id:desc").unwrap();
    sort_entities(&mut found, &specs);
    assert_eq!(found[0].id, "c");
    assert_eq!(result_line_of(found[1]), "- [task] b (b)");
    assert_eq!(result_details_of(found[1]), Some("status: open".to_string()));
}

#[test]
fn show_lists_fields_below_the_header() {
    let mut fm = Frontmatter::new();
    fm.insert("title".into(), s("T"));
    fm.insert("zeta".into(), Value::Bool(true));
    fm.insert("id".into(), s("x"));
    fm.insert("alpha".into(), Value::Array(vec![s("a"), s("b")]));
    assert_eq!(
        shown_fields(&fm),
        vec![("alpha".to_string(), "[a, b]".to_string()), ("zeta".to_string(), "true".to_string())]
    );
}

#[test]
fn schema_listing() {
    let reg = registry();
    assert_eq!(sorted_type_names(&reg), vec!["note".to_string(), "task".to_string()]);
    let td = reg.get("task").unwrap();
    assert_eq!(
        sorted_field_names(td),
        vec!["project".to_string(), "related".to_string(), "status".to_string()]
    );
    assert_eq!(field_type_str(&td.fields.get("status").unwrap().field_type), "enum[open,done]");
    assert_eq!(field_type_str(&td.fields.get("project").unwrap().field_type), "link:project");
    assert_eq!(
        field_type_str(&td.fields.get("related").unwrap().field_type),
        "array[link]:note|project"
    );
}

#[test]
fn init_registers_the_first_vault_as_default() {
    assert_eq!(vault_folders().len(), 9);
    let mut g = GlobalConfig::default();
    assert_eq!(register_new_vault(&mut g, "main", "/v/main".into()).unwrap(), true);
    assert_eq!(g.default, Some("main".to_string()));
    assert_eq!(register_new_vault(&mut g, "second", "/v/2".into()).unwrap(), false);
    assert_eq!(g.default, Some("main".to_string()));
    assert!(register_new_vault(&mut g, "main", "/elsewhere".into()).is_err());
}

#[test]
fn locks_are_released_once() {
    assert_eq!(lock_path_for("/v/tasks/a.md"), "/v/tasks/a.md.lock");
    let mut lock = FileLock::new("/v/tasks/a.md");
    assert_eq!(lock.path(), "/v/tasks/a.md.lock");
    assert_eq!(lock.release(), Some("/v/tasks/a.md.lock".to_string()));
    assert_eq!(lock.release(), None);
}

#[test]
fn parse_cli_value_reads_dates_arrays_and_text() {
    assert_eq!(
        parse_cli_value("2026-04-10"),
        Some(Value::Date(Date::from_ymd_opt(2026, 4, 10).unwrap()))
    );
    assert_eq!(
        parse_cli_value("[a, \"b\"]"),
        Some(Value::Array(vec![Value::String("a".into()), Value::String("b".into())]))
    );
    assert_eq!(parse_cli_value("plain"), Some(Value::String("plain".into())));
    assert!(matches!(parse_cli_value("today"), Some(Value::Date(_))));
}

#[test]
fn count_by_keeps_first_appearance_order_on_ties() {
    let es = vec![entity("a", "open", &["zeta", "alpha"]), entity("b", "open", &["alpha", "zeta", "mid"])];
    assert_eq!(
        count_by(&es, "tags"),
        vec![("zeta".to_string(), 2), ("alpha".to_string(), 2), ("mid".to_string(), 1)]
    );
}

#[test]
fn sort_keeps_entities_the_specs_do_not_tell_apart_in_order() {
    let es = vec![entity("b", "open", &[]), entity("a", "done", &[]), entity("c", "open", &[])];
    let mut refs: Vec<&Entity> = es.iter().collect();
    let specs = parse_sort_by("status:desc").unwrap();
    sort_entities(&mut refs, &specs);
    let ids: Vec<&str> = refs.iter().map(|e| e.id.as_str()).collect();
    assert_eq!(ids, vec!["b", "c", "a"]);
}

#[test]
fn null_values_sort_last_in_both_directions() {
    let mut with_null = Frontmatter::new();
    with_null.insert("id".into(), s("n"));
    with_null.insert("due".into(), Value::Null);
    let mut dated = Frontmatter::new();
    dated.insert("id".into(), s("d"));
    dated.insert("due".into(), Value::Date(Date::from_ymd_opt(2026, 4, 5).unwrap()));
    let es = vec![Entity::new(with_null, String::new()), Entity::new(dated, String::new())];
    for spec in ["due", "due:desc"] {
        let mut refs: Vec<&Entity> = es.iter().collect();
        sort_entities(&mut refs, &parse_sort_by(spec).unwrap());
        let ids: Vec<&str> = refs.iter().map(|e| e.id.as_str()).collect();
        assert_eq!(ids, vec!["d", "n"], "{spec}");
    }
}

#[test]
fn joined_sort_specs_concatenate() {
    let a = parse_sort_by("priority:asc").unwrap();
    let b = parse_sort_by("\"Due By\":desc").unwrap();
    let ab = parse_sort_by("priority:asc,\"Due By\":desc").unwrap();
    assert_eq!(ab.len(), a.len() + b.len());
    assert_eq!((ab[0].field.as_str(), ab[0].descending), (a[0].field.as_str(), a[0].descending));
    assert_eq!((ab[1].field.as_str(), ab[1].descending), (b[0].field.as_str(), b[0].descending));
}
