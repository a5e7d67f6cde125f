use local_store::db::{Db, SqlSetting};
use local_store::json::settings_json;
use local_store::table::{Change, Table};

fn setting_keys(db: &Db) -> Vec<String> {
    db.get_all_settings().into_iter().map(|s| s.key).collect()
}

#[test]
fn setting_written_is_read_back() {
    let mut db = Db::new();
    db.update_setting("lang", "en");
    assert_eq!(db.get_setting("lang"), Some("en".to_string()));
    assert_eq!(db.get_setting("other"), None);
}

#[test]
fn theme_scenario_overwrites_in_place() {
    let mut db = Db::new();
    db.update_setting("theme", "dark");
    assert_eq!(db.get_setting("theme"), Some("dark".to_string()));
    db.update_setting("theme", "light");
    assert_eq!(db.get_setting("theme"), Some("light".to_string()));
    let all = db.get_all_settings();
    assert_eq!(all.iter().filter(|s| s.key == "theme").count(), 1);
    assert_eq!(all.len(), 1);
    assert_eq!(all[0].value, "light");
}

#[test]
fn second_write_keeps_position_and_one_row() {
    let mut db = Db::new();
    db.update_setting("a", "1");
    db.update_setting("b", "2");
    db.update_setting("a", "3");
    assert_eq!(setting_keys(&db), vec!["a".to_string(), "b".to_string()]);
    assert_eq!(db.get_setting("a"), Some("3".to_string()));
}

#[test]
fn delete_unknown_setting_is_noop() {
    let mut db = Db::new();
    db.update_setting("x", "1");
    assert_eq!(db.get_setting("missing"), None);
    let c = db.delete_setting("missing");
    assert!(matches!(c, Change::Unchanged));
    assert_eq!(db.get_setting("missing"), None);
    assert_eq!(setting_keys(&db), vec!["x".to_string()]);
}

#[test]
fn delete_known_setting_removes_it() {
    let mut db = Db::new();
    db.update_setting("x", "1");
    db.update_setting("y", "2");
    let c = db.delete_setting("x");
    assert!(matches!(c, Change::Delete(ref k) if k == "x"));
    assert_eq!(db.get_setting("x"), None);
    assert_eq!(setting_keys(&db), vec!["y".to_string()]);
}

#[test]
fn upsert_reports_insert_then_update() {
    let mut db = Db::new();
    let first = db.update_setting("k", "v1");
    assert!(matches!(first, Change::Insert(ref k, ref v) if k == "k" && v == "v1"));
    let second = db.update_setting("k", "v2");
    assert!(matches!(second, Change::Update(ref k, ref v) if k == "k" && v == "v2"));
}

#[test]
fn engine_scenario_first_registration_wins() {
    let mut db = Db::new();
    db.add_engine("sf16", "/opt/engines/sf16");
    assert_eq!(db.get_engine_binary_path("sf16"), Some("/opt/engines/sf16".to_string()));
    let c = db.add_engine("sf16", "/other/path");
    assert!(matches!(c, Change::Unchanged));
    assert_eq!(db.get_engine_binary_path("sf16"), Some("/opt/engines/sf16".to_string()));
    assert_eq!(db.get_engine_count(), 1);
}

#[test]
fn distinct_engines_are_counted() {
    let mut db = Db::new();
    assert_eq!(db.get_engine_count(), 0);
    for (i, id) in ["a", "b", "c", "d"].iter().enumerate() {
        let c = db.add_engine(id, "/bin/e");
        assert!(matches!(c, Change::Insert(..)));
        assert_eq!(db.get_engine_count(), i as i64 + 1);
    }
    db.add_engine("b", "/elsewhere");
    assert_eq!(db.get_engine_count(), 4);
    let all = db.get_all_engine_binary_paths();
    let ids: Vec<&str> = all.iter().map(|e| e.engine_id.as_str()).collect();
    assert_eq!(ids, vec!["a", "b", "c", "d"]);
    assert_eq!(all[1].binary_location, "/bin/e");
}

#[test]
fn delete_engine_known_and_unknown() {
    let mut db = Db::new();
    db.add_engine("e1", "/p1");
    assert!(matches!(db.delete_engine("nope"), Change::Unchanged));
    assert_eq!(db.get_engine_count(), 1);
    assert!(matches!(db.delete_engine("e1"), Change::Delete(ref k) if k == "e1"));
    assert_eq!(db.get_engine_count(), 0);
    assert_eq!(db.get_engine_binary_path("e1"), None);
}

#[test]
fn settings_and_engines_are_separate() {
    let mut db = Db::new();
    db.update_setting("id", "setting");
    db.add_engine("id", "/engine");
    assert_eq!(db.get_setting("id"), Some("setting".to_string()));
    assert_eq!(db.get_engine_binary_path("id"), Some("/engine".to_string()));
    db.delete_engine("id");
    assert_eq!(db.get_setting("id"), Some("setting".to_string()));
}

#[test]
fn empty_key_and_value_are_plain_strings() {
    let mut db = Db::new();
    db.update_setting("", "");
    assert_eq!(db.get_setting(""), Some(String::new()));
    assert_eq!(db.get_all_settings().len(), 1);
}

#[test]
fn table_from_rows_rejects_duplicate_keys() {
    let rows = vec![
        ("a".to_string(), "1".to_string()),
        ("b".to_string(), "2".to_string()),
        ("a".to_string(), "3".to_string()),
    ];
    assert!(Table::from_rows(rows).is_none());
}

#[test]
fn table_from_rows_keeps_order() {
    let rows = vec![
        ("b".to_string(), "2".to_string()),
        ("a".to_string(), "1".to_string()),
    ];
    let t = Table::from_rows(rows.clone()).unwrap();
    assert_eq!(t.len(), 2);
    assert_eq!(t.entries(), rows);
    assert_eq!(t.get("a"), Some("1".to_string()));
}

#[test]
fn store_from_loaded_tables() {
    let settings = Table::from_rows(vec![("theme".to_string(), "dark".to_string())]).unwrap();
    let engines = Table::from_rows(vec![("sf".to_string(), "/sf".to_string())]).unwrap();
    let mut db = Db::from_tables(settings, engines);
    assert_eq!(db.get_setting("theme"), Some("dark".to_string()));
    let c = db.add_engine("sf", "/new");
    assert!(matches!(c, Change::Unchanged));
    assert_eq!(db.get_engine_binary_path("sf"), Some("/sf".to_string()));
}

#[test]
fn settings_json_holds_each_setting_as_string() {
    let mut db = Db::new();
    db.update_setting("theme", "dark");
    db.update_setting("lang", "fr");
    let m = settings_json(&db.get_all_settings());
    assert_eq!(m.len(), 2);
    assert_eq!(m.get("theme"), Some(&serde_json::Value::String("dark".to_string())));
    assert_eq!(m.get("lang"), Some(&serde_json::Value::String("fr".to_string())));
}

#[test]
fn settings_json_of_nothing_is_empty() {
    let m = settings_json(&Vec::new());
    assert!(m.is_empty());
}

#[test]
fn settings_json_later_row_replaces_earlier() {
    let rows = vec![
        SqlSetting { key: "k".to_string(), value: "old".to_string() },
        SqlSetting { key: "k".to_string(), value: "new".to_string() },
    ];
    let m = settings_json(&rows);
    assert_eq!(m.len(), 1);
    assert_eq!(m.get("k"), Some(&serde_json::Value::String("new".to_string())));
}
