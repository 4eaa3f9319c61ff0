use tianxuan::services::panel_tabs::{OpenPlan, PanelTabManager};
use tianxuan::services::registry::Registry;
use tianxuan::services::sftp_client::{file_entry, sort_entries, FileEntry};
use tianxuan::services::terminal::SessionManager;

#[test]
fn tabs_open_switch_close() {
    let mut m: PanelTabManager<u32> = PanelTabManager::new();
    let a = PanelTabManager::<u32>::tab_label("a");
    assert_eq!(a, "panel-tab-a");
    assert!(!m.activate(&a));
    assert_eq!(m.insert_active(a.clone(), 1), None);
    assert_eq!(m.insert_active("panel-tab-b".to_string(), 2), None);
    assert_eq!(m.active_label(), Some("panel-tab-b".to_string()));
    assert_eq!(m.open_labels(), vec!["panel-tab-a".to_string(), "panel-tab-b".to_string()]);
    assert_eq!(m.switch(&a), vec![true, false]);
    assert_eq!(m.active_label(), Some(a.clone()));
    assert_eq!(m.switch("missing"), vec![false, false]);
    assert_eq!(m.active_label(), Some(a.clone()));
    assert_eq!(m.close(&a), Some(1));
    assert_eq!(m.active_label(), None);
    assert_eq!(m.close(&a), None);
    assert_eq!(m.get("panel-tab-b"), Some(&2));
    assert!(m.activate("panel-tab-b"));
    assert_eq!(m.len(), 1);
}

#[test]
fn open_plans_and_last_event_per_label() {
    let mut m: PanelTabManager<u32> = PanelTabManager::new();
    assert!(matches!(m.plan_open("panel-tab-a"), OpenPlan::Create { hide: None }));
    m.insert_active("panel-tab-a".to_string(), 1);
    assert!(matches!(m.plan_open("panel-tab-a"), OpenPlan::Existing));
    assert!(matches!(
        m.plan_open("panel-tab-b"),
        OpenPlan::Create { hide: Some(ref h) } if h == "panel-tab-a"
    ));
    m.insert_active("panel-tab-b".to_string(), 2);
    m.close("panel-tab-a");
    m.insert_active("panel-tab-b".to_string(), 3);
    m.insert_active("panel-tab-a".to_string(), 4);
    m.close("panel-tab-c");
    let labels = m.open_labels();
    assert_eq!(labels, vec!["panel-tab-b".to_string(), "panel-tab-a".to_string()]);
    assert_eq!(m.get("panel-tab-b"), Some(&3));
    assert_eq!(m.get("panel-tab-a"), Some(&4));
    assert_eq!(m.get("panel-tab-c"), None);
}

#[test]
fn registry_replaces_and_removes() {
    let mut r: Registry<i32> = Registry::new();
    assert_eq!(r.insert("x".to_string(), 1), None);
    assert_eq!(r.insert("y".to_string(), 2), None);
    assert_eq!(r.insert("x".to_string(), 3), Some(1));
    assert_eq!(r.keys(), vec!["x".to_string(), "y".to_string()]);
    assert_eq!(r.get("x"), Some(&3));
    assert_eq!(r.remove("x"), Some(3));
    assert_eq!(r.get("x"), None);
    assert!(r.contains("y"));
    assert_eq!(r.len(), 1);
}

#[test]
fn sessions_lookup() {
    let mut m: SessionManager<u8, u8> = SessionManager::new();
    assert_eq!(m.sender("t1"), Err("session not found".to_string()));
    assert_eq!(m.register("t1".to_string(), 7), None);
    assert_eq!(m.sender("t1"), Ok(&7));
    m.store_connection("h:22", 1);
    assert_eq!(m.remove("t1"), Some(7));
    assert_eq!(m.remove("t1"), None);
}

fn entry(name: &str, is_dir: bool) -> FileEntry {
    file_entry(name.to_string(), format!("/r/{name}"), is_dir, 1, None, None)
}

#[test]
fn listing_order_dirs_first_then_name() {
    let entries = vec![
        entry("b.txt", false),
        entry("Zeta", true),
        entry("a.txt", false),
        entry("alpha", true),
        entry("B.TXT", false),
    ];
    let names: Vec<String> = sort_entries(entries).into_iter().map(|e| e.name).collect();
    assert_eq!(names, vec!["alpha", "Zeta", "a.txt", "b.txt", "B.TXT"]);
}

#[test]
fn file_entry_fields() {
    let e = file_entry("x".to_string(), "/x".to_string(), false, 5, Some(0o644), Some(0));
    assert_eq!(e.permissions, 0o644);
    assert_eq!(e.modified, "1970-01-01 00:00");
    assert_eq!(e.size, 5);
    let f = file_entry("y".to_string(), "/y".to_string(), true, 0, None, None);
    assert_eq!(f.permissions, 0);
    assert_eq!(f.modified, "");
}
