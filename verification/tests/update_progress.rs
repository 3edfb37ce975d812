use allayindexer::plugin::{License, Plugin};
use allayindexer::util::{plugins_to_update, progress_after_update};

fn entry(id: &str) -> Plugin {
    Plugin {
        id: id.to_string(),
        name: String::new(),
        source: String::new(),
        summary: String::new(),
        description: String::new(),
        authors: vec![],
        categories: vec![],
        license: License::default(),
        links: None,
        downloads: 0,
        stars: 0,
        created_at: 0,
        updated_at: 0,
        icon_url: String::new(),
        gallery: vec![],
        versions: vec![],
        api_version: String::new(),
        server_version: String::new(),
        dependencies: vec![],
        preserved_fields: vec![],
    }
}

fn ids(ps: &[Plugin]) -> Vec<String> {
    ps.iter().map(|p| p.id.clone()).collect()
}

#[test]
fn pending_skips_processed_ids_in_order() {
    let all = vec![entry("a/x"), entry("b/y"), entry("c/z")];
    let processed = vec!["b/y".to_string()];
    let left = plugins_to_update(all, &processed, false);
    assert_eq!(ids(&left), vec!["a/x".to_string(), "c/z".to_string()]);
}

#[test]
fn forced_update_visits_every_entry() {
    let all = vec![entry("a/x"), entry("b/y")];
    let processed = vec!["a/x".to_string(), "b/y".to_string()];
    let left = plugins_to_update(all, &processed, true);
    assert_eq!(ids(&left), vec!["a/x".to_string(), "b/y".to_string()]);
}

#[test]
fn all_processed_leaves_nothing() {
    let all = vec![entry("a/x")];
    let processed = vec!["a/x".to_string()];
    assert!(plugins_to_update(all, &processed, false).is_empty());
}

#[test]
fn progress_kept_only_when_stopped() {
    let before = vec!["a/x".to_string()];
    let now = vec!["b/y".to_string()];
    assert_eq!(
        progress_after_update(before.clone(), now.clone(), true),
        Some(vec!["a/x".to_string(), "b/y".to_string()])
    );
    assert_eq!(progress_after_update(before, now, false), None);
}

#[test]
fn progress_keeps_each_id_once() {
    let before = vec!["a/x".to_string(), "b/y".to_string()];
    let now = vec!["b/y".to_string(), "c/z".to_string(), "c/z".to_string()];
    assert_eq!(
        progress_after_update(before, now, true),
        Some(vec!["a/x".to_string(), "b/y".to_string(), "c/z".to_string()])
    );
}
