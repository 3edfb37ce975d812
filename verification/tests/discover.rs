use allayindexer::github::types::{
    CodeSearchItem, CodeSearchRepository, GitTreeEntry, Owner, Repository,
};
use allayindexer::plugin::{License, Plugin};
use allayindexer::sync::discover::{
    add_code_items, add_topic_items, add_year_matches, code_query_for_year, collect_discovered,
    find_plugin_yml_in_tree, merge_repo_matches, needs_sharding, next_search_page,
    query_pushed_since, should_skip_repo, split_repo_full_name, topic_queries, topic_query_text,
    topic_query_wants_forks, PathChoice, RepoGroups, RepoMatch, CODE_SEARCH_QUERY,
};

fn code_item(repo: &str, path: &str, fork: bool) -> CodeSearchItem {
    CodeSearchItem {
        name: "plugin.yml".to_string(),
        path: path.to_string(),
        repository: CodeSearchRepository { id: 1, full_name: repo.to_string(), fork },
    }
}

fn repository(name: &str, fork: bool) -> Repository {
    Repository {
        id: 1,
        full_name: name.to_string(),
        name: name.to_string(),
        description: None,
        html_url: String::new(),
        stargazers_count: 0,
        forks_count: 0,
        created_at: String::new(),
        updated_at: String::new(),
        pushed_at: String::new(),
        owner: Owner { login: String::new(), avatar_url: String::new(), html_url: String::new() },
        license: None,
        topics: vec![],
        is_template: false,
        fork,
        archived: false,
        default_branch: None,
        contributors_url: String::new(),
    }
}

fn m(name: &str, path: Option<&str>) -> RepoMatch {
    RepoMatch { full_name: name.to_string(), plugin_yml_path: path.map(|p| p.to_string()) }
}

fn plugin(id: &str) -> Plugin {
    Plugin {
        id: id.to_string(),
        name: id.to_string(),
        source: String::new(),
        summary: String::new(),
        description: String::new(),
        authors: vec![],
        categories: vec![],
        license: License::default(),
        links: None,
        downloads: 0,
        stars: 0,
        created_at: 0,
        updated_at: 0,
        icon_url: String::new(),
        gallery: vec![],
        versions: vec![],
        api_version: String::new(),
        server_version: String::new(),
        dependencies: vec![],
        preserved_fields: vec![],
    }
}

#[test]
fn code_items_grouped_by_repository() {
    let mut g = RepoGroups::new();
    let existing = vec!["known/repo".to_string()];
    let items = vec![
        code_item("a/x", "docs/readme.yml", false),
        code_item("a/x", "src/main/resources/plugin.yml", false),
        code_item("b/y", "src/main/resources/plugin.yml", true),
        code_item("known/repo", "plugin.yml", false),
        code_item("c/z", "other.yml", false),
    ];
    add_code_items(&mut g, &items, &existing);
    let matches = g.to_matches(PathChoice::PluginYml);
    assert_eq!(matches.len(), 2);
    assert_eq!(matches[0].full_name, "a/x");
    assert_eq!(matches[0].plugin_yml_path, Some("src/main/resources/plugin.yml".to_string()));
    assert_eq!(matches[1].full_name, "c/z");
    assert_eq!(matches[1].plugin_yml_path, None);
}

#[test]
fn topic_items_respect_fork_flag() {
    let existing: Vec<String> = vec![];
    let items = vec![repository("a/x", true), repository("b/y", false), repository("b/y", false)];
    let mut g = RepoGroups::new();
    add_topic_items(&mut g, &items, &existing, "topic:nukkit-plugin fork:true");
    let names: Vec<String> = g.to_matches(PathChoice::NoPath).into_iter().map(|m| m.full_name).collect();
    assert_eq!(names, vec!["a/x", "b/y"]);
    let mut g = RepoGroups::new();
    add_topic_items(&mut g, &items, &existing, "topic:nukkit-plugin");
    let ms = g.to_matches(PathChoice::NoPath);
    assert_eq!(ms.len(), 1);
    assert_eq!(ms[0].full_name, "b/y");
    assert!(ms[0].plugin_yml_path.is_none());
}

#[test]
fn year_matches_keep_first_path() {
    let mut g = RepoGroups::new();
    add_year_matches(&mut g, &[m("a/x", Some("p1/plugin.yml")), m("b/y", None)]);
    add_year_matches(&mut g, &[m("a/x", Some("p2/plugin.yml")), m("c/z", Some("q/plugin.yml"))]);
    let ms = g.to_matches(PathChoice::First);
    assert_eq!(ms.len(), 2);
    assert_eq!(ms[0].plugin_yml_path, Some("p1/plugin.yml".to_string()));
    assert_eq!(ms[1].full_name, "c/z");
}

#[test]
fn merge_skips_known_repositories() {
    let mut base = vec![m("a/x", Some("p")), m("b/y", None)];
    merge_repo_matches(&mut base, vec![m("b/y", None), m("c/z", None), m("c/z", None)]);
    let names: Vec<&str> = base.iter().map(|m| m.full_name.as_str()).collect();
    assert_eq!(names, vec!["a/x", "b/y", "c/z", "c/z"]);
    assert_eq!(base[0].plugin_yml_path, Some("p".to_string()));
}

#[test]
fn paging_rule() {
    assert_eq!(next_search_page(1, 100), Some(2));
    assert_eq!(next_search_page(1, 99), None);
    assert_eq!(next_search_page(9, 100), Some(10));
    assert_eq!(next_search_page(10, 100), None);
    assert_eq!(next_search_page(3, 0), None);
    assert!(needs_sharding(1001));
    assert!(!needs_sharding(1000));
}

#[test]
fn query_texts() {
    assert_eq!(
        query_pushed_since(CODE_SEARCH_QUERY, "2024-01-01"),
        "filename:plugin.yml path:src/main/resources language:YAML pushed:>2024-01-01"
    );
    assert_eq!(
        code_query_for_year(2015),
        "filename:plugin.yml path:src/main/resources language:YAML pushed:2015-01-01..2015-12-31"
    );
    assert_eq!(topic_query_text("topic:x", Some("2020-02-02")), "topic:x pushed:>2020-02-02");
    assert_eq!(topic_query_text("topic:x", None), "topic:x");
    let qs = topic_queries();
    assert_eq!(qs, vec!["topic:nukkit-plugin fork:true", "topic:nukkit-mot-plugin fork:true"]);
    assert!(topic_query_wants_forks(qs[0]));
    assert!(!topic_query_wants_forks("topic:nukkit-plugin"));
}

#[test]
fn repo_names_and_skips() {
    assert_eq!(split_repo_full_name("a/b"), Some(("a".to_string(), "b".to_string())));
    assert_eq!(split_repo_full_name("a/b/c"), None);
    assert_eq!(split_repo_full_name("ab"), None);
    let mut r = repository("a/b", false);
    assert!(!should_skip_repo(&r));
    r.topics = vec!["noindex".to_string()];
    assert!(should_skip_repo(&r));
    let mut r = repository("a/b", false);
    r.archived = true;
    assert!(should_skip_repo(&r));
    let mut r = repository("a/b", false);
    r.is_template = true;
    assert!(should_skip_repo(&r));
}

#[test]
fn plugin_yml_found_in_tree() {
    let e = |p: &str, t: &str| GitTreeEntry { path: p.to_string(), entry_type: t.to_string(), sha: String::new(), size: None };
    let tree = vec![
        e("plugin.yml", "blob"),
        e("src/main/resources/plugin.yml", "tree"),
        e("mod/src/main/resources/plugin.yml", "blob"),
        e("src/main/resources/plugin.yml", "blob"),
    ];
    assert_eq!(find_plugin_yml_in_tree(&tree), Some("mod/src/main/resources/plugin.yml".to_string()));
    assert_eq!(find_plugin_yml_in_tree(&tree[..2]), None);
}

#[test]
fn discovered_plugins_deduplicated() {
    let results = vec![
        ("a/x".to_string(), Ok(vec![plugin("a/x"), plugin("old/one")])),
        ("b/y".to_string(), Err("boom".to_string())),
        ("c/z".to_string(), Ok(vec![plugin("a/x"), plugin("c/z")])),
    ];
    let existing = vec!["old/one".to_string()];
    let r = collect_discovered(results, &existing);
    let ids: Vec<&str> = r.new_plugins.iter().map(|p| p.id.as_str()).collect();
    assert_eq!(ids, vec!["a/x", "c/z"]);
    assert_eq!(r.errors, vec![("b/y".to_string(), "boom".to_string())]);
}
