use allayindexer::cache::{CacheEntry, CacheMap, DataCache};
use allayindexer::github::api::GitHubClient;
use allayindexer::github::types::{GitTree, GitTreeEntry, Owner, Repository, RepositoryLicense};
use allayindexer::github::urlencode::urlencoded;

fn repository() -> Repository {
    Repository {
        id: 7,
        full_name: "o/r".to_string(),
        name: "r".to_string(),
        description: Some("d".to_string()),
        html_url: "https://github.com/o/r".to_string(),
        stargazers_count: 5,
        forks_count: 1,
        created_at: "2020-01-01T00:00:00Z".to_string(),
        updated_at: "2021-01-01T00:00:00Z".to_string(),
        pushed_at: "2022-01-01T00:00:00Z".to_string(),
        owner: Owner { login: "o".to_string(), avatar_url: "a".to_string(), html_url: "h".to_string() },
        license: Some(RepositoryLicense {
            key: "mit".to_string(),
            name: "MIT License".to_string(),
            spdx_id: "MIT".to_string(),
            url: None,
            html_url: Some("https://x".to_string()),
        }),
        topics: vec!["nukkit".to_string(), "economy".to_string()],
        is_template: false,
        fork: true,
        archived: false,
        default_branch: Some("dev".to_string()),
        contributors_url: "c".to_string(),
    }
}

#[test]
fn export_keeps_cached_entries() {
    let mut repos: CacheMap<Repository> = CacheMap::new();
    repos.insert("o/r".to_string(), CacheEntry { data: repository(), etag: Some("\"e1\"".to_string()) });
    let mut trees: CacheMap<GitTree> = CacheMap::new();
    let tree = GitTree {
        sha: "s".to_string(),
        tree: vec![GitTreeEntry {
            path: "plugin.yml".to_string(),
            entry_type: "blob".to_string(),
            sha: "t".to_string(),
            size: Some(3),
        }],
        truncated: false,
    };
    trees.insert("o/r/main".to_string(), CacheEntry { data: tree, etag: None });
    let c = GitHubClient::new_with_cache(None, DataCache { repositories: repos, trees });
    let d = c.export_data_cache();
    let r = d.repositories.get("o/r").unwrap();
    assert_eq!(r.etag, Some("\"e1\"".to_string()));
    assert_eq!(r.data.topics, vec!["nukkit".to_string(), "economy".to_string()]);
    assert_eq!(r.data.license.as_ref().unwrap().spdx_id, "MIT");
    assert_eq!(r.data.default_branch, Some("dev".to_string()));
    assert_eq!(r.data.id, 7);
    assert!(r.data.fork);
    let t = d.trees.get("o/r/main").unwrap();
    assert_eq!(t.etag, None);
    assert_eq!(t.data.sha, "s");
    assert_eq!(t.data.tree[0].path, "plugin.yml");
    assert_eq!(t.data.tree[0].size, Some(3));
}

#[test]
fn fresh_client_has_unknown_limit() {
    let c = GitHubClient::new(Some("t".to_string()));
    assert_eq!(c.rate_limit.limit(), 0);
    assert_eq!(c.rate_limit.remaining(), usize::MAX);
    assert_eq!(c.api_calls(), 0);
    assert_eq!(c.cache_hits(), 0);
}

fn percent_decode(s: &str) -> Vec<u8> {
    let b = s.as_bytes();
    let mut out = Vec::new();
    let mut i = 0;
    while i < b.len() {
        if b[i] == b'%' && i + 2 < b.len() {
            let v = u8::from_str_radix(&s[i + 1..i + 3], 16).unwrap();
            out.push(v);
            i += 3;
        } else {
            out.push(b[i]);
            i += 1;
        }
    }
    out
}

#[test]
fn encoded_value_decodes_to_its_bytes() {
    let enc = urlencoded("filename:plugin.yml path:src/a");
    assert_eq!(enc, "filename%3Aplugin.yml%20path%3Asrc%2Fa");
    for text in ["filename:plugin.yml path:src/a", "é€😀 x", "a-b_c.d~e", ""] {
        let enc = urlencoded(text);
        assert!(enc.chars().all(|c| c.is_ascii_alphanumeric() || "-_.~%".contains(c)));
        assert_eq!(percent_decode(&enc), text.as_bytes());
    }
}
