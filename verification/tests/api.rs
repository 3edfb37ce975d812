use allayindexer::cache::{CacheEntry, CacheMap, DataCache};
use allayindexer::github::api::{
    batch_chunk_count, chunk_bounds, contents_at_ref_url, contributors_url_given,
    directory_names, file_from_outcome, finish_batch, latest_release_url, next_request_step,
    pause_after_chunk, rate_limited_message, readme_from_outcome, readme_url, releases_url,
    repository_cache_key, repository_url, request_headers, resolve_cached_fetch,
    search_code_url, search_repositories_url, tree_cache_key, tree_url, AuthMethod, BodyKind,
    FetchOutcome, GitHubClient, HttpOutcome, RateLimit, RawOutcome, RequestStep, TokenAction,
};
use allayindexer::github::auth::{
    installation_token_url, jwt_claims, plan_auth, AuthPlan, GitHubAppAuth,
};
use allayindexer::github::types::{ContentItem, GitTree};
use allayindexer::github::urlencode::{parse_usize, urlencoded};

#[test]
fn urlencoded_query() {
    assert_eq!(
        urlencoded("filename:plugin.yml path:src/main/resources"),
        "filename%3Aplugin.yml%20path%3Asrc%2Fmain%2Fresources"
    );
    assert_eq!(urlencoded("a-b_c.d~e"), "a-b_c.d~e");
    assert_eq!(urlencoded(">2024"), "%3E2024");
    assert_eq!(urlencoded("é"), "%C3%A9");
    assert_eq!(urlencoded("€"), "%E2%82%AC");
    assert_eq!(urlencoded("😀"), "%F0%9F%98%80");
    assert_eq!(urlencoded(""), "");
}

#[test]
fn usize_parsing() {
    assert_eq!(parse_usize("4999"), Some(4999));
    assert_eq!(parse_usize("+7"), Some(7));
    assert_eq!(parse_usize("0"), Some(0));
    assert_eq!(parse_usize(""), None);
    assert_eq!(parse_usize("+"), None);
    assert_eq!(parse_usize("-1"), None);
    assert_eq!(parse_usize(" 1"), None);
    assert_eq!(parse_usize("12a"), None);
    assert_eq!(parse_usize("18446744073709551615"), Some(usize::MAX));
    assert_eq!(parse_usize("18446744073709551616"), None);
    assert_eq!(parse_usize("99999999999999999999999"), None);
    for s in ["1", "42", "+0", "x", "", "007"] {
        assert_eq!(parse_usize(s), s.parse::<usize>().ok());
    }
}

#[test]
fn endpoint_urls() {
    assert_eq!(repository_url("o", "r"), "https://api.github.com/repos/o/r");
    assert_eq!(latest_release_url("o", "r"), "https://api.github.com/repos/o/r/releases/latest");
    assert_eq!(releases_url("o", "r"), "https://api.github.com/repos/o/r/releases?per_page=30");
    assert_eq!(readme_url("o", "r"), "https://api.github.com/repos/o/r/readme");
    assert_eq!(
        contents_at_ref_url("o", "r", "plugin.yml", "v1 beta"),
        "https://api.github.com/repos/o/r/contents/plugin.yml?ref=v1%20beta"
    );
    assert_eq!(tree_url("o", "r", "main"), "https://api.github.com/repos/o/r/git/trees/main?recursive=1");
    assert_eq!(
        search_code_url("a:b", 3),
        "https://api.github.com/search/code?q=a%3Ab&per_page=100&page=3"
    );
    assert_eq!(
        search_repositories_url("topic:x fork:true", 10),
        "https://api.github.com/search/repositories?q=topic%3Ax%20fork%3Atrue&per_page=100&page=10"
    );
    assert_eq!(repository_cache_key("o", "r"), "o/r");
    assert_eq!(tree_cache_key("o", "r", "main"), "o/r/main");
    assert_eq!(installation_token_url("77"), "https://api.github.com/app/installations/77/access_tokens");
}

#[test]
fn rate_limit_from_headers() {
    let mut c = GitHubClient::new(Some("t".to_string()));
    assert_eq!(c.rate_limit.remaining(), usize::MAX);
    assert!(c.rate_limit.has_remaining());
    c.update_rate_limit_from_headers(Some("5"), Some("5000"), Some("17"));
    assert_eq!(c.rate_limit.remaining(), 5);
    assert_eq!(c.rate_limit.limit(), 5000);
    assert!(!c.rate_limit.has_remaining());
    c.update_rate_limit_from_headers(Some("six"), None, Some("18"));
    assert_eq!(c.rate_limit.remaining(), 5);
    assert_eq!(c.rate_limit.limit(), 5000);
    assert_eq!(c.rate_limit.reset, 18);
    c.update_rate_limit_from_headers(Some("6"), None, None);
    assert!(c.rate_limit.has_remaining());
    let fresh = RateLimit::new();
    assert_eq!(fresh.limit(), 0);
}

#[test]
fn counters() {
    let mut c = GitHubClient::new(None);
    assert_eq!(c.api_calls(), 0);
    c.record_api_call();
    c.record_api_call();
    assert_eq!(c.api_calls(), 2);
    assert_eq!(
        c.request_step(BodyKind::Json, 0, HttpOutcome::Response(304)),
        RequestStep::NotModified
    );
    assert_eq!(c.cache_hits(), 1);
    assert_eq!(c.request_step(BodyKind::Json, 0, HttpOutcome::Response(200)), RequestStep::ReadBody);
    assert_eq!(c.cache_hits(), 1);
}

#[test]
fn retry_rule() {
    assert_eq!(next_request_step(BodyKind::Json, 0, HttpOutcome::Status(403)), RequestStep::Retry(30));
    assert_eq!(next_request_step(BodyKind::Json, 1, HttpOutcome::Status(429)), RequestStep::Retry(60));
    assert_eq!(next_request_step(BodyKind::Raw, 2, HttpOutcome::Status(403)), RequestStep::RateLimited(3));
    assert_eq!(next_request_step(BodyKind::Json, 0, HttpOutcome::Status(304)), RequestStep::NotModified);
    assert_eq!(next_request_step(BodyKind::Raw, 0, HttpOutcome::Status(304)), RequestStep::HttpError);
    assert_eq!(next_request_step(BodyKind::Raw, 0, HttpOutcome::Status(404)), RequestStep::NotFound);
    assert_eq!(next_request_step(BodyKind::Json, 0, HttpOutcome::Status(404)), RequestStep::HttpError);
    assert_eq!(next_request_step(BodyKind::Raw, 0, HttpOutcome::Response(304)), RequestStep::ReadBody);
    assert_eq!(next_request_step(BodyKind::Json, 1, HttpOutcome::Transport), RequestStep::HttpError);
    assert_eq!(rate_limited_message(3), "Rate limited after 3 attempts");
}

#[test]
fn headers_of_requests() {
    let h = request_headers(BodyKind::Json, Some("tok"), Some("\"abc\""));
    let h: Vec<(&str, &str)> = h.iter().map(|(a, b)| (a.as_str(), b.as_str())).collect();
    assert_eq!(
        h,
        vec![
            ("Accept", "application/vnd.github+json"),
            ("User-Agent", "AllayIndexer/0.2.0 (+https://github.com/AllayMC/AllayHub)"),
            ("X-GitHub-Api-Version", "2022-11-28"),
            ("Authorization", "Bearer tok"),
            ("If-None-Match", "\"abc\""),
        ]
    );
    let h = request_headers(BodyKind::Raw, None, None);
    assert_eq!(h.len(), 3);
    assert_eq!(h[0].1, "application/vnd.github.raw+json");
}

fn app() -> GitHubAppAuth {
    GitHubAppAuth { app_id: "1".to_string(), installation_id: "2".to_string(), private_key: "k".to_string() }
}

#[test]
fn token_reuse_and_refresh() {
    let mut c = GitHubClient::with_app(app());
    assert!(matches!(c.token_action(100), TokenAction::Refresh(_)));
    c.store_token("inst".to_string(), 100);
    match c.token_action(100 + 3299) {
        TokenAction::Use(Some(t)) => assert_eq!(t, "inst"),
        _ => panic!("token not reused"),
    }
    assert!(matches!(c.token_action(100 + 3300), TokenAction::Refresh(_)));
    assert!(matches!(c.token_action(50), TokenAction::Refresh(_)));
    let p = GitHubClient::new(Some("pat".to_string()));
    match p.token_action(0) {
        TokenAction::Use(Some(t)) => assert_eq!(t, "pat"),
        _ => panic!("personal token not used"),
    }
    let n = GitHubClient::new(None);
    assert!(matches!(n.auth, AuthMethod::Anonymous));
    assert!(matches!(n.token_action(0), TokenAction::Use(None)));
}

fn tree(sha: &str) -> GitTree {
    GitTree { sha: sha.to_string(), tree: vec![], truncated: false }
}

#[test]
fn cached_fetch_resolution() {
    let cached = || Some(CacheEntry { data: tree("one"), etag: Some("e1".to_string()) });
    let r = resolve_cached_fetch(cached(), FetchOutcome::Fetched(tree("two"), Some("e2".to_string())));
    assert_eq!(r.result.unwrap().sha, "two");
    let stored = r.store.unwrap();
    assert_eq!(stored.etag, Some("e2".to_string()));
    assert_eq!(stored.data.sha, "two");
    let r = resolve_cached_fetch(cached(), FetchOutcome::NotModified);
    assert_eq!(r.result.unwrap().sha, "one");
    assert!(r.store.is_none());
    let r = resolve_cached_fetch(cached(), FetchOutcome::Failed("down".to_string()));
    assert_eq!(r.result.unwrap().sha, "one");
    let r = resolve_cached_fetch(None::<CacheEntry<GitTree>>, FetchOutcome::Failed("down".to_string()));
    assert_eq!(r.result.unwrap_err(), "down".to_string());
}

#[test]
fn cache_read_after_write() {
    let mut m: CacheMap<u32> = CacheMap::new();
    assert!(m.get("a/b").is_none());
    m.insert("a/b".to_string(), CacheEntry { data: 1, etag: None });
    m.insert("c/d".to_string(), CacheEntry { data: 2, etag: Some("x".to_string()) });
    m.insert("a/b".to_string(), CacheEntry { data: 3, etag: Some("y".to_string()) });
    assert_eq!(m.len(), 2);
    assert_eq!(m.get("a/b").unwrap().data, 3);
    assert_eq!(m.get("c/d").unwrap().etag, Some("x".to_string()));
    let copy = m.copy();
    assert_eq!(copy.get("a/b").unwrap().data, 3);
    assert_eq!(copy.len(), 2);
}

#[test]
fn data_cache_export() {
    let c = GitHubClient::new(None);
    let d = c.export_data_cache();
    assert!(!d.should_save());
    let e = DataCache::empty();
    assert!(!e.should_save());
}

#[test]
fn raw_outcomes() {
    assert_eq!(readme_from_outcome(RawOutcome::NotFound), Ok(String::new()));
    assert_eq!(readme_from_outcome(RawOutcome::Body("r".to_string())), Ok("r".to_string()));
    assert_eq!(readme_from_outcome(RawOutcome::Failed("e".to_string())), Err("e".to_string()));
    assert_eq!(file_from_outcome(RawOutcome::NotFound), Err("not found".to_string()));
    assert_eq!(file_from_outcome(RawOutcome::Body("b".to_string())), Ok("b".to_string()));
    assert!(!contributors_url_given(""));
    assert!(contributors_url_given("https://api.github.com/repos/o/r/contributors"));
}

#[test]
fn directory_listing_names() {
    let items = vec![
        ContentItem { name: "a".to_string(), item_type: "dir".to_string() },
        ContentItem { name: "b.txt".to_string(), item_type: "file".to_string() },
        ContentItem { name: "c".to_string(), item_type: "dir".to_string() },
    ];
    assert_eq!(directory_names(&items), vec!["a", "c"]);
}

#[test]
fn batch_chunks() {
    assert_eq!(batch_chunk_count(0), 0);
    assert_eq!(batch_chunk_count(10), 1);
    assert_eq!(batch_chunk_count(11), 2);
    assert_eq!(chunk_bounds(25, 0), (0, 10));
    assert_eq!(chunk_bounds(25, 2), (20, 25));
    assert!(pause_after_chunk(0, 3, false));
    assert!(!pause_after_chunk(2, 3, false));
    assert!(!pause_after_chunk(0, 3, true));
    let b = finish_batch(vec![1, 2], 5, true);
    assert_eq!(b.processed, 2);
    assert_eq!(b.total, 5);
    assert!(b.stopped_by_rate_limit);
}

#[test]
fn auth_planning() {
    let s = |v: &str| Some(v.to_string());
    assert!(matches!(
        plan_auth(s("1"), s("2"), s("key.pem"), s("env"), s("tok")),
        AuthPlan::AppWithKeyFile { .. }
    ));
    match plan_auth(s("1"), s("2"), None, s("PEM"), None) {
        AuthPlan::App(a) => assert_eq!(a.private_key, "PEM"),
        _ => panic!("expected app"),
    }
    assert!(matches!(plan_auth(s("1"), s("2"), None, None, s("tok")), AuthPlan::MissingPrivateKey));
    assert!(matches!(plan_auth(s("1"), None, None, None, s("tok")), AuthPlan::Token(_)));
    assert!(matches!(plan_auth(None, None, None, None, None), AuthPlan::NoAuth));
    let c = jwt_claims("123", 1000);
    assert_eq!((c.iat, c.exp, c.iss.as_str()), (940, 1600, "123"));
}
