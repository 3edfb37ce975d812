use allayindexer::cache::{cache_file_contents, cache_file_payload};
use allayindexer::github::api::{BodyKind, GitHubClient, HttpOutcome, RequestStep};
use allayindexer::github::auth::create_jwt;
use allayindexer::sync::discover::{code_search_step, topic_search_step, SearchDecision};

#[test]
fn cache_file_round_trip() {
    let payload = b"serialized cache".to_vec();
    let file = cache_file_contents(&payload);
    assert_eq!(&file[0..2], &[0x1f, 0x8b]);
    assert_eq!(cache_file_payload(&file), Some(payload));
    assert_eq!(cache_file_payload(b"not gzip"), None);
}

#[test]
fn jwt_with_bad_key_fails_with_prefix() {
    let r = create_jwt("123", "not a pem", 1_700_000_000);
    let e = r.unwrap_err();
    assert!(e.starts_with("Invalid private key: "), "{}", e);
}

#[test]
fn code_search_pages() {
    assert!(code_search_step(1, None) == SearchDecision::Finish);
    assert!(code_search_step(1, Some((1001, 100))) == SearchDecision::Shard(1001));
    assert!(code_search_step(1, Some((1000, 100))) == SearchDecision::Record(Some(2)));
    assert!(code_search_step(1, Some((5, 5))) == SearchDecision::Record(None));
    assert!(code_search_step(1, Some((0, 0))) == SearchDecision::Record(None));
    assert!(code_search_step(3, None) == SearchDecision::Finish);
    assert!(code_search_step(3, Some((5000, 0))) == SearchDecision::Finish);
    assert!(code_search_step(3, Some((5000, 100))) == SearchDecision::Record(Some(4)));
    assert!(code_search_step(10, Some((900, 100))) == SearchDecision::Record(None));
}

#[test]
fn topic_search_pages() {
    assert!(topic_search_step(1, None) == SearchDecision::Finish);
    assert!(topic_search_step(1, Some(0)) == SearchDecision::Finish);
    assert!(topic_search_step(1, Some(100)) == SearchDecision::Record(Some(2)));
    assert!(topic_search_step(2, Some(99)) == SearchDecision::Record(None));
    assert!(topic_search_step(10, Some(100)) == SearchDecision::Record(None));
}

#[test]
fn attempts_are_counted_and_snapshots_count_apart() {
    let mut c = GitHubClient::new(None);
    let step = c.record_attempt(BodyKind::Json, 0, HttpOutcome::Status(403));
    assert!(matches!(step, RequestStep::Retry(30)));
    let step = c.record_attempt(BodyKind::Json, 1, HttpOutcome::Response(304));
    assert!(matches!(step, RequestStep::NotModified));
    assert_eq!(c.api_calls(), 2);
    assert_eq!(c.cache_hits(), 1);
    let mut s = c.snapshot();
    assert_eq!(s.api_calls(), 2);
    s.record_attempt(BodyKind::Raw, 0, HttpOutcome::Response(200));
    assert_eq!(s.api_calls(), 3);
    assert_eq!(c.api_calls(), 2);
}
