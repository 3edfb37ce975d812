//! The GitHub client's state and rules: endpoint URLs, request headers, the
//! retry rule for rate-limited requests, the rate-limit counters read from
//! response headers, ETag caching of repositories and trees, the token
//! refresh rule for app authentication, and how batches are cut into chunks.
use vstd::prelude::*;

use super::auth::GitHubAppAuth;
use super::types::{ContentItem, GitTree, Repository};
use super::urlencode::{parse_usize, parsed_usize, url_encode, urlencoded};
use crate::cache::{repositories_copied, trees_copied, CacheEntry, CacheMap, CachedObject, DataCache};
use crate::text::{decimal, decimal_string, str_eq};

verus! {

/// The API endpoint.
pub const API_BASE: &'static str = "https://api.github.com";

/// At most this many requests of a batch run at once.
pub const MAX_CONCURRENT: usize = 10;

/// Requests left in the rate-limit window below which a batch stops.
pub const RATE_LIMIT_BUFFER: usize = 5;

/// An installation token is reused for this many seconds (an hour less five minutes).
pub const TOKEN_REFRESH_MARGIN_SECS: u64 = 3300;

/// The client's `User-Agent`.
pub const USER_AGENT: &'static str = "AllayIndexer/0.2.0 (+https://github.com/AllayMC/AllayHub)";

/// The API version the client asks for.
pub const API_VERSION: &'static str = "2022-11-28";

/// `API_BASE` followed by the given parts.
pub open spec fn api_url(rest: Seq<char>) -> Seq<char> {
    API_BASE@ + rest
}

/// The endpoint of a repository.
pub fn repository_url(owner: &str, repo: &str) -> (res: String)
    ensures
        res@ == api_url("/repos/"@ + owner@ + "/"@ + repo@),
{
    let mut s = String::from_str(API_BASE);
    s.append("/repos/");
    s.append(owner);
    s.append("/");
    s.append(repo);
    s
}

/// The endpoint of a repository's latest release.
pub fn latest_release_url(owner: &str, repo: &str) -> (res: String)
    ensures
        res@ == api_url("/repos/"@ + owner@ + "/"@ + repo@ + "/releases/latest"@),
{
    let mut s = repository_url(owner, repo);
    s.append("/releases/latest");
    s
}

/// The endpoint of a repository's releases (the first 30).
pub fn releases_url(owner: &str, repo: &str) -> (res: String)
    ensures
        res@ == api_url("/repos/"@ + owner@ + "/"@ + repo@ + "/releases?per_page=30"@),
{
    let mut s = repository_url(owner, repo);
    s.append("/releases?per_page=30");
    s
}

/// The endpoint of a repository's README.
pub fn readme_url(owner: &str, repo: &str) -> (res: String)
    ensures
        res@ == api_url("/repos/"@ + owner@ + "/"@ + repo@ + "/readme"@),
{
    let mut s = repository_url(owner, repo);
    s.append("/readme");
    s
}

/// The endpoint of a file or directory of a repository.
pub fn contents_url(owner: &str, repo: &str, path: &str) -> (res: String)
    ensures
        res@ == api_url("/repos/"@ + owner@ + "/"@ + repo@ + "/contents/"@ + path@),
{
    let mut s = repository_url(owner, repo);
    s.append("/contents/");
    s.append(path);
    s
}

/// The endpoint of a file of a repository at a given ref.
pub fn contents_at_ref_url(owner: &str, repo: &str, path: &str, git_ref: &str) -> (res: String)
    ensures
        res@ == api_url("/repos/"@ + owner@ + "/"@ + repo@ + "/contents/"@ + path@ + "?ref="@
            + url_encode(git_ref@)),
{
    let mut s = contents_url(owner, repo, path);
    s.append("?ref=");
    let r = urlencoded(git_ref);
    s.append(r.as_str());
    s
}

/// The endpoint of a repository's git tree at a branch, listed recursively.
pub fn tree_url(owner: &str, repo: &str, branch: &str) -> (res: String)
    ensures
        res@ == api_url("/repos/"@ + owner@ + "/"@ + repo@ + "/git/trees/"@ + branch@
            + "?recursive=1"@),
{
    let mut s = repository_url(owner, repo);
    s.append("/git/trees/");
    s.append(branch);
    s.append("?recursive=1");
    s
}

/// A search endpoint (`kind` is `repositories` or `code`): 100 results per page.
pub open spec fn search_url(kind: Seq<char>, query: Seq<char>, page: nat) -> Seq<char> {
    api_url("/search/"@ + kind + "?q="@ + url_encode(query) + "&per_page=100&page="@ + decimal(page))
}

/// The endpoint of one page of a repository search.
pub fn search_repositories_url(query: &str, page: u32) -> (res: String)
    ensures
        res@ == search_url("repositories"@, query@, page as nat),
{
    let mut s = String::from_str(API_BASE);
    s.append("/search/");
    s.append("repositories");
    s.append("?q=");
    let q = urlencoded(query);
    s.append(q.as_str());
    s.append("&per_page=100&page=");
    let p = decimal_string(page as u64);
    s.append(p.as_str());
    s
}

/// The endpoint of one page of a code search.
pub fn search_code_url(query: &str, page: u32) -> (res: String)
    ensures
        res@ == search_url("code"@, query@, page as nat),
{
    let mut s = String::from_str(API_BASE);
    s.append("/search/");
    s.append("code");
    s.append("?q=");
    let q = urlencoded(query);
    s.append(q.as_str());
    s.append("&per_page=100&page=");
    let p = decimal_string(page as u64);
    s.append(p.as_str());
    s
}

/// The cache key of a repository: `owner/repo`.
pub fn repository_cache_key(owner: &str, repo: &str) -> (res: String)
    ensures
        res@ == owner@ + "/"@ + repo@,
{
    crate::text::join_with(owner, "/", repo)
}

/// The cache key of a git tree: `owner/repo/branch`.
pub fn tree_cache_key(owner: &str, repo: &str, branch: &str) -> (res: String)
    ensures
        res@ == owner@ + "/"@ + repo@ + "/"@ + branch@,
{
    let mut s = crate::text::join_with(owner, "/", repo);
    s.append("/");
    s.append(branch);
    s
}

/// The rate-limit state the API reported last.
#[derive(Debug, Clone)]
pub struct RateLimit {
    pub remaining: usize,
    pub limit: usize,
    pub reset: usize,
}

impl RateLimit {
    /// Nothing known yet: unlimited requests remain.
    pub fn new() -> (res: Self)
        ensures
            res.remaining == usize::MAX,
            res.limit == 0,
            res.reset == 0,
    {
        RateLimit { remaining: usize::MAX, limit: 0, reset: 0 }
    }

    /// Requests left in the current window.
    pub fn remaining(&self) -> (res: usize)
        ensures
            res == self.remaining,
    {
        self.remaining
    }

    /// Requests allowed per window.
    pub fn limit(&self) -> (res: usize)
        ensures
            res == self.limit,
    {
        self.limit
    }

    /// Whether more requests than the safety buffer remain.
    pub fn has_remaining(&self) -> (res: bool)
        ensures
            res == (self.remaining > RATE_LIMIT_BUFFER),
    {
        self.remaining > RATE_LIMIT_BUFFER
    }
}

/// A header value as a count: the parsed value, or the old one when the header is
/// missing or not a number.
pub open spec fn header_count(header: Option<Seq<char>>, old: usize) -> usize {
    match header {
        Some(h) => match parsed_usize(h) {
            Some(v) => v,
            None => old,
        },
        None => old,
    }
}

fn header_count_exec(header: Option<&str>, old: usize) -> (res: usize)
    ensures
        res == header_count(
            match header {
                Some(h) => Some(h@),
                None => None,
            },
            old,
        ),
{
    match header {
        Some(h) => match parse_usize(h) {
            Some(v) => v,
            None => old,
        },
        None => old,
    }
}

/// How the client authenticates.
#[derive(Clone)]
pub enum AuthMethod {
    Token(String),
    App(GitHubAppAuth),
    Anonymous,
}

/// An installation token and when it was obtained (seconds on the caller's clock).
#[derive(Clone)]
pub struct CachedToken {
    pub token: String,
    pub obtained_at: u64,
}

/// What to do to authenticate a request.
pub enum TokenAction {
    /// Send this token (or none).
    Use(Option<String>),
    /// Obtain a new installation token for this app.
    Refresh(GitHubAppAuth),
}

/// The cached repositories and trees of a client.
pub struct ResponseCache {
    pub repositories: CacheMap<Repository>,
    pub trees: CacheMap<GitTree>,
}

impl ResponseCache {
    /// Each part has each key once.
    pub open spec fn wf(&self) -> bool {
        self.repositories.wf() && self.trees.wf()
    }

    /// The response cache holding what a saved cache holds.
    pub fn from_data_cache(cache: DataCache) -> (res: Self)
        ensures
            res.repositories == cache.repositories,
            res.trees == cache.trees,
    {
        ResponseCache { repositories: cache.repositories, trees: cache.trees }
    }

    /// A saved cache holding copies of what the response cache holds.
    pub fn to_data_cache(&self) -> (res: DataCache)
        ensures
            self.wf() ==> res.wf(),
            res.repositories.entries@.len() == self.repositories.entries@.len(),
            res.trees.entries@.len() == self.trees.entries@.len(),
            forall|i: int|
                0 <= i < self.repositories.entries@.len() ==> {
                    &&& (#[trigger] res.repositories.entries@[i]).0@
                        == self.repositories.entries@[i].0@
                    &&& res.repositories.entries@[i].1.etag == self.repositories.entries@[i].1.etag
                    &&& res.repositories.entries@[i].1.data.same_as(self.repositories.entries@[i].1.data)
                },
            forall|i: int|
                0 <= i < self.trees.entries@.len() ==> {
                    &&& (#[trigger] res.trees.entries@[i]).0@ == self.trees.entries@[i].0@
                    &&& res.trees.entries@[i].1.etag == self.trees.entries@[i].1.etag
                    &&& res.trees.entries@[i].1.data.same_as(self.trees.entries@[i].1.data)
                },
    {
        DataCache { repositories: self.repositories.copy_repositories(), trees: self.trees.copy_trees() }
    }
}

/// The client's state: authentication, the token cache, rate limits, request counters
/// and the response cache. Requests themselves are made by the caller, which reports
/// back through the methods below.
pub struct GitHubClient {
    pub auth: AuthMethod,
    pub cached_token: Option<CachedToken>,
    pub rate_limit: RateLimit,
    pub api_calls: usize,
    pub cache_hits: usize,
    pub cache: ResponseCache,
}

/// How a request is authenticated at time `now` (see [`GitHubClient::token_action`]).
pub open spec fn token_decision(c: GitHubClient, now: u64) -> TokenAction {
    match c.auth {
        AuthMethod::Token(t) => TokenAction::Use(Some(t)),
        AuthMethod::Anonymous => TokenAction::Use(None),
        AuthMethod::App(app) => match c.cached_token {
            Some(ct) => if now >= ct.obtained_at && now - ct.obtained_at < TOKEN_REFRESH_MARGIN_SECS {
                TokenAction::Use(Some(ct.token))
            } else {
                TokenAction::Refresh(app)
            },
            None => TokenAction::Refresh(app),
        },
    }
}

/// An app's installation token, once stored, is reused for requests made before the
/// refresh margin has passed, and refreshed from then on.
pub proof fn lemma_token_reused_until_margin(c: GitHubClient, token: String, obtained: u64, later: u64)
    requires
        c.auth is App,
        c.cached_token == Some(CachedToken { token, obtained_at: obtained }),
        obtained <= later,
    ensures
        later - obtained < TOKEN_REFRESH_MARGIN_SECS ==> token_decision(c, later) == TokenAction::Use(
            Some(token),
        ),
        later - obtained >= TOKEN_REFRESH_MARGIN_SECS ==> token_decision(c, later) is Refresh,
{
}

/// A rate-limited request is never tried more than three times: from the third try on
/// it is given up.
pub proof fn lemma_rate_limit_gives_up(kind: BodyKind, attempt: u32, code: u16)
    requires
        attempt >= 2,
        code == 403 || code == 429,
        !(kind == BodyKind::Json && code == 304),
    ensures
        next_step(kind, attempt, HttpOutcome::Status(code)) == RequestStep::RateLimited(
            (attempt + 1) as u32,
        ),
{
}

/// The chunks of a batch cover its items in order without gaps: each chunk starts where
/// the previous one ended, and the last one ends at the end of the batch.
pub proof fn lemma_chunks_cover(total: nat, idx: nat)
    requires
        idx < chunk_count(total),
    ensures
        idx * 10 < total,
        idx + 1 < chunk_count(total) ==> idx * 10 + 10 < total,
        idx + 1 == chunk_count(total) ==> total <= idx * 10 + 10,
{
    assert(chunk_count(total) == (total + 9) / 10);
    assert(idx * 10 < total) by (nonlinear_arith)
        requires
            idx < (total + 9) / 10,
    {
    }
    if idx + 1 < chunk_count(total) {
        assert(idx * 10 + 10 < total) by (nonlinear_arith)
            requires
                idx + 1 < (total + 9) / 10,
        {
        }
    }
    if idx + 1 == chunk_count(total) {
        assert(total <= idx * 10 + 10) by (nonlinear_arith)
            requires
                idx + 1 == (total + 9) / 10,
        {
        }
    }
}

/// A counter after one more event (atomic counters wrap around).
pub open spec fn bumped(n: usize) -> usize {
    if n == usize::MAX {
        0
    } else {
        (n + 1) as usize
    }
}

/// How many of the steps recorded a request.
pub open spec fn requests_recorded(recorded: Seq<bool>) -> nat
    decreases recorded.len(),
{
    if recorded.len() == 0 {
        0
    } else {
        requests_recorded(recorded.drop_last()) + if recorded.last() {
            1nat
        } else {
            0nat
        }
    }
}

/// Over a run of operations on a client, where each step either records a request (the
/// counter moves on by one, as [`GitHubClient::record_attempt`] does for each try sent) or
/// leaves the counter alone (as every other method does), the request counter never goes down and
/// ends raised by exactly the number of requests recorded, as long as it does not wrap.
pub proof fn lemma_api_calls_count(states: Seq<GitHubClient>, recorded: Seq<bool>)
    requires
        states.len() == recorded.len() + 1,
        forall|i: int|
            0 <= i < recorded.len() ==> (#[trigger] states[i + 1]).api_calls == if recorded[i] {
                bumped(states[i].api_calls)
            } else {
                states[i].api_calls
            },
        states[0].api_calls + requests_recorded(recorded) <= usize::MAX,
    ensures
        states.last().api_calls == states[0].api_calls + requests_recorded(recorded),
        forall|i: int| 0 <= i < states.len() ==> states[0].api_calls <= #[trigger] states[i].api_calls,
    decreases recorded.len(),
{
    if recorded.len() > 0 {
        let n = recorded.len();
        let init = states.take(n as int);
        let rec = recorded.drop_last();
        assert forall|i: int| 0 <= i < rec.len() implies (#[trigger] init[i + 1]).api_calls == if rec[i] {
            bumped(init[i].api_calls)
        } else {
            init[i].api_calls
        } by {
            assert(init[i + 1] == states[i + 1]);
            assert(init[i] == states[i]);
        }
        assert(init[0] == states[0]);
        lemma_api_calls_count(init, rec);
        assert(init.last() == states[n - 1]);
        assert(states[(n - 1) + 1] == states.last());
        assert forall|i: int| 0 <= i < states.len() implies states[0].api_calls <= #[trigger] states[i].api_calls by {
            if i < n {
                assert(init[i] == states[i]);
            }
        }
    }
}

impl GitHubClient {
    /// The response cache has each key once.
    pub open spec fn wf(&self) -> bool {
        self.cache.wf()
    }

    /// A fresh client's state with the given authentication, whatever its cache: no
    /// token yet, rate limits unknown (nothing used up), no requests counted.
    pub open spec fn starts_fresh(&self, auth: AuthMethod) -> bool {
        &&& self.auth == auth
        &&& self.cached_token is None
        &&& self.rate_limit.remaining == usize::MAX
        &&& self.rate_limit.limit == 0
        &&& self.rate_limit.reset == 0
        &&& self.api_calls == 0
        &&& self.cache_hits == 0
    }

    /// A fresh client's state with the given authentication and cache.
    pub open spec fn is_fresh(&self, auth: AuthMethod, cache: DataCache) -> bool {
        &&& self.starts_fresh(auth)
        &&& self.cache.repositories == cache.repositories
        &&& self.cache.trees == cache.trees
    }

    /// A client with a personal token (or none) and an empty cache.
    pub fn new(token: Option<String>) -> (res: Self)
        ensures
            res.wf(),
            res.cache.repositories.view().len() == 0,
            res.cache.trees.view().len() == 0,
            res.starts_fresh(
                match token {
                    Some(t) => AuthMethod::Token(t),
                    None => AuthMethod::Anonymous,
                },
            ),
    {
        let c = DataCache::empty();
        Self::new_with_cache(token, c)
    }

    /// A client with a personal token (or none) and a loaded cache.
    pub fn new_with_cache(token: Option<String>, data_cache: DataCache) -> (res: Self)
        ensures
            data_cache.wf() ==> res.wf(),
            res.is_fresh(
                match token {
                    Some(t) => AuthMethod::Token(t),
                    None => AuthMethod::Anonymous,
                },
                data_cache,
            ),
    {
        let auth = match token {
            Some(t) => AuthMethod::Token(t),
            None => AuthMethod::Anonymous,
        };
        GitHubClient {
            auth,
            cached_token: None,
            rate_limit: RateLimit::new(),
            api_calls: 0,
            cache_hits: 0,
            cache: ResponseCache::from_data_cache(data_cache),
        }
    }

    /// A client authenticated as a GitHub App, with an empty cache.
    pub fn with_app(app_auth: GitHubAppAuth) -> (res: Self)
        ensures
            res.wf(),
            res.cache.repositories.view().len() == 0,
            res.cache.trees.view().len() == 0,
            res.starts_fresh(AuthMethod::App(app_auth)),
    {
        let c = DataCache::empty();
        Self::with_app_and_cache(app_auth, c)
    }

    /// A client authenticated as a GitHub App, with a loaded cache.
    pub fn with_app_and_cache(app_auth: GitHubAppAuth, data_cache: DataCache) -> (res: Self)
        ensures
            data_cache.wf() ==> res.wf(),
            res.is_fresh(AuthMethod::App(app_auth), data_cache),
    {
        GitHubClient {
            auth: AuthMethod::App(app_auth),
            cached_token: None,
            rate_limit: RateLimit::new(),
            api_calls: 0,
            cache_hits: 0,
            cache: ResponseCache::from_data_cache(data_cache),
        }
    }

    /// A copy of the cache, to be saved: the same keys in the same order, each with the
    /// same ETag and a copy of the cached object holding the same values.
    pub fn export_data_cache(&self) -> (res: DataCache)
        ensures
            self.wf() ==> res.wf(),
            res.repositories.entries@.len() == self.cache.repositories.entries@.len(),
            res.trees.entries@.len() == self.cache.trees.entries@.len(),
            forall|i: int|
                0 <= i < self.cache.repositories.entries@.len() ==> {
                    &&& (#[trigger] res.repositories.entries@[i]).0@
                        == self.cache.repositories.entries@[i].0@
                    &&& res.repositories.entries@[i].1.etag
                        == self.cache.repositories.entries@[i].1.etag
                    &&& res.repositories.entries@[i].1.data.same_as(
                        self.cache.repositories.entries@[i].1.data,
                    )
                },
            forall|i: int|
                0 <= i < self.cache.trees.entries@.len() ==> {
                    &&& (#[trigger] res.trees.entries@[i]).0@ == self.cache.trees.entries@[i].0@
                    &&& res.trees.entries@[i].1.etag == self.cache.trees.entries@[i].1.etag
                    &&& res.trees.entries@[i].1.data.same_as(self.cache.trees.entries@[i].1.data)
                },
    {
        self.cache.to_data_cache()
    }

    /// A copy of the client's state, as a batch hands to its workers: the same
    /// authentication, token, rate limits and counters, and a copy of the cache. Being a
    /// separate value, it counts its requests apart from this client.
    pub fn snapshot(&self) -> (res: GitHubClient)
        ensures
            res.auth == self.auth,
            res.cached_token == self.cached_token,
            res.rate_limit == self.rate_limit,
            res.api_calls == self.api_calls,
            res.cache_hits == self.cache_hits,
            self.wf() ==> res.wf(),
            repositories_copied(res.cache.repositories, self.cache.repositories),
            trees_copied(res.cache.trees, self.cache.trees),
    {
        let auth = match &self.auth {
            AuthMethod::Token(t) => AuthMethod::Token(t.clone()),
            AuthMethod::App(a) => AuthMethod::App(a.clone_auth()),
            AuthMethod::Anonymous => AuthMethod::Anonymous,
        };
        let cached_token = match &self.cached_token {
            Some(ct) => Some(CachedToken { token: ct.token.clone(), obtained_at: ct.obtained_at }),
            None => None,
        };
        let data = self.cache.to_data_cache();
        GitHubClient {
            auth,
            cached_token,
            rate_limit: RateLimit {
                remaining: self.rate_limit.remaining,
                limit: self.rate_limit.limit,
                reset: self.rate_limit.reset,
            },
            api_calls: self.api_calls,
            cache_hits: self.cache_hits,
            cache: ResponseCache::from_data_cache(data),
        }
    }

    /// Requests made so far.
    pub fn api_calls(&self) -> (res: usize)
        ensures
            res == self.api_calls,
    {
        self.api_calls
    }

    /// Requests answered "not modified" so far.
    pub fn cache_hits(&self) -> (res: usize)
        ensures
            res == self.cache_hits,
    {
        self.cache_hits
    }

    /// Counts a request about to be sent.
    pub fn record_api_call(&mut self)
        ensures
            final(self).api_calls == bumped(old(self).api_calls),
            final(self).cache_hits == old(self).cache_hits,
            final(self).rate_limit == old(self).rate_limit,
            final(self).auth == old(self).auth,
            final(self).cached_token == old(self).cached_token,
            final(self).cache == old(self).cache,
    {
        self.api_calls = if self.api_calls == usize::MAX {
            0
        } else {
            self.api_calls + 1
        };
    }

    /// The rate limits after a response with these header values: each value that parses
    /// as a number replaces the old one.
    pub fn update_rate_limit_from_headers(
        &mut self,
        remaining: Option<&str>,
        limit: Option<&str>,
        reset: Option<&str>,
    )
        ensures
            final(self).rate_limit.remaining == header_count(
                match remaining {
                    Some(h) => Some(h@),
                    None => None,
                },
                old(self).rate_limit.remaining,
            ),
            final(self).rate_limit.limit == header_count(
                match limit {
                    Some(h) => Some(h@),
                    None => None,
                },
                old(self).rate_limit.limit,
            ),
            final(self).rate_limit.reset == header_count(
                match reset {
                    Some(h) => Some(h@),
                    None => None,
                },
                old(self).rate_limit.reset,
            ),
            final(self).api_calls == old(self).api_calls,
            final(self).cache_hits == old(self).cache_hits,
            final(self).auth == old(self).auth,
            final(self).cached_token == old(self).cached_token,
            final(self).cache == old(self).cache,
    {
        self.rate_limit.remaining = header_count_exec(remaining, self.rate_limit.remaining);
        self.rate_limit.limit = header_count_exec(limit, self.rate_limit.limit);
        self.rate_limit.reset = header_count_exec(reset, self.rate_limit.reset);
    }

    /// How to authenticate a request at time `now`: a personal token or nothing is used as
    /// it is; an app reuses its installation token while it is younger than the refresh
    /// margin, and otherwise needs a new one.
    pub fn token_action(&self, now: u64) -> (res: TokenAction)
        ensures
            res == token_decision(*self, now),
    {
        match &self.auth {
            AuthMethod::Token(t) => TokenAction::Use(Some(t.clone())),
            AuthMethod::Anonymous => TokenAction::Use(None),
            AuthMethod::App(app) => {
                match &self.cached_token {
                    Some(c) => {
                        if now >= c.obtained_at && now - c.obtained_at < TOKEN_REFRESH_MARGIN_SECS {
                            TokenAction::Use(Some(c.token.clone()))
                        } else {
                            TokenAction::Refresh(app.clone_auth())
                        }
                    },
                    None => TokenAction::Refresh(app.clone_auth()),
                }
            },
        }
    }

    /// Remembers a new installation token obtained at `now`.
    pub fn store_token(&mut self, token: String, now: u64)
        ensures
            final(self).cached_token == Some(CachedToken { token, obtained_at: now }),
            final(self).auth == old(self).auth,
            final(self).rate_limit == old(self).rate_limit,
            final(self).api_calls == old(self).api_calls,
            final(self).cache_hits == old(self).cache_hits,
            final(self).cache == old(self).cache,
    {
        self.cached_token = Some(CachedToken { token, obtained_at: now });
    }

    /// The next step of a request after its `attempt`-th try (from 0) came back with
    /// `outcome`; a "not modified" answer is counted as a cache hit.
    pub fn request_step(&mut self, kind: BodyKind, attempt: u32, outcome: HttpOutcome) -> (res:
        RequestStep)
        requires
            attempt < 3,
        ensures
            res == next_step(kind, attempt, outcome),
            final(self).cache_hits == (if res is NotModified {
                bumped(old(self).cache_hits)
            } else {
                old(self).cache_hits
            }),
            final(self).api_calls == old(self).api_calls,
            final(self).rate_limit == old(self).rate_limit,
            final(self).auth == old(self).auth,
            final(self).cached_token == old(self).cached_token,
            final(self).cache == old(self).cache,
    {
        let step = next_request_step(kind, attempt, outcome);
        match step {
            RequestStep::NotModified => {
                self.cache_hits = if self.cache_hits == usize::MAX {
                    0
                } else {
                    self.cache_hits + 1
                };
            },
            _ => {},
        }
        step
    }

    /// Accounts for one try of a request that has been sent: the request is counted, and
    /// the next step is decided from what came back (see [`GitHubClient::request_step`]).
    pub fn record_attempt(&mut self, kind: BodyKind, attempt: u32, outcome: HttpOutcome) -> (res:
        RequestStep)
        requires
            attempt < 3,
        ensures
            res == next_step(kind, attempt, outcome),
            final(self).api_calls == bumped(old(self).api_calls),
            final(self).cache_hits == (if res is NotModified {
                bumped(old(self).cache_hits)
            } else {
                old(self).cache_hits
            }),
            final(self).rate_limit == old(self).rate_limit,
            final(self).auth == old(self).auth,
            final(self).cached_token == old(self).cached_token,
            final(self).cache == old(self).cache,
    {
        self.record_api_call();
        self.request_step(kind, attempt, outcome)
    }

    /// The cached repository under `key`, if any.
    pub fn cached_repository(&self, key: &str) -> (res: Option<&CacheEntry<Repository>>)
        requires
            self.wf(),
        ensures
            res matches Some(e) ==> self.cache.repositories.view().contains_key(key@) && *e
                == self.cache.repositories.view()[key@],
            res is None ==> !self.cache.repositories.view().contains_key(key@),
    {
        self.cache.repositories.get(key)
    }

    /// The cached tree under `key`, if any.
    pub fn cached_tree(&self, key: &str) -> (res: Option<&CacheEntry<GitTree>>)
        requires
            self.wf(),
        ensures
            res matches Some(e) ==> self.cache.trees.view().contains_key(key@) && *e
                == self.cache.trees.view()[key@],
            res is None ==> !self.cache.trees.view().contains_key(key@),
    {
        self.cache.trees.get(key)
    }

    /// Caches a fetched repository.
    pub fn store_repository(&mut self, key: String, entry: CacheEntry<Repository>)
        requires
            old(self).wf(),
        ensures
            final(self).wf(),
            final(self).cache.repositories.view() == old(self).cache.repositories.view().insert(
                key@,
                entry,
            ),
            final(self).cache.trees == old(self).cache.trees,
            final(self).api_calls == old(self).api_calls,
            final(self).cache_hits == old(self).cache_hits,
    {
        self.cache.repositories.insert(key, entry);
    }

    /// Caches a fetched tree.
    pub fn store_tree(&mut self, key: String, entry: CacheEntry<GitTree>)
        requires
            old(self).wf(),
        ensures
            final(self).wf(),
            final(self).cache.trees.view() == old(self).cache.trees.view().insert(key@, entry),
            final(self).cache.repositories == old(self).cache.repositories,
            final(self).api_calls == old(self).api_calls,
            final(self).cache_hits == old(self).cache_hits,
    {
        self.cache.trees.insert(key, entry);
    }
}

/// What a request's body is read as.
#[derive(Clone, Copy, PartialEq, Eq, Structural)]
pub enum BodyKind {
    /// JSON, with ETags.
    Json,
    /// Raw file content.
    Raw,
}

/// What one try of a request came back with.
#[derive(Clone, Copy)]
pub enum HttpOutcome {
    /// A response with this status.
    Response(u16),
    /// An error status.
    Status(u16),
    /// Any other failure (network, TLS, ...).
    Transport,
}

/// What to do after one try of a request.
#[derive(PartialEq, Eq, Debug)]
pub enum RequestStep {
    /// Read the body (and the rate-limit headers).
    ReadBody,
    /// The cached copy is current.
    NotModified,
    /// The path does not exist.
    NotFound,
    /// Wait this many seconds, then try again.
    Retry(u64),
    /// Give up: rate limited after this many tries.
    RateLimited(u32),
    /// Give up with the transport's error.
    HttpError,
}

/// The retry rule: a "not modified" JSON answer uses the cache; 404 on raw content is
/// "not found"; 403 and 429 are retried after 30 s, then 60 s, and given up after the
/// third try; any other error is given up at once.
pub open spec fn next_step(kind: BodyKind, attempt: u32, outcome: HttpOutcome) -> RequestStep {
    match outcome {
        HttpOutcome::Response(status) => if kind == BodyKind::Json && status == 304 {
            RequestStep::NotModified
        } else {
            RequestStep::ReadBody
        },
        HttpOutcome::Status(code) => if kind == BodyKind::Json && code == 304 {
            RequestStep::NotModified
        } else if kind == BodyKind::Raw && code == 404 {
            RequestStep::NotFound
        } else if code == 403 || code == 429 {
            if attempt < 2 {
                RequestStep::Retry((30 * pow2(attempt as nat)) as u64)
            } else {
                RequestStep::RateLimited((attempt + 1) as u32)
            }
        } else {
            RequestStep::HttpError
        },
        HttpOutcome::Transport => RequestStep::HttpError,
    }
}

/// A request is tried at most three times: only the first two tries can be followed by
/// another (a retry after a rate limit).
pub proof fn lemma_at_most_three_tries(kind: BodyKind, attempt: u32, outcome: HttpOutcome)
    ensures
        next_step(kind, attempt, outcome) is Retry ==> attempt < 2,
{
}

/// Two to the power `n`.
pub open spec fn pow2(n: nat) -> nat
    decreases n,
{
    if n == 0 {
        1
    } else {
        2 * pow2((n - 1) as nat)
    }
}

/// The next step of a request after one try (see [`next_step`]).
pub fn next_request_step(kind: BodyKind, attempt: u32, outcome: HttpOutcome) -> (res: RequestStep)
    requires
        attempt < 3,
    ensures
        res == next_step(kind, attempt, outcome),
{
    match outcome {
        HttpOutcome::Response(status) => {
            if kind == BodyKind::Json && status == 304 {
                RequestStep::NotModified
            } else {
                RequestStep::ReadBody
            }
        },
        HttpOutcome::Status(code) => {
            if kind == BodyKind::Json && code == 304 {
                RequestStep::NotModified
            } else if kind == BodyKind::Raw && code == 404 {
                RequestStep::NotFound
            } else if code == 403 || code == 429 {
                if attempt < 2 {
                    let wait: u64 = if attempt == 0 {
                        30
                    } else {
                        60
                    };
                    assert(pow2(0) == 1);
                    assert(pow2(1) == 2);
                    RequestStep::Retry(wait)
                } else {
                    RequestStep::RateLimited(attempt + 1)
                }
            } else {
                RequestStep::HttpError
            }
        },
        HttpOutcome::Transport => RequestStep::HttpError,
    }
}

/// The message of a request given up after being rate limited `attempts` times.
pub fn rate_limited_message(attempts: u32) -> (res: String)
    ensures
        res@ == "Rate limited after "@ + decimal(attempts as nat) + " attempts"@,
{
    let mut s = String::from_str("Rate limited after ");
    let n = decimal_string(attempts as u64);
    s.append(n.as_str());
    s.append(" attempts");
    s
}

/// One request header.
pub open spec fn header(name: Seq<char>, value: Seq<char>) -> (Seq<char>, Seq<char>) {
    (name, value)
}

/// The headers of a request: what is accepted, the user agent and API version, the
/// bearer token when there is one, and the ETag to revalidate when there is one.
pub open spec fn request_headers_spec(kind: BodyKind, token: Option<Seq<char>>, etag: Option<Seq<char>>) -> Seq<
    (Seq<char>, Seq<char>),
> {
    let accept = if kind == BodyKind::Json {
        "application/vnd.github+json"@
    } else {
        "application/vnd.github.raw+json"@
    };
    let base = seq![
        header("Accept"@, accept),
        header("User-Agent"@, USER_AGENT@),
        header("X-GitHub-Api-Version"@, API_VERSION@),
    ];
    let with_auth = match token {
        Some(t) => base.push(header("Authorization"@, "Bearer "@ + t)),
        None => base,
    };
    match etag {
        Some(e) => with_auth.push(header("If-None-Match"@, e)),
        None => with_auth,
    }
}

/// A request made with a token carries it as a bearer `Authorization` header, whatever
/// its kind (JSON or raw content) and whether or not it revalidates an ETag; a request
/// made without one carries no `Authorization` header.
pub proof fn lemma_token_always_sent(kind: BodyKind, token: Option<Seq<char>>, etag: Option<Seq<char>>)
    ensures
        token matches Some(t) ==> request_headers_spec(kind, token, etag).contains(
            ("Authorization"@, "Bearer "@ + t),
        ),
        token is None ==> forall|i: int|
            0 <= i < request_headers_spec(kind, token, etag).len() ==> (
            #[trigger] request_headers_spec(kind, token, etag)[i]).0 != "Authorization"@,
{
    reveal_strlit("Authorization");
    reveal_strlit("Accept");
    reveal_strlit("User-Agent");
    reveal_strlit("X-GitHub-Api-Version");
    reveal_strlit("If-None-Match");
    let hs = request_headers_spec(kind, token, etag);
    match token {
        Some(t) => {
            assert(hs[3] == ("Authorization"@, "Bearer "@ + t));
        },
        None => {
            assert forall|i: int| 0 <= i < hs.len() implies (#[trigger] hs[i]).0 != "Authorization"@ by {
                if i == 0 {
                    assert(hs[i].0 == "Accept"@);
                    assert(hs[i].0[1] != "Authorization"@[1]);
                } else if i == 1 {
                    assert(hs[i].0 == "User-Agent"@);
                    assert(hs[i].0[0] != "Authorization"@[0]);
                } else if i == 2 {
                    assert(hs[i].0 == "X-GitHub-Api-Version"@);
                    assert(hs[i].0[0] != "Authorization"@[0]);
                } else {
                    assert(hs[i].0 == "If-None-Match"@);
                    assert(hs[i].0[0] != "Authorization"@[0]);
                }
            }
        },
    }
}

/// The headers to send with a request.
pub fn request_headers(kind: BodyKind, token: Option<&str>, etag: Option<&str>) -> (res: Vec<
    (String, String),
>)
    ensures
        res@.map_values(|h: (String, String)| (h.0@, h.1@)) == request_headers_spec(
            kind,
            match token {
                Some(t) => Some(t@),
                None => None,
            },
            match etag {
                Some(e) => Some(e@),
                None => None,
            },
        ),
{
    let mut v: Vec<(String, String)> = Vec::new();
    let accept = if kind == BodyKind::Json {
        String::from_str("application/vnd.github+json")
    } else {
        String::from_str("application/vnd.github.raw+json")
    };
    v.push((String::from_str("Accept"), accept));
    v.push((String::from_str("User-Agent"), String::from_str(USER_AGENT)));
    v.push((String::from_str("X-GitHub-Api-Version"), String::from_str(API_VERSION)));
    match token {
        Some(t) => {
            let mut b = String::from_str("Bearer ");
            b.append(t);
            v.push((String::from_str("Authorization"), b));
        },
        None => {},
    }
    match etag {
        Some(e) => {
            v.push((String::from_str("If-None-Match"), String::from_str(e)));
        },
        None => {},
    }
    let ghost tv = match token {
        Some(t) => Some(t@),
        None => None::<Seq<char>>,
    };
    let ghost ev = match etag {
        Some(e) => Some(e@),
        None => None::<Seq<char>>,
    };
    assert(v@.map_values(|h: (String, String)| (h.0@, h.1@)) =~= request_headers_spec(kind, tv, ev));
    v
}

/// What a cached JSON request came back with.
pub enum FetchOutcome<T> {
    /// A fresh object, with its ETag if the response had one.
    Fetched(T, Option<String>),
    /// "Not modified": the cached copy is current.
    NotModified,
    /// The request failed.
    Failed(String),
}

/// What to answer and what to cache after a cached request.
pub struct CachedFetch<T> {
    pub result: Result<T, String>,
    pub store: Option<CacheEntry<T>>,
}

/// The answer of a cached request: a fresh object is cached (with its ETag) and
/// returned; "not modified" returns the cached copy; a failure falls back to the cached
/// copy when there is one, and is reported otherwise.
pub fn resolve_cached_fetch<T: CachedObject>(cached: Option<CacheEntry<T>>, outcome: FetchOutcome<T>) -> (res:
    CachedFetch<T>)
    requires
        outcome is NotModified ==> cached is Some,
    ensures
        outcome matches FetchOutcome::Fetched(data, etag) ==> (res.store == Some(
            CacheEntry { data, etag },
        ) && (res.result matches Ok(r) && r.same_value(&data))),
        outcome is NotModified ==> res.store is None && res.result == Ok::<T, String>(
            cached.unwrap().data,
        ),
        outcome matches FetchOutcome::Failed(e) ==> res.store is None && (match cached {
            Some(c) => res.result == Ok::<T, String>(c.data),
            None => res.result == Err::<T, String>(e),
        }),
{
    match outcome {
        FetchOutcome::Fetched(data, etag) => {
            let r = data.copy_object();
            CachedFetch { result: Ok(r), store: Some(CacheEntry { data, etag }) }
        },
        FetchOutcome::NotModified => {
            match cached {
                Some(c) => CachedFetch { result: Ok(c.data), store: None },
                None => CachedFetch { result: Err(String::new()), store: None },
            }
        },
        FetchOutcome::Failed(e) => {
            match cached {
                Some(c) => CachedFetch { result: Ok(c.data), store: None },
                None => CachedFetch { result: Err(e), store: None },
            }
        },
    }
}

/// What a raw-content request came back with.
pub enum RawOutcome {
    Body(String),
    NotFound,
    Failed(String),
}

/// The README of a repository: a missing README is the empty text.
pub fn readme_from_outcome(outcome: RawOutcome) -> (res: Result<String, String>)
    ensures
        outcome matches RawOutcome::Body(s) ==> res == Ok::<String, String>(s),
        outcome is NotFound ==> (res matches Ok(s) && s@ == Seq::<char>::empty()),
        outcome matches RawOutcome::Failed(e) ==> res == Err::<String, String>(e),
{
    match outcome {
        RawOutcome::Body(s) => Ok(s),
        RawOutcome::NotFound => Ok(String::new()),
        RawOutcome::Failed(e) => Err(e),
    }
}

/// A file of a repository: a missing file is the error `not found`.
pub fn file_from_outcome(outcome: RawOutcome) -> (res: Result<String, String>)
    ensures
        outcome matches RawOutcome::Body(s) ==> res == Ok::<String, String>(s),
        outcome is NotFound ==> (res matches Err(e) && e@ == "not found"@),
        outcome matches RawOutcome::Failed(e) ==> res == Err::<String, String>(e),
{
    match outcome {
        RawOutcome::Body(s) => Ok(s),
        RawOutcome::NotFound => Err(String::from_str("not found")),
        RawOutcome::Failed(e) => Err(e),
    }
}

/// The names of the subdirectories in a directory listing, in order.
pub open spec fn dir_names(items: Seq<ContentItem>) -> Seq<Seq<char>>
    decreases items.len(),
{
    if items.len() == 0 {
        Seq::<Seq<char>>::empty()
    } else if items.last().item_type@ == "dir"@ {
        dir_names(items.drop_last()).push(items.last().name@)
    } else {
        dir_names(items.drop_last())
    }
}

/// The subdirectories of a directory listing.
pub fn directory_names(items: &[ContentItem]) -> (res: Vec<String>)
    ensures
        res.deep_view() == dir_names(items@),
{
    let mut out: Vec<String> = Vec::new();
    let mut i: usize = 0;
    while i < items.len()
        invariant
            i <= items@.len(),
            out.deep_view() == dir_names(items@.take(i as int)),
        decreases items@.len() - i,
    {
        let ghost pre = items@.take(i + 1);
        assert(pre.drop_last() =~= items@.take(i as int));
        assert(pre.last() == items@[i as int]);
        if str_eq(items[i].item_type.as_str(), "dir") {
            let ghost before = out.deep_view();
            out.push(items[i].name.clone());
            assert(out.deep_view() =~= before.push(items@[i as int].name@));
        }
        i = i + 1;
    }
    assert(items@.take(items@.len() as int) =~= items@);
    out
}

/// Whether contributors must be fetched: a repository without a contributors URL has none.
pub fn contributors_url_given(url: &str) -> (res: bool)
    ensures
        res == (url@.len() > 0),
{
    !url.is_empty()
}

/// The number of chunks a batch of `total` items is cut into.
pub open spec fn chunk_count(total: nat) -> nat {
    (total + MAX_CONCURRENT - 1) as nat / (MAX_CONCURRENT as nat)
}

/// How many chunks a batch of `total` items takes (at most `MAX_CONCURRENT` each).
pub fn batch_chunk_count(total: usize) -> (res: usize)
    ensures
        res == chunk_count(total as nat),
{
    total / MAX_CONCURRENT + if total % MAX_CONCURRENT == 0 {
        0
    } else {
        1
    }
}

/// The items of chunk `idx`: from `idx * MAX_CONCURRENT` up to the next chunk or the end.
pub fn chunk_bounds(total: usize, idx: usize) -> (res: (usize, usize))
    requires
        idx < chunk_count(total as nat),
    ensures
        res.0 == idx * MAX_CONCURRENT,
        res.1 == if idx * MAX_CONCURRENT + MAX_CONCURRENT <= total {
            idx * MAX_CONCURRENT + MAX_CONCURRENT
        } else {
            total as int
        },
        res.0 < res.1 <= total,
{
    let start = idx * MAX_CONCURRENT;
    let end = if total - start >= MAX_CONCURRENT {
        start + MAX_CONCURRENT
    } else {
        total
    };
    (start, end)
}

/// Whether to pause between chunks: after every chunk but the last, unless the batch stopped.
pub fn pause_after_chunk(idx: usize, chunk_total: usize, stopped: bool) -> (res: bool)
    ensures
        res == (idx + 1 < chunk_total && !stopped),
{
    chunk_total > 0 && idx < chunk_total - 1 && !stopped
}

/// The outcome of a batch of requests.
pub struct BatchResult<R> {
    pub results: Vec<R>,
    pub processed: usize,
    pub total: usize,
    pub stopped_by_rate_limit: bool,
}

/// The outcome of a batch from the results gathered.
pub fn finish_batch<R>(results: Vec<R>, total: usize, stopped: bool) -> (res: BatchResult<R>)
    ensures
        res.results == results,
        res.processed == results@.len(),
        res.total == total,
        res.stopped_by_rate_limit == stopped,
{
    let processed = results.len();
    BatchResult { results, processed, total, stopped_by_rate_limit: stopped }
}

} // verus!
