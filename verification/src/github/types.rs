//! The GitHub REST API objects the indexer reads: repositories, releases,
//! search results, git trees and contributors.
use vstd::prelude::*;

verus! {

/// A GitHub repository.
#[derive(Debug, Clone)]
pub struct Repository {
    pub id: u64,
    pub full_name: String,
    pub name: String,
    pub description: Option<String>,
    pub html_url: String,
    pub stargazers_count: u64,
    pub forks_count: u64,
    pub created_at: String,
    pub updated_at: String,
    pub pushed_at: String,
    pub owner: Owner,
    pub license: Option<RepositoryLicense>,
    pub topics: Vec<String>,
    pub is_template: bool,
    pub fork: bool,
    pub archived: bool,
    pub default_branch: Option<String>,
    pub contributors_url: String,
}

/// The account that owns a repository.
#[derive(Debug, Clone)]
pub struct Owner {
    pub login: String,
    pub avatar_url: String,
    pub html_url: String,
}

/// The license GitHub detected for a repository.
#[derive(Debug, Clone)]
pub struct RepositoryLicense {
    pub key: String,
    pub name: String,
    pub spdx_id: String,
    pub url: Option<String>,
    pub html_url: Option<String>,
}

/// A release of a repository.
#[derive(Debug, Clone)]
pub struct Release {
    pub id: u64,
    pub tag_name: String,
    pub name: Option<String>,
    pub body: Option<String>,
    pub prerelease: bool,
    pub draft: bool,
    pub created_at: String,
    pub published_at: String,
    pub assets: Vec<ReleaseAsset>,
}

/// A file attached to a release.
#[derive(Debug, Clone)]
pub struct ReleaseAsset {
    pub id: u64,
    pub name: String,
    pub size: u64,
    pub download_count: u64,
    pub browser_download_url: String,
    pub content_type: String,
}

/// One page of a repository search.
#[derive(Debug, Clone)]
pub struct SearchResult {
    pub total_count: u64,
    pub incomplete_results: bool,
    pub items: Vec<Repository>,
}

/// A README as the contents API returns it.
#[derive(Debug, Clone)]
pub struct ReadmeContent {
    pub content: String,
    pub encoding: String,
}

/// One page of a code search.
#[derive(Debug, Clone)]
pub struct CodeSearchResult {
    pub total_count: u64,
    pub incomplete_results: bool,
    pub items: Vec<CodeSearchItem>,
}

/// A file found by a code search.
#[derive(Debug, Clone)]
pub struct CodeSearchItem {
    pub name: String,
    pub path: String,
    pub repository: CodeSearchRepository,
}

/// The repository of a code search hit.
#[derive(Debug, Clone)]
pub struct CodeSearchRepository {
    pub id: u64,
    pub full_name: String,
    pub fork: bool,
}

/// An entry of a directory listing.
#[derive(Debug, Clone)]
pub struct ContentItem {
    pub name: String,
    pub item_type: String,
}

/// A git tree, listed recursively.
#[derive(Debug, Clone)]
pub struct GitTree {
    pub sha: String,
    pub tree: Vec<GitTreeEntry>,
    pub truncated: bool,
}

/// One path of a git tree.
#[derive(Debug, Clone)]
pub struct GitTreeEntry {
    pub path: String,
    pub entry_type: String,
    pub sha: String,
    pub size: Option<u64>,
}

/// A contributor of a repository.
#[derive(Debug, Clone)]
pub struct Contributor {
    pub login: String,
    pub avatar_url: String,
    pub html_url: String,
    pub contributions: u64,
}

/// A copy of an optional text.
fn copy_opt_string(o: &Option<String>) -> (res: Option<String>)
    ensures
        res == *o,
{
    match o {
        Some(t) => Some(t.clone()),
        None => None,
    }
}

/// A copy of a list of texts.
fn copy_strings(v: &Vec<String>) -> (res: Vec<String>)
    ensures
        res@ == v@,
{
    let mut out: Vec<String> = Vec::new();
    let mut i: usize = 0;
    while i < v.len()
        invariant
            i <= v@.len(),
            out@ == v@.take(i as int),
        decreases v@.len() - i,
    {
        out.push(v[i].clone());
        assert(out@ =~= v@.take(i + 1));
        i = i + 1;
    }
    assert(v@.take(v@.len() as int) =~= v@);
    out
}

impl Repository {
    /// `other` holds the same values as this repository (the topics compared as lists).
    pub open spec fn same_as(&self, other: Repository) -> bool {
        &&& self.id == other.id
        &&& self.full_name == other.full_name
        &&& self.name == other.name
        &&& self.description == other.description
        &&& self.html_url == other.html_url
        &&& self.stargazers_count == other.stargazers_count
        &&& self.forks_count == other.forks_count
        &&& self.created_at == other.created_at
        &&& self.updated_at == other.updated_at
        &&& self.pushed_at == other.pushed_at
        &&& self.owner == other.owner
        &&& self.license == other.license
        &&& self.topics@ == other.topics@
        &&& self.is_template == other.is_template
        &&& self.fork == other.fork
        &&& self.archived == other.archived
        &&& self.default_branch == other.default_branch
        &&& self.contributors_url == other.contributors_url
    }

    /// A copy of the repository, field by field.
    pub fn deep_copy(&self) -> (res: Repository)
        ensures
            res.same_as(*self),
    {
        let license = match &self.license {
            Some(l) => Some(
                RepositoryLicense {
                    key: l.key.clone(),
                    name: l.name.clone(),
                    spdx_id: l.spdx_id.clone(),
                    url: copy_opt_string(&l.url),
                    html_url: copy_opt_string(&l.html_url),
                },
            ),
            None => None,
        };
        Repository {
            id: self.id,
            full_name: self.full_name.clone(),
            name: self.name.clone(),
            description: copy_opt_string(&self.description),
            html_url: self.html_url.clone(),
            stargazers_count: self.stargazers_count,
            forks_count: self.forks_count,
            created_at: self.created_at.clone(),
            updated_at: self.updated_at.clone(),
            pushed_at: self.pushed_at.clone(),
            owner: Owner {
                login: self.owner.login.clone(),
                avatar_url: self.owner.avatar_url.clone(),
                html_url: self.owner.html_url.clone(),
            },
            license,
            topics: copy_strings(&self.topics),
            is_template: self.is_template,
            fork: self.fork,
            archived: self.archived,
            default_branch: copy_opt_string(&self.default_branch),
            contributors_url: self.contributors_url.clone(),
        }
    }
}

impl GitTree {
    /// `other` holds the same values as this tree (the entries compared as lists).
    pub open spec fn same_as(&self, other: GitTree) -> bool {
        &&& self.sha == other.sha
        &&& self.tree@ == other.tree@
        &&& self.truncated == other.truncated
    }

    /// A copy of the tree, entry by entry.
    pub fn deep_copy(&self) -> (res: GitTree)
        ensures
            res.same_as(*self),
    {
        let mut entries: Vec<GitTreeEntry> = Vec::new();
        let mut i: usize = 0;
        while i < self.tree.len()
            invariant
                i <= self.tree@.len(),
                entries@ == self.tree@.take(i as int),
            decreases self.tree@.len() - i,
        {
            let e = &self.tree[i];
            entries.push(
                GitTreeEntry {
                    path: e.path.clone(),
                    entry_type: e.entry_type.clone(),
                    sha: e.sha.clone(),
                    size: e.size,
                },
            );
            assert(entries@ =~= self.tree@.take(i + 1));
            i = i + 1;
        }
        assert(self.tree@.take(self.tree@.len() as int) =~= self.tree@);
        GitTree { sha: self.sha.clone(), tree: entries, truncated: self.truncated }
    }
}

} // verus!
