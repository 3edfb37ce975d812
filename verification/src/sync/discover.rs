//! Discovering new plugins: the search queries, the filtering and grouping
//! of search hits by repository, the paging rule, merging of result lists,
//! and the deduplication of the entries that come back.
use vstd::prelude::*;

use crate::github::types::{CodeSearchItem, GitTreeEntry, Repository};
use crate::plugin::Plugin;
use crate::text::{
    contains_exec, contains_seq, contains_str, decimal, decimal_string, ends_with, has_char,
    split_char, split_char_exec, str_ends_with, str_eq, string_from_chars,
};

verus! {

/// The code search that finds `plugin.yml` files of Nukkit plugins.
pub const CODE_SEARCH_QUERY: &'static str = "filename:plugin.yml path:src/main/resources language:YAML";

/// The topic search for Nukkit plugins (forks included).
pub const TOPIC_QUERY_NUKKIT: &'static str = "topic:nukkit-plugin fork:true";

/// The topic search for Nukkit-MOT plugins (forks included).
pub const TOPIC_QUERY_NUKKIT_MOT: &'static str = "topic:nukkit-mot-plugin fork:true";

/// The first year searched when a full scan is split by year.
pub const START_YEAR: u64 = 2015;

/// GitHub serves at most this many results of one search.
pub const SHARD_LIMIT: u64 = 1000;

/// The topic searches, in the order they are run.
pub fn topic_queries() -> (res: Vec<&'static str>)
    ensures
        res@.len() == 2,
        res@[0]@ == TOPIC_QUERY_NUKKIT@,
        res@[1]@ == TOPIC_QUERY_NUKKIT_MOT@,
{
    let mut v = Vec::new();
    v.push(TOPIC_QUERY_NUKKIT);
    v.push(TOPIC_QUERY_NUKKIT_MOT);
    v
}

/// A repository found by a search, with the `plugin.yml` path the search saw, if any.
#[derive(Debug, Clone)]
pub struct RepoMatch {
    pub full_name: String,
    pub plugin_yml_path: Option<String>,
}

/// The text of an optional string.
pub open spec fn opt_text(o: Option<String>) -> Option<Seq<char>> {
    match o {
        Some(s) => Some(s@),
        None => None,
    }
}

/// A match as plain values.
pub open spec fn match_view(m: RepoMatch) -> (Seq<char>, Option<Seq<char>>) {
    (m.full_name@, opt_text(m.plugin_yml_path))
}

/// Repositories that are never indexed (the list is empty).
pub open spec fn excluded_repo(name: Seq<char>) -> bool {
    false
}

fn is_excluded(name: &str) -> (res: bool)
    ensures
        res == excluded_repo(name@),
{
    false
}

/// Search hits grouped by repository: each repository once, in the order first seen,
/// with the paths seen for it in order. A vector keeps the groups, rather than a
/// `HashMap`: vstd models a `HashMap` only for key types it knows to hash consistently,
/// which `String` is not, and the vector gives the matches a definite order.
pub struct RepoGroups {
    pub entries: Vec<(String, Vec<String>)>,
}

/// Groups as plain values.
pub open spec fn groups_view(entries: Seq<(String, Vec<String>)>) -> Seq<(Seq<char>, Seq<Seq<char>>)> {
    entries.map_values(|e: (String, Vec<String>)| (e.0@, e.1.deep_view()))
}

/// No repository appears twice.
pub open spec fn distinct_names(g: Seq<(Seq<char>, Seq<Seq<char>>)>) -> bool {
    forall|i: int, j: int| 0 <= i < g.len() && 0 <= j < g.len() && i != j ==> g[i].0 != g[j].0
}

/// The groups after recording `paths` for repository `name`: appended to its group, or a
/// new group at the end.
pub open spec fn group_add(
    g: Seq<(Seq<char>, Seq<Seq<char>>)>,
    name: Seq<char>,
    paths: Seq<Seq<char>>,
) -> Seq<(Seq<char>, Seq<Seq<char>>)> {
    if exists|i: int| 0 <= i < g.len() && g[i].0 == name {
        let i = choose|i: int| 0 <= i < g.len() && g[i].0 == name;
        g.update(i, (name, g[i].1 + paths))
    } else {
        g.push((name, paths))
    }
}

impl RepoGroups {
    pub open spec fn view(&self) -> Seq<(Seq<char>, Seq<Seq<char>>)> {
        groups_view(self.entries@)
    }

    /// Each repository appears once.
    pub open spec fn wf(&self) -> bool {
        distinct_names(self.view())
    }

    /// No groups.
    pub fn new() -> (res: Self)
        ensures
            res.wf(),
            res.view().len() == 0,
    {
        let r = RepoGroups { entries: Vec::new() };
        assert(r.view() =~= Seq::<(Seq<char>, Seq<Seq<char>>)>::empty());
        r
    }

    /// Records a repository, with a path seen for it if there is one.
    pub fn add(&mut self, name: &str, path: Option<&str>)
        requires
            old(self).wf(),
        ensures
            final(self).wf(),
            final(self).view() == group_add(
                old(self).view(),
                name@,
                match path {
                    Some(p) => seq![p@],
                    None => Seq::<Seq<char>>::empty(),
                },
            ),
    {
        let ghost g = self.view();
        let ghost added = match path {
            Some(p) => seq![p@],
            None => Seq::<Seq<char>>::empty(),
        };
        let mut i: usize = 0;
        while i < self.entries.len()
            invariant
                g == groups_view(self.entries@),
                g == old(self).view(),
                added == (match path {
                    Some(p) => seq![p@],
                    None => Seq::<Seq<char>>::empty(),
                }),
                distinct_names(g),
                i <= self.entries@.len(),
                forall|k: int| 0 <= k < i ==> g[k].0 != name@,
            decreases self.entries@.len() - i,
        {
            assert(g[i as int].0 == self.entries@[i as int].0@);
            if str_eq(self.entries[i].0.as_str(), name) {
                let ghost w = choose|w: int| 0 <= w < g.len() && g[w].0 == name@;
                assert(w == i) by {
                    if w != i {
                        assert(g[w].0 != g[i as int].0);
                    }
                }
                let ghost before = self.entries@[i as int];
                let ghost old_entries = self.entries@;
                let mut pair = self.entries.remove(i);
                assert(pair == before);
                match path {
                    Some(p) => {
                        let ghost pb = pair.1.deep_view();
                        let ps = String::from_str(p);
                        pair.1.push(ps);
                        assert(pair.1.deep_view() =~= pb.push(p@));
                        assert(added =~= seq![p@]);
                        assert(pair.1.deep_view() =~= before.1.deep_view() + added);
                    },
                    None => {
                        assert(added =~= Seq::<Seq<char>>::empty());
                        assert(pair.1.deep_view() =~= before.1.deep_view() + added);
                    },
                }
                self.entries.insert(i, pair);
                assert(self.entries@ =~= old_entries.update(i as int, pair));
                assert(exists|k: int| 0 <= k < g.len() && g[k].0 == name@);
                assert(group_add(g, name@, added) == g.update(w, (name@, g[w].1 + added)));
                assert(self.view() =~= g.update(i as int, (name@, g[i as int].1 + added)));
                return ;
            }
            i = i + 1;
        }
        let mut paths: Vec<String> = Vec::new();
        match path {
            Some(p) => {
                paths.push(String::from_str(p));
            },
            None => {},
        }
        assert(paths.deep_view() =~= added);
        self.entries.push((String::from_str(name), paths));
        assert(self.view() =~= g.push((name@, added)));
    }
}

/// A code search hit that counts: not a fork, not already indexed, not excluded.
pub open spec fn accepted_code_item(item: CodeSearchItem, existing: Seq<Seq<char>>) -> bool {
    !item.repository.fork && !existing.contains(item.repository.full_name@) && !excluded_repo(
        item.repository.full_name@,
    )
}

/// The groups after recording the accepted code search hits, in order, with their paths.
pub open spec fn code_groups(
    g: Seq<(Seq<char>, Seq<Seq<char>>)>,
    items: Seq<CodeSearchItem>,
    existing: Seq<Seq<char>>,
) -> Seq<(Seq<char>, Seq<Seq<char>>)>
    decreases items.len(),
{
    if items.len() == 0 {
        g
    } else {
        let prev = code_groups(g, items.drop_last(), existing);
        let it = items.last();
        if accepted_code_item(it, existing) {
            group_add(prev, it.repository.full_name@, seq![it.path@])
        } else {
            prev
        }
    }
}

/// Records one page of code search hits: forks, indexed and excluded repositories are
/// skipped, the others are grouped with the paths found.
pub fn add_code_items(groups: &mut RepoGroups, items: &[CodeSearchItem], existing: &[String])
    requires
        old(groups).wf(),
    ensures
        final(groups).wf(),
        final(groups).view() == code_groups(old(groups).view(), items@, existing.deep_view()),
{
    let ghost g0 = groups.view();
    let mut i: usize = 0;
    while i < items.len()
        invariant
            groups.wf(),
            i <= items@.len(),
            groups.view() == code_groups(g0, items@.take(i as int), existing.deep_view()),
        decreases items@.len() - i,
    {
        let ghost pre = items@.take(i + 1);
        assert(pre.drop_last() =~= items@.take(i as int));
        assert(pre.last() == items@[i as int]);
        let item = &items[i];
        let name = item.repository.full_name.as_str();
        if !item.repository.fork && !contains_str(existing, name) && !is_excluded(name) {
            groups.add(name, Some(item.path.as_str()));
        }
        i = i + 1;
    }
    assert(items@.take(items@.len() as int) =~= items@);
}

/// A repository search hit that counts: not a fork unless the query asks for forks, not
/// already indexed, not excluded.
pub open spec fn accepted_topic_item(item: Repository, existing: Seq<Seq<char>>, forks_wanted: bool) -> bool {
    !(item.fork && !forks_wanted) && !existing.contains(item.full_name@) && !excluded_repo(
        item.full_name@,
    )
}

/// The groups after recording the accepted repository search hits, in order.
pub open spec fn topic_groups(
    g: Seq<(Seq<char>, Seq<Seq<char>>)>,
    items: Seq<Repository>,
    existing: Seq<Seq<char>>,
    forks_wanted: bool,
) -> Seq<(Seq<char>, Seq<Seq<char>>)>
    decreases items.len(),
{
    if items.len() == 0 {
        g
    } else {
        let prev = topic_groups(g, items.drop_last(), existing, forks_wanted);
        let it = items.last();
        if accepted_topic_item(it, existing, forks_wanted) {
            group_add(prev, it.full_name@, Seq::<Seq<char>>::empty())
        } else {
            prev
        }
    }
}

/// A topic query that asks for forks too.
pub open spec fn query_wants_forks(query: Seq<char>) -> bool {
    contains_seq(query, "fork:true"@)
}

/// Whether a topic query asks for forks too (it holds `fork:true`).
pub fn topic_query_wants_forks(query: &str) -> (res: bool)
    ensures
        res == query_wants_forks(query@),
{
    let q = crate::text::chars_of(query);
    let f = crate::text::chars_of("fork:true");
    contains_exec(&q, &f)
}

/// Records one page of repository search hits for a topic query.
pub fn add_topic_items(groups: &mut RepoGroups, items: &[Repository], existing: &[String], topic_query: &str)
    requires
        old(groups).wf(),
    ensures
        final(groups).wf(),
        final(groups).view() == topic_groups(
            old(groups).view(),
            items@,
            existing.deep_view(),
            query_wants_forks(topic_query@),
        ),
{
    let forks_wanted = topic_query_wants_forks(topic_query);
    let ghost g0 = groups.view();
    let mut i: usize = 0;
    while i < items.len()
        invariant
            groups.wf(),
            forks_wanted == query_wants_forks(topic_query@),
            i <= items@.len(),
            groups.view() == topic_groups(
                g0,
                items@.take(i as int),
                existing.deep_view(),
                forks_wanted,
            ),
        decreases items@.len() - i,
    {
        let ghost pre = items@.take(i + 1);
        assert(pre.drop_last() =~= items@.take(i as int));
        assert(pre.last() == items@[i as int]);
        let item = &items[i];
        let name = item.full_name.as_str();
        if !(item.fork && !forks_wanted) && !contains_str(existing, name) && !is_excluded(name) {
            groups.add(name, None);
        }
        i = i + 1;
    }
    assert(items@.take(items@.len() as int) =~= items@);
}

/// The groups after recording, for each match that has a `plugin.yml` path, that path.
pub open spec fn path_groups(
    g: Seq<(Seq<char>, Seq<Seq<char>>)>,
    matches: Seq<RepoMatch>,
) -> Seq<(Seq<char>, Seq<Seq<char>>)>
    decreases matches.len(),
{
    if matches.len() == 0 {
        g
    } else {
        let prev = path_groups(g, matches.drop_last());
        let m = matches.last();
        match m.plugin_yml_path {
            Some(p) => group_add(prev, m.full_name@, seq![p@]),
            None => prev,
        }
    }
}

/// Records the matches of one year of a sharded search; matches without a path are dropped.
pub fn add_year_matches(groups: &mut RepoGroups, matches: &[RepoMatch])
    requires
        old(groups).wf(),
    ensures
        final(groups).wf(),
        final(groups).view() == path_groups(old(groups).view(), matches@),
{
    let ghost g0 = groups.view();
    let mut i: usize = 0;
    while i < matches.len()
        invariant
            groups.wf(),
            i <= matches@.len(),
            groups.view() == path_groups(g0, matches@.take(i as int)),
        decreases matches@.len() - i,
    {
        let ghost pre = matches@.take(i + 1);
        assert(pre.drop_last() =~= matches@.take(i as int));
        assert(pre.last() == matches@[i as int]);
        match &matches[i].plugin_yml_path {
            Some(p) => {
                groups.add(matches[i].full_name.as_str(), Some(p.as_str()));
            },
            None => {},
        }
        i = i + 1;
    }
    assert(matches@.take(matches@.len() as int) =~= matches@);
}

/// The first path that ends with `suffix`.
pub open spec fn first_ending(paths: Seq<Seq<char>>, suffix: Seq<char>) -> Option<Seq<char>>
    decreases paths.len(),
{
    if paths.len() == 0 {
        None
    } else if ends_with(paths[0], suffix) {
        Some(paths[0])
    } else {
        first_ending(paths.drop_first(), suffix)
    }
}

fn first_ending_exec(paths: &[String], suffix: &str) -> (res: Option<String>)
    ensures
        opt_text(res) == first_ending(paths.deep_view(), suffix@),
{
    let mut i: usize = 0;
    assert(paths.deep_view().skip(0) =~= paths.deep_view());
    while i < paths.len()
        invariant
            i <= paths@.len(),
            paths.deep_view().len() == paths@.len(),
            first_ending(paths.deep_view().skip(i as int), suffix@) == first_ending(
                paths.deep_view(),
                suffix@,
            ),
        decreases paths@.len() - i,
    {
        let ghost rest = paths.deep_view().skip(i as int);
        assert(rest[0] == paths@[i as int]@);
        assert(rest.drop_first() =~= paths.deep_view().skip(i + 1));
        if str_ends_with(paths[i].as_str(), suffix) {
            return Some(paths[i].clone());
        }
        i = i + 1;
    }
    None
}

/// The matches of a code search: each repository with its first path ending in `plugin.yml`.
pub open spec fn code_matches(g: Seq<(Seq<char>, Seq<Seq<char>>)>) -> Seq<(Seq<char>, Option<Seq<char>>)> {
    g.map_values(|e: (Seq<char>, Seq<Seq<char>>)| (e.0, first_ending(e.1, "plugin.yml"@)))
}

/// The matches of a year-sharded search: each repository with its first path.
pub open spec fn first_path_matches(g: Seq<(Seq<char>, Seq<Seq<char>>)>) -> Seq<(Seq<char>, Option<Seq<char>>)> {
    g.map_values(
        |e: (Seq<char>, Seq<Seq<char>>)|
            (
                e.0,
                if e.1.len() > 0 {
                    Some(e.1[0])
                } else {
                    None
                },
            ),
    )
}

/// The matches of a topic search: each repository, with no path.
pub open spec fn topic_matches(g: Seq<(Seq<char>, Seq<Seq<char>>)>) -> Seq<(Seq<char>, Option<Seq<char>>)> {
    g.map_values(|e: (Seq<char>, Seq<Seq<char>>)| (e.0, None::<Seq<char>>))
}

/// The three ways a search turns its groups into matches.
pub enum PathChoice {
    /// The first path ending in `plugin.yml` (code search).
    PluginYml,
    /// The first path (year-sharded search).
    First,
    /// No path (topic search).
    NoPath,
}

/// The matches made from groups by a path choice.
pub open spec fn matches_of(g: Seq<(Seq<char>, Seq<Seq<char>>)>, choice: PathChoice) -> Seq<
    (Seq<char>, Option<Seq<char>>),
> {
    match choice {
        PathChoice::PluginYml => code_matches(g),
        PathChoice::First => first_path_matches(g),
        PathChoice::NoPath => topic_matches(g),
    }
}

impl RepoGroups {
    /// One match per repository, in group order, with the path the choice picks.
    pub fn to_matches(&self, choice: PathChoice) -> (res: Vec<RepoMatch>)
        ensures
            res@.map_values(|m: RepoMatch| match_view(m)) == matches_of(self.view(), choice),
    {
        let mut out: Vec<RepoMatch> = Vec::new();
        let mut i: usize = 0;
        while i < self.entries.len()
            invariant
                i <= self.entries@.len(),
                out@.map_values(|m: RepoMatch| match_view(m)) == matches_of(self.view(), choice).take(
                    i as int,
                ),
            decreases self.entries@.len() - i,
        {
            let e = &self.entries[i];
            let ghost ev = self.view()[i as int];
            assert(ev == (e.0@, e.1.deep_view()));
            let path = match choice {
                PathChoice::PluginYml => first_ending_exec(e.1.as_slice(), "plugin.yml"),
                PathChoice::First => {
                    if e.1.len() > 0 {
                        assert(e.1.deep_view()[0] == e.1@[0]@);
                        Some(e.1[0].clone())
                    } else {
                        None
                    }
                },
                PathChoice::NoPath => None,
            };
            let m = RepoMatch { full_name: e.0.clone(), plugin_yml_path: path };
            let ghost before = out@.map_values(|m: RepoMatch| match_view(m));
            out.push(m);
            assert(out@.map_values(|m: RepoMatch| match_view(m)) =~= before.push(match_view(m)));
            assert(matches_of(self.view(), choice).take(i + 1) =~= matches_of(self.view(), choice).take(
                i as int,
            ).push(matches_of(self.view(), choice)[i as int]));
            i = i + 1;
        }
        assert(matches_of(self.view(), choice).take(self.entries@.len() as int) =~= matches_of(
            self.view(),
            choice,
        ));
        out
    }
}

/// The additions whose repository is not among `names`, in order.
pub open spec fn new_additions(
    adds: Seq<(Seq<char>, Option<Seq<char>>)>,
    names: Seq<Seq<char>>,
) -> Seq<(Seq<char>, Option<Seq<char>>)>
    decreases adds.len(),
{
    if adds.len() == 0 {
        adds
    } else if names.contains(adds.last().0) {
        new_additions(adds.drop_last(), names)
    } else {
        new_additions(adds.drop_last(), names).push(adds.last())
    }
}

/// Appends to `base` the additions whose repository `base` did not hold before.
pub fn merge_repo_matches(base: &mut Vec<RepoMatch>, additions: Vec<RepoMatch>)
    ensures
        final(base)@.map_values(|m: RepoMatch| match_view(m)) == old(base)@.map_values(
            |m: RepoMatch| match_view(m),
        ) + new_additions(
            additions@.map_values(|m: RepoMatch| match_view(m)),
            old(base)@.map_values(|m: RepoMatch| m.full_name@),
        ),
{
    let ghost names = base@.map_values(|m: RepoMatch| m.full_name@);
    let ghost start = base@.map_values(|m: RepoMatch| match_view(m));
    let mut existing: Vec<String> = Vec::new();
    let mut k: usize = 0;
    while k < base.len()
        invariant
            k <= base@.len(),
            names == base@.map_values(|m: RepoMatch| m.full_name@),
            start == base@.map_values(|m: RepoMatch| match_view(m)),
            existing.deep_view() == names.take(k as int),
        decreases base@.len() - k,
    {
        let ghost before = existing.deep_view();
        existing.push(base[k].full_name.clone());
        assert(existing.deep_view() =~= names.take(k + 1)) by {
            assert(existing.deep_view() =~= before.push(base@[k as int].full_name@));
        }
        k = k + 1;
    }
    assert(names.take(base@.len() as int) =~= names);
    let ghost adds = additions@.map_values(|m: RepoMatch| match_view(m));
    let total = additions.len();
    let mut rest = additions;
    let mut i: usize = 0;
    assert(adds.take(0) =~= Seq::<(Seq<char>, Option<Seq<char>>)>::empty());
    assert(rest@ =~= additions@.skip(0));
    while rest.len() > 0
        invariant
            existing.deep_view() == names,
            total == additions@.len(),
            adds == additions@.map_values(|m: RepoMatch| match_view(m)),
            i <= additions@.len(),
            rest@ == additions@.skip(i as int),
            base@.map_values(|m: RepoMatch| match_view(m)) == start + new_additions(
                adds.take(i as int),
                names,
            ),
        decreases rest@.len(),
    {
        let m = rest.remove(0);
        assert(m == additions@[i as int]);
        assert(rest@ =~= additions@.skip(i + 1));
        let ghost pre = adds.take(i + 1);
        assert(pre.drop_last() =~= adds.take(i as int));
        assert(pre.last() == match_view(m));
        if !contains_str(existing.as_slice(), m.full_name.as_str()) {
            let ghost before = base@.map_values(|m: RepoMatch| match_view(m));
            base.push(m);
            assert(base@.map_values(|m: RepoMatch| match_view(m)) =~= before.push(match_view(m)));
        }
        i = i + 1;
    }
    assert(adds.take(i as int) =~= adds);
}

/// The page to fetch after a page with `count` results: the next one, while pages are
/// full (100 results) and the tenth page is not reached.
pub open spec fn next_page(page: u32, count: nat) -> Option<u32> {
    if count >= 100 && page < 10 {
        Some((page + 1) as u32)
    } else {
        None
    }
}

/// The page to fetch next during a search, if any.
pub fn next_search_page(page: u32, count: usize) -> (res: Option<u32>)
    ensures
        res == next_page(page, count as nat),
{
    if count >= 100 && page < 10 {
        Some(page + 1)
    } else {
        None
    }
}

/// What a search does with the answer to one page.
#[derive(PartialEq, Eq, Structural)]
pub enum SearchDecision {
    /// Stop; the matches recorded so far are the result.
    Finish,
    /// The code search has this many results, more than GitHub serves: split it.
    Shard(u64),
    /// Record the page's items, then fetch this page next, if any.
    Record(Option<u32>),
}

/// The decision on a code search page: a failed page ends the search with the matches
/// so far (none when it is the first); a first page with more results than GitHub serves
/// asks for sharding; an empty later page ends the search; any other page is recorded and
/// followed by the next page while pages are full and the tenth is not reached.
pub open spec fn code_page_decision(page: u32, answer: Option<(u64, nat)>) -> SearchDecision {
    match answer {
        None => SearchDecision::Finish,
        Some((total, count)) => if page == 1 && total > SHARD_LIMIT {
            SearchDecision::Shard(total)
        } else if page > 1 && count == 0 {
            SearchDecision::Finish
        } else {
            SearchDecision::Record(next_page(page, count))
        },
    }
}

/// What a code search does after the answer to `page`: `None` when the request failed,
/// else the result count reported and the number of items on the page.
pub fn code_search_step(page: u32, answer: Option<(u64, usize)>) -> (res: SearchDecision)
    ensures
        res == code_page_decision(
            page,
            match answer {
                Some((t, n)) => Some((t, n as nat)),
                None => None,
            },
        ),
{
    match answer {
        None => SearchDecision::Finish,
        Some((total, count)) => if page == 1 && needs_sharding(total) {
            SearchDecision::Shard(total)
        } else if page > 1 && count == 0 {
            SearchDecision::Finish
        } else {
            SearchDecision::Record(next_search_page(page, count))
        },
    }
}

/// The decision on a repository (topic) search page: a failed or empty page ends the
/// search; any other page is recorded and followed by the next page while pages are full
/// and the tenth is not reached.
pub open spec fn topic_page_decision(page: u32, answer: Option<nat>) -> SearchDecision {
    match answer {
        None => SearchDecision::Finish,
        Some(count) => if count == 0 {
            SearchDecision::Finish
        } else {
            SearchDecision::Record(next_page(page, count))
        },
    }
}

/// What a topic search does after the answer to `page`: `None` when the request failed,
/// else the number of items on the page.
pub fn topic_search_step(page: u32, answer: Option<usize>) -> (res: SearchDecision)
    ensures
        res == topic_page_decision(
            page,
            match answer {
                Some(n) => Some(n as nat),
                None => None,
            },
        ),
{
    match answer {
        None => SearchDecision::Finish,
        Some(count) => if count == 0 {
            SearchDecision::Finish
        } else {
            SearchDecision::Record(next_search_page(page, count))
        },
    }
}

/// Whether a code search has more results than GitHub serves, so that it must be split.
pub fn needs_sharding(total_count: u64) -> (res: bool)
    ensures
        res == (total_count > SHARD_LIMIT),
{
    total_count > SHARD_LIMIT
}

/// A search query restricted to repositories pushed after `date`.
pub fn query_pushed_since(query: &str, date: &str) -> (res: String)
    ensures
        res@ == query@ + " pushed:>"@ + date@,
{
    let mut s = String::from_str(query);
    s.append(" pushed:>");
    s.append(date);
    s
}

/// The code search restricted to repositories pushed during `year`.
pub open spec fn year_query(year: nat) -> Seq<char> {
    CODE_SEARCH_QUERY@ + " pushed:"@ + decimal(year) + "-01-01.."@ + decimal(year) + "-12-31"@
}

/// The code search for one year of a sharded full scan.
pub fn code_query_for_year(year: u64) -> (res: String)
    ensures
        res@ == year_query(year as nat),
{
    let y = decimal_string(year);
    let mut s = String::from_str(CODE_SEARCH_QUERY);
    s.append(" pushed:");
    s.append(y.as_str());
    s.append("-01-01..");
    s.append(y.as_str());
    s.append("-12-31");
    s
}

/// A topic query, restricted to repositories pushed after `since` when given.
pub fn topic_query_text(topic_query: &str, since: Option<&str>) -> (res: String)
    ensures
        since matches Some(d) ==> res@ == topic_query@ + " pushed:>"@ + d@,
        since is None ==> res@ == topic_query@,
{
    match since {
        Some(d) => query_pushed_since(topic_query, d),
        None => String::from_str(topic_query),
    }
}

/// The owner and name of a repository full name made of exactly two `/`-separated parts.
pub open spec fn repo_parts(full_name: Seq<char>) -> Option<(Seq<char>, Seq<char>)> {
    let parts = split_char(full_name, '/');
    if parts.len() == 2 {
        Some((parts[0], parts[1]))
    } else {
        None
    }
}

/// The owner and name of a repository to process; `None` for a malformed full name.
pub fn split_repo_full_name(full_name: &str) -> (res: Option<(String, String)>)
    ensures
        res matches Some(p) ==> repo_parts(full_name@) == Some((p.0@, p.1@)),
        res is None ==> repo_parts(full_name@) is None,
{
    let c = crate::text::chars_of(full_name);
    let parts = split_char_exec(&c, '/');
    if parts.len() == 2 {
        assert(parts.deep_view()[0] == parts@[0]@);
        assert(parts.deep_view()[1] == parts@[1]@);
        Some((string_from_chars(&parts[0]), string_from_chars(&parts[1])))
    } else {
        None
    }
}

/// A repository that is not indexed: a template, archived, or tagged `noindex`.
pub open spec fn skipped_repo(repo: Repository) -> bool {
    repo.is_template || repo.archived || repo.topics.deep_view().contains("noindex"@)
}

/// Whether a repository is left out of the index.
pub fn should_skip_repo(repo: &Repository) -> (res: bool)
    ensures
        res == skipped_repo(*repo),
{
    repo.is_template || repo.archived || contains_str(repo.topics.as_slice(), "noindex")
}

/// A tree entry that is a `plugin.yml` under `src/main/resources`.
pub open spec fn is_plugin_yml_entry(e: GitTreeEntry) -> bool {
    e.entry_type@ == "blob"@ && ends_with(e.path@, "plugin.yml"@) && contains_seq(
        e.path@,
        "src/main/resources"@,
    )
}

/// The first `plugin.yml` entry of a tree.
pub open spec fn first_plugin_yml(tree: Seq<GitTreeEntry>) -> Option<Seq<char>>
    decreases tree.len(),
{
    if tree.len() == 0 {
        None
    } else if is_plugin_yml_entry(tree[0]) {
        Some(tree[0].path@)
    } else {
        first_plugin_yml(tree.drop_first())
    }
}

/// The path of the first `plugin.yml` under `src/main/resources` in a git tree.
pub fn find_plugin_yml_in_tree(tree: &[GitTreeEntry]) -> (res: Option<String>)
    ensures
        opt_text(res) == first_plugin_yml(tree@),
{
    let resources = crate::text::chars_of("src/main/resources");
    let mut i: usize = 0;
    assert(tree@.skip(0) =~= tree@);
    while i < tree.len()
        invariant
            resources@ == "src/main/resources"@,
            i <= tree@.len(),
            first_plugin_yml(tree@.skip(i as int)) == first_plugin_yml(tree@),
        decreases tree@.len() - i,
    {
        let ghost rest = tree@.skip(i as int);
        assert(rest[0] == tree@[i as int]);
        assert(rest.drop_first() =~= tree@.skip(i + 1));
        let e = &tree[i];
        let path = crate::text::chars_of(e.path.as_str());
        if str_eq(e.entry_type.as_str(), "blob") && str_ends_with(e.path.as_str(), "plugin.yml")
            && contains_exec(&path, &resources) {
            return Some(e.path.clone());
        }
        i = i + 1;
    }
    None
}

/// Recording a name keeps the names already recorded, and adds at most this name, at the
/// end.
proof fn lemma_group_add_names(g: Seq<(Seq<char>, Seq<Seq<char>>)>, name: Seq<char>, paths: Seq<Seq<char>>)
    ensures
        group_add(g, name, paths).len() >= g.len(),
        group_add(g, name, paths).len() <= g.len() + 1,
        forall|j: int| 0 <= j < g.len() ==> (#[trigger] group_add(g, name, paths)[j]).0 == g[j].0,
        group_add(g, name, paths).len() == g.len() + 1 ==> group_add(g, name, paths)[g.len() as int].0 == name,
{
}

/// A topic search page never queues a repository that is already indexed, nor a fork
/// unless the query asks for forks: the groups recorded before keep their names, and
/// every group it adds is named after a hit on the page that is neither.
pub proof fn lemma_topic_groups_skip_indexed(
    g: Seq<(Seq<char>, Seq<Seq<char>>)>,
    items: Seq<Repository>,
    existing: Seq<Seq<char>>,
    forks_wanted: bool,
)
    ensures
        topic_groups(g, items, existing, forks_wanted).len() >= g.len(),
        forall|j: int| 0 <= j < g.len() ==> (#[trigger] topic_groups(g, items, existing, forks_wanted)[j]).0 == g[j].0,
        forall|j: int|
            g.len() <= j < topic_groups(g, items, existing, forks_wanted).len() ==> {
                let name = (#[trigger] topic_groups(g, items, existing, forks_wanted)[j]).0;
                &&& !existing.contains(name)
                &&& exists|k: int|
                    0 <= k < items.len() && items[k].full_name@ == name && !(items[k].fork && !forks_wanted)
            },
    decreases items.len(),
{
    if items.len() > 0 {
        let rest = items.drop_last();
        lemma_topic_groups_skip_indexed(g, rest, existing, forks_wanted);
        let prev = topic_groups(g, rest, existing, forks_wanted);
        let it = items.last();
        let cur = topic_groups(g, items, existing, forks_wanted);
        if accepted_topic_item(it, existing, forks_wanted) {
            lemma_group_add_names(prev, it.full_name@, Seq::<Seq<char>>::empty());
        }
        assert forall|j: int|
            g.len() <= j < cur.len() implies {
                let name = (#[trigger] cur[j]).0;
                &&& !existing.contains(name)
                &&& exists|k: int|
                    0 <= k < items.len() && items[k].full_name@ == name && !(items[k].fork && !forks_wanted)
            } by {
            if j < prev.len() {
                assert(cur[j].0 == prev[j].0);
                let k = choose|k: int|
                    0 <= k < rest.len() && rest[k].full_name@ == prev[j].0 && !(rest[k].fork && !forks_wanted);
                assert(items[k] == rest[k]);
            } else {
                assert(j == prev.len());
                assert(cur[j].0 == it.full_name@);
                assert(items[items.len() - 1] == it);
            }
        }
        assert forall|j: int| 0 <= j < g.len() implies (#[trigger] cur[j]).0 == g[j].0 by {
            assert(prev[j].0 == g[j].0);
        }
    }
}

/// A code search page never queues a fork or a repository that is already indexed: the
/// groups recorded before keep their names, and every group it adds is named after a hit
/// on the page from a repository that is neither.
pub proof fn lemma_code_groups_skip_indexed(
    g: Seq<(Seq<char>, Seq<Seq<char>>)>,
    items: Seq<CodeSearchItem>,
    existing: Seq<Seq<char>>,
)
    ensures
        code_groups(g, items, existing).len() >= g.len(),
        forall|j: int| 0 <= j < g.len() ==> (#[trigger] code_groups(g, items, existing)[j]).0 == g[j].0,
        forall|j: int|
            g.len() <= j < code_groups(g, items, existing).len() ==> {
                let name = (#[trigger] code_groups(g, items, existing)[j]).0;
                &&& !existing.contains(name)
                &&& exists|k: int|
                    0 <= k < items.len() && items[k].repository.full_name@ == name && !items[k].repository.fork
            },
    decreases items.len(),
{
    if items.len() > 0 {
        let rest = items.drop_last();
        lemma_code_groups_skip_indexed(g, rest, existing);
        let prev = code_groups(g, rest, existing);
        let it = items.last();
        let cur = code_groups(g, items, existing);
        if accepted_code_item(it, existing) {
            lemma_group_add_names(prev, it.repository.full_name@, seq![it.path@]);
        }
        assert forall|j: int|
            g.len() <= j < cur.len() implies {
                let name = (#[trigger] cur[j]).0;
                &&& !existing.contains(name)
                &&& exists|k: int|
                    0 <= k < items.len() && items[k].repository.full_name@ == name && !items[k].repository.fork
            } by {
            if j < prev.len() {
                assert(cur[j].0 == prev[j].0);
                let k = choose|k: int|
                    0 <= k < rest.len() && rest[k].repository.full_name@ == prev[j].0 && !rest[k].repository.fork;
                assert(items[k] == rest[k]);
            } else {
                assert(j == prev.len());
                assert(cur[j].0 == it.repository.full_name@);
                assert(items[items.len() - 1] == it);
            }
        }
        assert forall|j: int| 0 <= j < g.len() implies (#[trigger] cur[j]).0 == g[j].0 by {
            assert(prev[j].0 == g[j].0);
        }
    }
}

/// Each repository appears once among the matches made from well-formed groups.
pub proof fn lemma_matches_distinct(g: Seq<(Seq<char>, Seq<Seq<char>>)>, choice: PathChoice)
    requires
        distinct_names(g),
    ensures
        forall|i: int, j: int|
            0 <= i < matches_of(g, choice).len() && 0 <= j < matches_of(g, choice).len() && i != j
                ==> matches_of(g, choice)[i].0 != matches_of(g, choice)[j].0,
{
    assert forall|i: int, j: int|
        0 <= i < matches_of(g, choice).len() && 0 <= j < matches_of(g, choice).len() && i != j implies matches_of(
        g,
        choice,
    )[i].0 != matches_of(g, choice)[j].0 by {
        assert(matches_of(g, choice)[i].0 == g[i].0);
        assert(matches_of(g, choice)[j].0 == g[j].0);
    }
}

/// The additions kept by a merge are among the additions, none of them is among the
/// base's repositories, and kept additions with distinct repositories stay distinct.
proof fn lemma_new_additions(adds: Seq<(Seq<char>, Option<Seq<char>>)>, names: Seq<Seq<char>>)
    ensures
        forall|i: int|
            0 <= i < new_additions(adds, names).len() ==> !names.contains(
                #[trigger] new_additions(adds, names)[i].0,
            ) && adds.contains(new_additions(adds, names)[i]),
        (forall|i: int, j: int| 0 <= i < adds.len() && 0 <= j < adds.len() && i != j ==> adds[i].0 != adds[j].0)
            ==> forall|i: int, j: int|
            0 <= i < new_additions(adds, names).len() && 0 <= j < new_additions(adds, names).len() && i
                != j ==> new_additions(adds, names)[i].0 != new_additions(adds, names)[j].0,
    decreases adds.len(),
{
    if adds.len() > 0 {
        let rest = adds.drop_last();
        lemma_new_additions(rest, names);
        let prev = new_additions(rest, names);
        assert forall|i: int| 0 <= i < prev.len() implies adds.contains(#[trigger] prev[i]) by {
            assert(!names.contains(prev[i].0));
            assert(rest.contains(prev[i]));
            let k = choose|k: int| 0 <= k < rest.len() && rest[k] == prev[i];
            assert(adds[k] == rest[k]);
        }
        if !names.contains(adds.last().0) {
            assert(adds[adds.len() - 1] == adds.last());
        }
        if (forall|i: int, j: int| 0 <= i < adds.len() && 0 <= j < adds.len() && i != j ==> adds[i].0 != adds[j].0) {
            assert(forall|i: int, j: int| 0 <= i < rest.len() && 0 <= j < rest.len() && i != j ==> rest[i].0 != rest[j].0) by {
                assert forall|i: int, j: int| 0 <= i < rest.len() && 0 <= j < rest.len() && i != j implies rest[i].0 != rest[j].0 by {
                    assert(adds[i] == rest[i] && adds[j] == rest[j]);
                }
            }
            if !names.contains(adds.last().0) {
                assert forall|i: int| 0 <= i < prev.len() implies (#[trigger] prev[i]).0 != adds.last().0 by {
                    assert(!names.contains(prev[i].0));
                    assert(rest.contains(prev[i]));
                    let k = choose|k: int| 0 <= k < rest.len() && rest[k] == prev[i];
                    assert(adds[k] == rest[k]);
                    assert(k != adds.len() - 1);
                }
            }
        }
    }
}

/// After a merge, every repository appears once, provided it did in the base and in the
/// additions: the additions already in the base are dropped.
pub proof fn lemma_merge_distinct(
    base: Seq<(Seq<char>, Option<Seq<char>>)>,
    adds: Seq<(Seq<char>, Option<Seq<char>>)>,
)
    requires
        forall|i: int, j: int| 0 <= i < base.len() && 0 <= j < base.len() && i != j ==> base[i].0 != base[j].0,
        forall|i: int, j: int| 0 <= i < adds.len() && 0 <= j < adds.len() && i != j ==> adds[i].0 != adds[j].0,
    ensures
        ({
            let merged = base + new_additions(adds, base.map_values(|m: (Seq<char>, Option<Seq<char>>)| m.0));
            forall|i: int, j: int| 0 <= i < merged.len() && 0 <= j < merged.len() && i != j ==> merged[i].0 != merged[j].0
        }),
{
    let names = base.map_values(|m: (Seq<char>, Option<Seq<char>>)| m.0);
    lemma_new_additions(adds, names);
    let kept = new_additions(adds, names);
    let merged = base + kept;
    assert forall|i: int, j: int| 0 <= i < merged.len() && 0 <= j < merged.len() && i != j implies merged[i].0 != merged[j].0 by {
        if i < base.len() && j >= base.len() {
            assert(!names.contains(kept[j - base.len()].0));
            assert(names[i] == base[i].0);
        } else if j < base.len() && i >= base.len() {
            assert(!names.contains(kept[i - base.len()].0));
            assert(names[j] == base[j].0);
        }
    }
}

/// The outcome of discovering: new entries, and the repositories that failed with why.
pub struct DiscoverResult {
    pub new_plugins: Vec<Plugin>,
    pub errors: Vec<(String, String)>,
}

/// Entries not seen before, in order, and the ids seen afterwards: an entry whose id is
/// already seen is dropped.
pub open spec fn dedup_plugins(ps: Seq<Plugin>, seen: Seq<Seq<char>>) -> (Seq<Plugin>, Seq<Seq<char>>)
    decreases ps.len(),
{
    if ps.len() == 0 {
        (Seq::<Plugin>::empty(), seen)
    } else {
        let prev = dedup_plugins(ps.drop_last(), seen);
        if prev.1.contains(ps.last().id@) {
            prev
        } else {
            (prev.0.push(ps.last()), prev.1.push(ps.last().id@))
        }
    }
}

/// The entries kept by deduplication have distinct ids, none of them among the ids seen
/// before, and the seen ids grow by exactly the kept ids.
pub proof fn lemma_dedup_distinct(ps: Seq<Plugin>, seen: Seq<Seq<char>>)
    ensures
        forall|i: int|
            0 <= i < dedup_plugins(ps, seen).0.len() ==> !seen.contains(
                #[trigger] dedup_plugins(ps, seen).0[i].id@,
            ),
        forall|i: int, j: int|
            0 <= i < dedup_plugins(ps, seen).0.len() && 0 <= j < dedup_plugins(ps, seen).0.len() && i
                != j ==> dedup_plugins(ps, seen).0[i].id@ != dedup_plugins(ps, seen).0[j].id@,
        dedup_plugins(ps, seen).1 == seen + dedup_plugins(ps, seen).0.map_values(|p: Plugin| p.id@),
    decreases ps.len(),
{
    if ps.len() > 0 {
        lemma_dedup_distinct(ps.drop_last(), seen);
        let (kept, now) = dedup_plugins(ps.drop_last(), seen);
        let p = ps.last();
        if !now.contains(p.id@) {
            let kept2 = kept.push(p);
            assert(kept2.map_values(|q: Plugin| q.id@) =~= kept.map_values(|q: Plugin| q.id@).push(p.id@));
            assert(now.push(p.id@) =~= seen + kept2.map_values(|q: Plugin| q.id@));
            assert forall|i: int| 0 <= i < kept.len() implies (#[trigger] kept[i]).id@ != p.id@ by {
                assert(now[seen.len() + i] == kept[i].id@);
            }
            assert(!seen.contains(p.id@)) by {
                if seen.contains(p.id@) {
                    let k = choose|k: int| 0 <= k < seen.len() && seen[k] == p.id@;
                    assert(now[k] == p.id@);
                }
            }
        }
    }
}

/// All entries built, in the order of the results.
pub open spec fn built_plugins(results: Seq<(String, Result<Vec<Plugin>, String>)>) -> Seq<Plugin>
    decreases results.len(),
{
    if results.len() == 0 {
        Seq::<Plugin>::empty()
    } else {
        built_plugins(results.drop_last()) + match results.last().1 {
            Ok(ps) => ps@,
            Err(_) => Seq::<Plugin>::empty(),
        }
    }
}

/// The repositories that failed, with their errors, in order.
pub open spec fn failed_repos(results: Seq<(String, Result<Vec<Plugin>, String>)>) -> Seq<
    (Seq<char>, Seq<char>),
>
    decreases results.len(),
{
    if results.len() == 0 {
        Seq::empty()
    } else {
        match results.last().1 {
            Ok(_) => failed_repos(results.drop_last()),
            Err(e) => failed_repos(results.drop_last()).push((results.last().0@, e@)),
        }
    }
}

/// The discovery outcome from the per-repository results: entries whose id is already
/// indexed or was already found are dropped; failures are listed with their errors.
pub fn collect_discovered(
    results: Vec<(String, Result<Vec<Plugin>, String>)>,
    existing_ids: &[String],
) -> (res: DiscoverResult)
    ensures
        res.new_plugins@ == dedup_plugins(built_plugins(results@), existing_ids.deep_view()).0,
        res.errors@.map_values(|e: (String, String)| (e.0@, e.1@)) == failed_repos(results@),
{
    let ghost all = results@;
    let total = results.len();
    let mut seen: Vec<String> = Vec::new();
    let mut k: usize = 0;
    while k < existing_ids.len()
        invariant
            k <= existing_ids@.len(),
            existing_ids.deep_view().len() == existing_ids@.len(),
            seen.deep_view() == existing_ids.deep_view().take(k as int),
        decreases existing_ids@.len() - k,
    {
        let ghost before = seen.deep_view();
        seen.push(existing_ids[k].clone());
        assert(seen.deep_view() =~= existing_ids.deep_view().take(k + 1)) by {
            assert(seen.deep_view() =~= before.push(existing_ids@[k as int]@));
        }
        k = k + 1;
    }
    assert(existing_ids.deep_view().take(existing_ids@.len() as int) =~= existing_ids.deep_view());
    let ghost seen0 = seen.deep_view();
    let mut new_plugins: Vec<Plugin> = Vec::new();
    let mut errors: Vec<(String, String)> = Vec::new();
    let mut rest = results;
    let mut i: usize = 0;
    assert(rest@ =~= all.skip(0));
    assert(all.take(0) =~= Seq::<(String, Result<Vec<Plugin>, String>)>::empty());
    while rest.len() > 0
        invariant
            total == all.len(),
            i <= all.len(),
            rest@ == all.skip(i as int),
            new_plugins@ == dedup_plugins(built_plugins(all.take(i as int)), seen0).0,
            seen.deep_view() == dedup_plugins(built_plugins(all.take(i as int)), seen0).1,
            errors@.map_values(|e: (String, String)| (e.0@, e.1@)) == failed_repos(all.take(i as int)),
        decreases rest@.len(),
    {
        let (name, r) = rest.remove(0);
        assert((name, r) == all[i as int]);
        assert(rest@ =~= all.skip(i + 1));
        let ghost pre = all.take(i + 1);
        assert(pre.drop_last() =~= all.take(i as int));
        assert(pre.last() == all[i as int]);
        let ghost done = built_plugins(all.take(i as int));
        match r {
            Ok(ps) => {
                let ghost batch = ps@;
                let batch_len = ps.len();
                let mut left = ps;
                let mut j: usize = 0;
                assert(batch.take(0) =~= Seq::<Plugin>::empty());
                assert(done + batch.take(0) =~= done);
                assert(left@ =~= batch.skip(0));
                while left.len() > 0
                    invariant
                        batch_len == batch.len(),
                        j <= batch.len(),
                        left@ == batch.skip(j as int),
                        new_plugins@ == dedup_plugins(done + batch.take(j as int), seen0).0,
                        seen.deep_view() == dedup_plugins(done + batch.take(j as int), seen0).1,
                    decreases left@.len(),
                {
                    let p = left.remove(0);
                    assert(p == batch[j as int]);
                    assert(left@ =~= batch.skip(j + 1));
                    let ghost cur = done + batch.take(j + 1);
                    assert(cur.drop_last() =~= done + batch.take(j as int));
                    assert(cur.last() == p);
                    if !contains_str(seen.as_slice(), p.id.as_str()) {
                        let ghost before = seen.deep_view();
                        seen.push(p.id.clone());
                        assert(seen.deep_view() =~= before.push(p.id@));
                        new_plugins.push(p);
                    }
                    j = j + 1;
                }
                assert(batch.take(j as int) =~= batch);
                assert(built_plugins(pre) == done + batch);
            },
            Err(e) => {
                let ghost before = errors@.map_values(|e: (String, String)| (e.0@, e.1@));
                errors.push((name, e));
                assert(errors@.map_values(|e: (String, String)| (e.0@, e.1@)) =~= before.push(
                    (name@, e@),
                ));
                assert(built_plugins(pre) =~= done);
            },
        }
        i = i + 1;
    }
    assert(all.take(i as int) =~= all);
    DiscoverResult { new_plugins, errors }
}

} // verus!
