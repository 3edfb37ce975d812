//! Building index entries from a repository: README post-processing,
//! icon and gallery discovery in the git tree, license resolution and the
//! conversion of a `plugin.yml` into a [`Plugin`].
pub mod image;
pub mod link;

use vstd::prelude::*;

use crate::github::types::{GitTreeEntry, Release, ReleaseAsset, Repository};
use crate::nukkit::NukkitPluginYml;
use crate::plugin::{Author, Dependency, GalleryItem, License, Links, Plugin, Version, VersionFile};
use crate::text::{
    chars_of, ends_with, split_once, split_once_exec, starts_with, str_ends_with, str_eq,
    str_starts_with, string_from_chars, strip_prefix, strip_prefix_exec,
};
use crate::github::types::Contributor;
use image::{gallery_extended, html_images_result, md_images_result, process_html_images, process_md_images};
use link::{html_links_result, md_links_result, process_html_links, process_md_links};
use crate::util::{github_owner_repo, github_owner_repo_exec};

verus! {

/// The place a README belongs to: used to turn relative paths into absolute URLs.
pub struct PostProcessContext<'a> {
    pub owner: &'a str,
    pub repo: &'a str,
    pub branch: &'a str,
}

/// One match of a regular expression: the byte offset where it starts, and the text
/// of each capture group (group 0 is the whole match; a group that took no part is `None`).
pub struct CaptureMatch {
    pub start: usize,
    pub groups: Vec<Option<String>>,
}

/// A match as plain values.
pub open spec fn capture_view(m: CaptureMatch) -> (nat, Seq<Option<Seq<char>>>) {
    (m.start as nat, m.groups.deep_view())
}

/// The matches that `regex::Regex::new(pattern)` finds with `captures_iter` in `haystack`,
/// in order; `None` when the pattern does not compile.
pub uninterp spec fn regex_captures(pattern: Seq<char>, haystack: Seq<char>) -> Option<
    Seq<(nat, Seq<Option<Seq<char>>>)>,
>;

/// Compiles `pattern` with `regex::Regex::new` and lists every match of
/// `Regex::captures_iter` over `haystack`. The contract claims that the result is a
/// function of the pattern and the text (named [`regex_captures`]), and, as the regex
/// documentation says, that group 0 of each match is present (it is the whole match).
#[verifier::external_body]
pub(crate) fn find_captures(pattern: &str, haystack: &str) -> (res: Option<Vec<CaptureMatch>>)
    ensures
        res matches Some(v) ==> regex_captures(pattern@, haystack@) == Some(
            v@.map_values(|m: CaptureMatch| capture_view(m)),
        ),
        res is None ==> regex_captures(pattern@, haystack@) is None,
        res matches Some(v) ==> forall|i: int|
            0 <= i < v@.len() ==> v@[i].groups@.len() >= 1 && v@[i].groups@[0] is Some,
{
    let re = regex::Regex::new(pattern).ok()?;
    Some(
        re.captures_iter(haystack).map(|c| CaptureMatch {
            start: c.get(0).map_or(0, |m| m.start()),
            groups: c.iter().map(|g| g.map(|m| m.as_str().to_string())).collect(),
        }).collect(),
    )
}

/// Capture group `i` of a match, if the match has it and the group took part.
pub open spec fn group(m: (nat, Seq<Option<Seq<char>>>), i: int) -> Option<Seq<char>> {
    if 0 <= i < m.1.len() {
        m.1[i]
    } else {
        None
    }
}

/// The text of capture group `i` of a match.
pub fn group_text(m: &CaptureMatch, i: usize) -> (res: Option<String>)
    ensures
        res matches Some(s) ==> group(capture_view(*m), i as int) == Some(s@),
        res is None ==> group(capture_view(*m), i as int) is None,
{
    if i < m.groups.len() {
        assert(m.groups.deep_view()[i as int] == m.groups@[i as int].deep_view());
        match &m.groups[i] {
            Some(s) => Some(s.clone()),
            None => None,
        }
    } else {
        None
    }
}

/// Today's date as `YYYY-MM-DD` (`chrono::Utc::now`, formatted). It depends on the clock,
/// so nothing is claimed of it.
#[verifier::external_body]
pub(crate) fn now_date() -> String {
    chrono::Utc::now().format("%Y-%m-%d").to_string()
}

/// A raw-content URL of a file in a repository.
pub open spec fn raw_url(owner: Seq<char>, repo: Seq<char>, branch: Seq<char>, path: Seq<char>) -> Seq<
    char,
> {
    "https://raw.githubusercontent.com/"@ + owner + "/"@ + repo + "/"@ + branch + "/"@ + path
}

/// The raw-content URL of `path` in `owner/repo` at `branch`.
pub fn to_raw_url(owner: &str, repo: &str, branch: &str, path: &str) -> (res: String)
    ensures
        res@ == raw_url(owner@, repo@, branch@, path@),
{
    let mut s = String::new();
    s.append("https://raw.githubusercontent.com/");
    s.append(owner);
    s.append("/");
    s.append(repo);
    s.append("/");
    s.append(branch);
    s.append("/");
    s.append(path);
    s
}

/// Some entry of the tree has exactly this path.
pub open spec fn tree_has_path(tree: Seq<GitTreeEntry>, path: Seq<char>) -> bool {
    exists|i: int| 0 <= i < tree.len() && tree[i].path@ == path
}

fn tree_has_path_exec(tree: &[GitTreeEntry], path: &str) -> (res: bool)
    ensures
        res == tree_has_path(tree@, path@),
{
    let mut i: usize = 0;
    while i < tree.len()
        invariant
            i <= tree@.len(),
            forall|k: int| 0 <= k < i ==> tree@[k].path@ != path@,
        decreases tree@.len() - i,
    {
        if str_eq(tree[i].path.as_str(), path) {
            return true;
        }
        i = i + 1;
    }
    false
}

/// The first of the conventional icon locations that the tree holds.
pub open spec fn logo_path(tree: Seq<GitTreeEntry>) -> Option<Seq<char>> {
    if tree_has_path(tree, ".github/img/logo.png"@) {
        Some(".github/img/logo.png"@)
    } else if tree_has_path(tree, ".github/img/icon.png"@) {
        Some(".github/img/icon.png"@)
    } else if tree_has_path(tree, "logo.png"@) {
        Some("logo.png"@)
    } else if tree_has_path(tree, "icon.png"@) {
        Some("icon.png"@)
    } else {
        None
    }
}

/// The places an icon is looked for, in order of preference.
pub open spec fn icon_locations() -> Seq<Seq<char>> {
    seq![".github/img/logo.png"@, ".github/img/icon.png"@, "logo.png"@, "icon.png"@]
}

/// The icon is found exactly when the tree holds a file at one of the icon locations, and
/// it is then the first location, in order of preference, that the tree holds.
pub proof fn lemma_logo_is_first_location(tree: Seq<GitTreeEntry>)
    ensures
        logo_path(tree) is None <==> forall|k: int, i: int|
            0 <= k < 4 && 0 <= i < tree.len() ==> (#[trigger] tree[i]).path@ != #[trigger] icon_locations()[k],
        logo_path(tree) matches Some(p) ==> exists|k: int|
            0 <= k < 4 && p == icon_locations()[k] && (exists|i: int|
                0 <= i < tree.len() && tree[i].path@ == p) && forall|k2: int, i: int|
                0 <= k2 < k && 0 <= i < tree.len() ==> (#[trigger] tree[i]).path@ != #[trigger] icon_locations()[k2],
{
    let l = icon_locations();
    assert(l[0] == ".github/img/logo.png"@);
    assert(l[1] == ".github/img/icon.png"@);
    assert(l[2] == "logo.png"@);
    assert(l[3] == "icon.png"@);
    if logo_path(tree) is None {
        assert forall|k: int, i: int| 0 <= k < 4 && 0 <= i < tree.len() implies (#[trigger] tree[i]).path@ != #[trigger] icon_locations()[k] by {
            if tree[i].path@ == l[k] {
                assert(tree_has_path(tree, l[k]));
            }
        }
    } else {
        let p = logo_path(tree).unwrap();
        let k: int = if p == l[0] && tree_has_path(tree, l[0]) {
            0
        } else if tree_has_path(tree, l[1]) && !tree_has_path(tree, l[0]) {
            1
        } else if tree_has_path(tree, l[2]) && !tree_has_path(tree, l[0]) && !tree_has_path(tree, l[1]) {
            2
        } else {
            3
        };
        assert(p == l[k]);
        assert(tree_has_path(tree, p));
        assert forall|k2: int, i: int| 0 <= k2 < k && 0 <= i < tree.len() implies (#[trigger] tree[i]).path@ != #[trigger] icon_locations()[k2] by {
            if tree[i].path@ == l[k2] {
                assert(tree_has_path(tree, l[k2]));
            }
        }
    }
}

/// The raw URL of the repository's icon: `.github/img/logo.png`, `.github/img/icon.png`,
/// `logo.png` or `icon.png`, the first one the tree holds.
pub fn find_logo_url(tree: &[GitTreeEntry], owner: &str, repo: &str, branch: &str) -> (res:
    Option<String>)
    ensures
        res matches Some(u) ==> logo_path(tree@) matches Some(p) && u@ == raw_url(
            owner@,
            repo@,
            branch@,
            p,
        ),
        res is None ==> logo_path(tree@) is None,
{
    if tree_has_path_exec(tree, ".github/img/logo.png") {
        return Some(to_raw_url(owner, repo, branch, ".github/img/logo.png"));
    }
    if tree_has_path_exec(tree, ".github/img/icon.png") {
        return Some(to_raw_url(owner, repo, branch, ".github/img/icon.png"));
    }
    if tree_has_path_exec(tree, "logo.png") {
        return Some(to_raw_url(owner, repo, branch, "logo.png"));
    }
    if tree_has_path_exec(tree, "icon.png") {
        return Some(to_raw_url(owner, repo, branch, "icon.png"));
    }
    None
}

/// A tree entry that is a gallery picture: a PNG file under `.github/img/` that is not
/// the logo or the icon.
pub open spec fn is_gallery_entry(e: GitTreeEntry) -> bool {
    &&& e.entry_type@ == "blob"@
    &&& starts_with(e.path@, ".github/img/"@)
    &&& ends_with(e.path@, ".png"@)
    &&& !ends_with(e.path@, "logo.png"@)
    &&& !ends_with(e.path@, "icon.png"@)
}

/// The paths of the gallery pictures of a tree, in tree order.
pub open spec fn gallery_paths(tree: Seq<GitTreeEntry>) -> Seq<Seq<char>>
    decreases tree.len(),
{
    if tree.len() == 0 {
        Seq::<Seq<char>>::empty()
    } else if is_gallery_entry(tree.last()) {
        gallery_paths(tree.drop_last()).push(tree.last().path@)
    } else {
        gallery_paths(tree.drop_last())
    }
}

/// `item` shows the picture at `url`, with no title, description or date.
pub open spec fn plain_gallery_item(item: GalleryItem, url: Seq<char>) -> bool {
    &&& item.url@ == url
    &&& item.title@ == Seq::<char>::empty()
    &&& item.description@ == Seq::<char>::empty()
    &&& item.created@ == Seq::<char>::empty()
}

fn is_gallery_entry_exec(e: &GitTreeEntry) -> (res: bool)
    ensures
        res == is_gallery_entry(*e),
{
    str_eq(e.entry_type.as_str(), "blob") && str_starts_with(e.path.as_str(), ".github/img/")
        && str_ends_with(e.path.as_str(), ".png") && !str_ends_with(e.path.as_str(), "logo.png")
        && !str_ends_with(e.path.as_str(), "icon.png")
}

/// The gallery pictures of a repository: every PNG under `.github/img/` other than the
/// logo and the icon, as raw URLs, in tree order.
pub fn find_gallery_items(tree: &[GitTreeEntry], owner: &str, repo: &str, branch: &str) -> (res:
    Vec<GalleryItem>)
    ensures
        res@.len() == gallery_paths(tree@).len(),
        forall|i: int|
            0 <= i < res@.len() ==> plain_gallery_item(
                #[trigger] res@[i],
                raw_url(owner@, repo@, branch@, gallery_paths(tree@)[i]),
            ),
{
    let mut out: Vec<GalleryItem> = Vec::new();
    let mut i: usize = 0;
    while i < tree.len()
        invariant
            i <= tree@.len(),
            out@.len() == gallery_paths(tree@.take(i as int)).len(),
            forall|k: int|
                0 <= k < out@.len() ==> plain_gallery_item(
                    #[trigger] out@[k],
                    raw_url(owner@, repo@, branch@, gallery_paths(tree@.take(i as int))[k]),
                ),
        decreases tree@.len() - i,
    {
        let ghost pre = tree@.take(i + 1);
        assert(pre.drop_last() =~= tree@.take(i as int));
        assert(pre.last() == tree@[i as int]);
        if is_gallery_entry_exec(&tree[i]) {
            let item = GalleryItem {
                url: to_raw_url(owner, repo, branch, tree[i].path.as_str()),
                title: String::new(),
                description: String::new(),
                created: String::new(),
            };
            out.push(item);
        }
        i = i + 1;
    }
    assert(tree@.take(tree@.len() as int) =~= tree@);
    out
}

/// The license shown for a repository without a detected license.
pub open spec fn is_all_rights_reserved(l: License) -> bool {
    &&& l.id@ == "ARR"@
    &&& l.name@ == "All Rights Reserved"@
    &&& l.url@ == Seq::<char>::empty()
}

/// An SPDX identifier that names a real license.
pub open spec fn valid_spdx(id: Seq<char>) -> bool {
    id.len() > 0 && id != "NOASSERTION"@ && !starts_with(id, "LicenseRef"@)
}

/// The URL shown for a detected license: the page GitHub gives, else the SPDX page,
/// else the repository's `LICENSE` file on the default branch.
pub open spec fn license_url(
    html_url: Option<Seq<char>>,
    spdx_id: Seq<char>,
    repo_url: Seq<char>,
    branch: Seq<char>,
) -> Seq<char> {
    match html_url {
        Some(h) => h,
        None => if valid_spdx(spdx_id) {
            "https://spdx.org/licenses/"@ + spdx_id + ".html"@
        } else {
            repo_url + "/blob/"@ + branch + "/LICENSE"@
        },
    }
}

/// The license of an entry, from what GitHub detected for the repository.
pub fn build_license(repo: &Repository, default_branch: &str) -> (res: License)
    ensures
        repo.license is None ==> is_all_rights_reserved(res),
        repo.license matches Some(l) ==> {
            &&& res.id@ == l.spdx_id@
            &&& res.name@ == l.name@
            &&& res.url@ == license_url(
                match l.html_url {
                    Some(h) => Some(h@),
                    None => None,
                },
                l.spdx_id@,
                repo.html_url@,
                default_branch@,
            )
        },
{
    match &repo.license {
        None => License {
            id: String::from_str("ARR"),
            name: String::from_str("All Rights Reserved"),
            url: String::new(),
        },
        Some(l) => {
            let spdx = l.spdx_id.as_str();
            let is_valid = !spdx.is_empty() && !str_eq(spdx, "NOASSERTION") && !str_starts_with(
                spdx,
                "LicenseRef",
            );
            let url = match &l.html_url {
                Some(h) => h.clone(),
                None => if is_valid {
                    let mut s = String::new();
                    s.append("https://spdx.org/licenses/");
                    s.append(spdx);
                    s.append(".html");
                    s
                } else {
                    let mut s = String::new();
                    s.append(repo.html_url.as_str());
                    s.append("/blob/");
                    s.append(default_branch);
                    s.append("/LICENSE");
                    s
                },
            };
            License { id: l.spdx_id.clone(), name: l.name.clone(), url }
        },
    }
}

/// A README after post-processing, and the pictures found in it (URL, title): `<img>`
/// tags, then Markdown images, then Markdown links, then `<a>` tags.
pub open spec fn readme_result(readme: Seq<char>, ctx: PostProcessContext) -> (
    Seq<char>,
    Seq<(Seq<char>, Seq<char>)>,
) {
    let a = html_images_result(readme, ctx);
    let b = md_images_result(a.0, ctx);
    (html_links_result(md_links_result(b.0, ctx), ctx), a.1 + b.1)
}

/// Extending a gallery twice extends it by both additions.
pub proof fn lemma_gallery_extended_twice(
    a: Seq<GalleryItem>,
    b: Seq<GalleryItem>,
    c: Seq<GalleryItem>,
    x: Seq<(Seq<char>, Seq<char>)>,
    y: Seq<(Seq<char>, Seq<char>)>,
)
    requires
        gallery_extended(a, b, x),
        gallery_extended(b, c, y),
    ensures
        gallery_extended(a, c, x + y),
{
    assert forall|j: int| 0 <= j < (x + y).len() implies {
        &&& (#[trigger] c[a.len() + j]).url@ == (x + y)[j].0
        &&& c[a.len() + j].title@ == (x + y)[j].1
        &&& c[a.len() + j].description@ == Seq::<char>::empty()
    } by {
        if j < x.len() {
            assert(c[a.len() + j] == b[a.len() + j]);
        } else {
            let k = j - x.len();
            assert(c[b.len() + k] == c[a.len() + j]);
        }
    }
}

/// Post-processes a README: relative pictures and links become absolute URLs; returns the
/// new text and the pictures found, in the order they were handled.
pub fn process_readme(readme: &str, ctx: &PostProcessContext) -> (res: (String, Vec<GalleryItem>))
    ensures
        res.0@ == readme_result(readme@, *ctx).0,
        gallery_extended(Seq::empty(), res.1@, readme_result(readme@, *ctx).1),
{
    let mut gallery: Vec<GalleryItem> = Vec::new();
    let ghost g0 = gallery@;
    let a = process_html_images(readme, ctx, &mut gallery);
    let ghost g1 = gallery@;
    let b = process_md_images(a.as_str(), ctx, &mut gallery);
    proof {
        lemma_gallery_extended_twice(
            g0,
            g1,
            gallery@,
            html_images_result(readme@, *ctx).1,
            md_images_result(a@, *ctx).1,
        );
    }
    let c = process_md_links(b.as_str(), ctx);
    let d = process_html_links(c.as_str(), ctx);
    (d, gallery)
}

/// Seconds since the Unix epoch of an RFC 3339 timestamp, by `chrono::DateTime::parse_from_rfc3339`
/// and `timestamp` in UTC; `None` when the text does not parse.
pub uninterp spec fn rfc3339_seconds(s: Seq<char>) -> Option<i64>;

/// Parses an RFC 3339 timestamp with chrono and gives its Unix time in seconds. The
/// contract claims only that the result is a function of the text, named
/// [`rfc3339_seconds`].
#[verifier::external_body]
fn rfc3339_to_seconds(s: &str) -> (res: Option<i64>)
    ensures
        res == rfc3339_seconds(s@),
{
    chrono::DateTime::parse_from_rfc3339(s).ok().map(|dt| dt.with_timezone(&chrono::Utc).timestamp())
}

/// A timestamp as stored in an entry: the Unix time of the RFC 3339 text, converted to
/// `u64` as Rust's `as` does (wrapping), or 0 when the text does not parse.
pub open spec fn timestamp_or_zero(s: Seq<char>) -> u64 {
    match rfc3339_seconds(s) {
        Some(t) => t as u64,
        None => 0,
    }
}

/// The Unix time of an RFC 3339 timestamp, or 0 when it does not parse.
pub fn parse_timestamp(iso_string: &str) -> (res: u64)
    ensures
        res == timestamp_or_zero(iso_string@),
{
    match rfc3339_to_seconds(iso_string) {
        Some(t) => t as u64,
        None => 0,
    }
}

/// One of the categories the index knows.
pub open spec fn is_category(s: Seq<char>) -> bool {
    ||| s == "adventure"@
    ||| s == "cursed"@
    ||| s == "decoration"@
    ||| s == "economy"@
    ||| s == "equipment"@
    ||| s == "food"@
    ||| s == "game-mechanics"@
    ||| s == "library"@
    ||| s == "magic"@
    ||| s == "management"@
    ||| s == "minigame"@
    ||| s == "mobs"@
    ||| s == "optimization"@
    ||| s == "social"@
    ||| s == "storage"@
    ||| s == "technology"@
    ||| s == "transportation"@
    ||| s == "utility"@
    ||| s == "world-generation"@
}

fn is_category_exec(s: &str) -> (res: bool)
    ensures
        res == is_category(s@),
{
    str_eq(s, "adventure") || str_eq(s, "cursed") || str_eq(s, "decoration") || str_eq(
        s,
        "economy",
    ) || str_eq(s, "equipment") || str_eq(s, "food") || str_eq(s, "game-mechanics") || str_eq(
        s,
        "library",
    ) || str_eq(s, "magic") || str_eq(s, "management") || str_eq(s, "minigame") || str_eq(
        s,
        "mobs",
    ) || str_eq(s, "optimization") || str_eq(s, "social") || str_eq(s, "storage") || str_eq(
        s,
        "technology",
    ) || str_eq(s, "transportation") || str_eq(s, "utility") || str_eq(s, "world-generation")
}

/// A topic with a leading `nukkit-` removed.
pub open spec fn topic_category(t: Seq<char>) -> Seq<char> {
    match strip_prefix(t, "nukkit-"@) {
        Some(r) => r,
        None => t,
    }
}

/// The categories of a repository: its topics, `nukkit-` prefix removed, that name a
/// known category, in topic order.
pub open spec fn plugin_categories(topics: Seq<Seq<char>>) -> Seq<Seq<char>>
    decreases topics.len(),
{
    if topics.len() == 0 {
        Seq::<Seq<char>>::empty()
    } else {
        let prev = plugin_categories(topics.drop_last());
        let c = topic_category(topics.last());
        if is_category(c) {
            prev.push(c)
        } else {
            prev
        }
    }
}

/// The nineteen categories the index knows, as the site lists them.
pub open spec fn known_categories() -> Seq<Seq<char>> {
    seq![
        "adventure"@,
        "cursed"@,
        "decoration"@,
        "economy"@,
        "equipment"@,
        "food"@,
        "game-mechanics"@,
        "library"@,
        "magic"@,
        "management"@,
        "minigame"@,
        "mobs"@,
        "optimization"@,
        "social"@,
        "storage"@,
        "technology"@,
        "transportation"@,
        "utility"@,
        "world-generation"@,
    ]
}

/// A topic naming a known category, with or without the `nukkit-` prefix, adds that
/// category to a repository's categories, after those of the topics before it.
pub proof fn lemma_category_topics(topics: Seq<Seq<char>>, c: Seq<char>)
    requires
        known_categories().contains(c),
    ensures
        plugin_categories(topics.push(c)) == plugin_categories(topics).push(c),
        plugin_categories(topics.push("nukkit-"@ + c)) == plugin_categories(topics).push(c),
{
    reveal_strlit("nukkit-");
    reveal_strlit("adventure");
    reveal_strlit("cursed");
    reveal_strlit("decoration");
    reveal_strlit("economy");
    reveal_strlit("equipment");
    reveal_strlit("food");
    reveal_strlit("game-mechanics");
    reveal_strlit("library");
    reveal_strlit("magic");
    reveal_strlit("management");
    reveal_strlit("minigame");
    reveal_strlit("mobs");
    reveal_strlit("optimization");
    reveal_strlit("social");
    reveal_strlit("storage");
    reveal_strlit("technology");
    reveal_strlit("transportation");
    reveal_strlit("utility");
    reveal_strlit("world-generation");
    let k = choose|k: int| 0 <= k < known_categories().len() && known_categories()[k] == c;
    assert(is_category(c));
    assert(!starts_with(c, "nukkit-"@)) by {
        if starts_with(c, "nukkit-"@) {
            assert(c.subrange(0, 7)[0] == c[0]);
            assert(c[0] == 'n');
        }
    }
    assert(topics.push(c).drop_last() =~= topics);
    assert(topic_category(c) == c);
    let pc = "nukkit-"@ + c;
    assert(pc.subrange(0, 7) =~= "nukkit-"@);
    assert(pc.skip(7) =~= c);
    assert(topic_category(pc) == c);
    assert(topics.push(pc).drop_last() =~= topics);
}

/// Every category given to a repository is one of the known categories.
pub proof fn lemma_categories_are_known(topics: Seq<Seq<char>>)
    ensures
        forall|i: int|
            0 <= i < plugin_categories(topics).len() ==> known_categories().contains(
                #[trigger] plugin_categories(topics)[i],
            ),
{
    lemma_categories_known(topics);
    assert forall|i: int|
        0 <= i < plugin_categories(topics).len() implies known_categories().contains(
        #[trigger] plugin_categories(topics)[i],
    ) by {
        let c = plugin_categories(topics)[i];
        assert(is_category(c));
        assert(known_categories()[0] == "adventure"@);
        assert(known_categories()[1] == "cursed"@);
        assert(known_categories()[2] == "decoration"@);
        assert(known_categories()[3] == "economy"@);
        assert(known_categories()[4] == "equipment"@);
        assert(known_categories()[5] == "food"@);
        assert(known_categories()[6] == "game-mechanics"@);
        assert(known_categories()[7] == "library"@);
        assert(known_categories()[8] == "magic"@);
        assert(known_categories()[9] == "management"@);
        assert(known_categories()[10] == "minigame"@);
        assert(known_categories()[11] == "mobs"@);
        assert(known_categories()[12] == "optimization"@);
        assert(known_categories()[13] == "social"@);
        assert(known_categories()[14] == "storage"@);
        assert(known_categories()[15] == "technology"@);
        assert(known_categories()[16] == "transportation"@);
        assert(known_categories()[17] == "utility"@);
        assert(known_categories()[18] == "world-generation"@);
    }
}

/// The categories of a repository from its topics.
pub fn categories_from_topics(topics: &[String]) -> (res: Vec<String>)
    ensures
        res.deep_view() == plugin_categories(topics.deep_view()),
{
    let prefix = chars_of("nukkit-");
    let mut out: Vec<String> = Vec::new();
    let mut i: usize = 0;
    while i < topics.len()
        invariant
            prefix@ == "nukkit-"@,
            i <= topics@.len(),
            topics.deep_view().len() == topics@.len(),
            out.deep_view() == plugin_categories(topics.deep_view().take(i as int)),
        decreases topics@.len() - i,
    {
        let ghost pre = topics.deep_view().take(i + 1);
        assert(pre.drop_last() =~= topics.deep_view().take(i as int));
        assert(pre.last() == topics@[i as int]@);
        let t = chars_of(topics[i].as_str());
        let normalized = match strip_prefix_exec(&t, &prefix) {
            Some(r) => string_from_chars(&r),
            None => string_from_chars(&t),
        };
        if is_category_exec(normalized.as_str()) {
            let ghost before = out.deep_view();
            out.push(normalized);
            assert(out.deep_view() =~= before.push(normalized@));
        }
        i = i + 1;
    }
    assert(topics.deep_view().take(topics@.len() as int) =~= topics.deep_view());
    out
}

/// Every category given to an entry is a known category.
pub proof fn lemma_categories_known(topics: Seq<Seq<char>>)
    ensures
        forall|i: int|
            0 <= i < plugin_categories(topics).len() ==> is_category(
                #[trigger] plugin_categories(topics)[i],
            ),
    decreases topics.len(),
{
    if topics.len() > 0 {
        lemma_categories_known(topics.drop_last());
        let prev = plugin_categories(topics.drop_last());
        let c = topic_category(topics.last());
        if is_category(c) {
            assert forall|i: int| 0 <= i < prev.push(c).len() implies is_category(
                #[trigger] prev.push(c)[i],
            ) by {
                if i < prev.len() {
                    assert(prev.push(c)[i] == prev[i]);
                }
            }
        }
    }
}

/// The text of an optional string, or the empty text.
pub open spec fn text_or_empty(o: Option<String>) -> Seq<char> {
    match o {
        Some(s) => s@,
        None => Seq::<char>::empty(),
    }
}

/// The `.jar` files attached to a release, in order.
pub open spec fn jar_assets(assets: Seq<ReleaseAsset>) -> Seq<ReleaseAsset>
    decreases assets.len(),
{
    if assets.len() == 0 {
        Seq::<ReleaseAsset>::empty()
    } else if ends_with(assets.last().name@, ".jar"@) {
        jar_assets(assets.drop_last()).push(assets.last())
    } else {
        jar_assets(assets.drop_last())
    }
}

/// `f` is the primary download made from asset `a`.
pub open spec fn file_from_asset(f: VersionFile, a: ReleaseAsset) -> bool {
    &&& f.filename@ == a.name@
    &&& f.url@ == a.browser_download_url@
    &&& f.size == a.size
    &&& f.primary
}

/// `v` is the version made from release `r`: named by the release name or its tag,
/// with the release notes as changelog and the `.jar` assets as files.
pub open spec fn version_from_release(v: Version, r: Release) -> bool {
    &&& v.version@ == r.tag_name@
    &&& v.name@ == (match r.name {
        Some(n) => n@,
        None => r.tag_name@,
    })
    &&& v.prerelease == r.prerelease
    &&& v.changelog@ == text_or_empty(r.body)
    &&& v.files@.len() == jar_assets(r.assets@).len()
    &&& forall|k: int|
        0 <= k < v.files@.len() ==> file_from_asset(#[trigger] v.files@[k], jar_assets(r.assets@)[k])
    &&& v.downloads == 0
    &&& v.published_at == timestamp_or_zero(r.published_at@)
}

fn version_from(r: &Release) -> (res: Version)
    ensures
        version_from_release(res, *r),
{
    let mut files: Vec<VersionFile> = Vec::new();
    let mut i: usize = 0;
    while i < r.assets.len()
        invariant
            i <= r.assets@.len(),
            files@.len() == jar_assets(r.assets@.take(i as int)).len(),
            forall|k: int|
                0 <= k < files@.len() ==> file_from_asset(
                    #[trigger] files@[k],
                    jar_assets(r.assets@.take(i as int))[k],
                ),
        decreases r.assets@.len() - i,
    {
        let ghost pre = r.assets@.take(i + 1);
        assert(pre.drop_last() =~= r.assets@.take(i as int));
        assert(pre.last() == r.assets@[i as int]);
        let a = &r.assets[i];
        if str_ends_with(a.name.as_str(), ".jar") {
            files.push(
                VersionFile {
                    filename: a.name.clone(),
                    url: a.browser_download_url.clone(),
                    size: a.size,
                    primary: true,
                },
            );
        }
        i = i + 1;
    }
    assert(r.assets@.take(r.assets@.len() as int) =~= r.assets@);
    Version {
        version: r.tag_name.clone(),
        name: match &r.name {
            Some(n) => n.clone(),
            None => r.tag_name.clone(),
        },
        prerelease: r.prerelease,
        changelog: match &r.body {
            Some(b) => b.clone(),
            None => String::new(),
        },
        files,
        downloads: 0,
        published_at: parse_timestamp(r.published_at.as_str()),
    }
}

/// `a` is the author entry made from a declared author name.
pub open spec fn author_from_name(a: Author, name: Seq<char>) -> bool {
    &&& a.name@ == name
    &&& a.url@ == Seq::<char>::empty()
    &&& a.avatar_url@ == Seq::<char>::empty()
}

/// `d` is a dependency on `name` of the given kind, with no version range.
pub open spec fn dependency_on(d: Dependency, name: Seq<char>, kind: Seq<char>) -> bool {
    &&& d.plugin_id@ == name
    &&& d.version_range@ == Seq::<char>::empty()
    &&& d.dependency_type@ == kind
}

fn push_dependencies(out: &mut Vec<Dependency>, names: &[String], kind: &str)
    ensures
        final(out)@.len() == old(out)@.len() + names@.len(),
        forall|k: int| 0 <= k < old(out)@.len() ==> final(out)@[k] == old(out)@[k],
        forall|k: int|
            0 <= k < names@.len() ==> dependency_on(
                #[trigger] final(out)@[old(out)@.len() + k],
                names@[k]@,
                kind@,
            ),
{
    let ghost start = out@;
    let mut i: usize = 0;
    while i < names.len()
        invariant
            i <= names@.len(),
            out@.len() == start.len() + i,
            forall|k: int| 0 <= k < start.len() ==> out@[k] == start[k],
            forall|k: int|
                0 <= k < i ==> dependency_on(#[trigger] out@[start.len() + k], names@[k]@, kind@),
        decreases names@.len() - i,
    {
        out.push(
            Dependency {
                plugin_id: names[i].clone(),
                version_range: String::new(),
                dependency_type: String::from_str(kind),
            },
        );
        i = i + 1;
    }
}

/// What the entry built from a `plugin.yml` and its repository holds.
pub open spec fn plugin_built_from(
    p: Plugin,
    yml: NukkitPluginYml,
    repo: Repository,
    releases: Seq<Release>,
    readme: Seq<char>,
    license: License,
    owner: Seq<char>,
    repo_name: Seq<char>,
    branch: Seq<char>,
    icon_url: Seq<char>,
    repo_gallery: Seq<GalleryItem>,
    ctx: PostProcessContext,
) -> bool {
    let readme_out = readme_result(readme, ctx);
    let n = readme_out.1.len();
    &&& ctx.owner@ == owner && ctx.repo@ == repo_name && ctx.branch@ == branch
    &&& p.id@ == owner + "/"@ + repo_name
    &&& p.name@ == yml.name@
    &&& p.source@ == repo.html_url@
    &&& p.summary@ == text_or_empty(yml.description)
    &&& p.description@ == readme_out.0
    &&& p.authors@.len() == yml.authors.names().len()
    &&& forall|k: int|
        0 <= k < p.authors@.len() ==> author_from_name(#[trigger] p.authors@[k], yml.authors.names()[k])
    &&& p.categories.deep_view() == plugin_categories(repo.topics.deep_view())
    &&& p.license.id@ == license.id@ && p.license.name@ == license.name@ && p.license.url@
        == license.url@
    &&& (match yml.website {
        Some(w) => p.links matches Some(l) && l.homepage@ == w@ && l.wiki@ == Seq::<char>::empty()
            && l.discord@ == Seq::<char>::empty(),
        None => p.links is None,
    })
    &&& p.downloads == 0
    &&& p.stars == repo.stargazers_count
    &&& p.created_at == timestamp_or_zero(repo.created_at@)
    &&& p.updated_at == timestamp_or_zero(repo.updated_at@)
    &&& p.icon_url@ == icon_url
    &&& gallery_extended(Seq::empty(), p.gallery@.take(n as int), readme_out.1)
    &&& p.gallery@.len() == n + repo_gallery.len()
    &&& p.gallery@.skip(n as int) == repo_gallery
    &&& p.versions@.len() == releases.len()
    &&& forall|k: int|
        0 <= k < releases.len() ==> version_from_release(#[trigger] p.versions@[k], releases[k])
    &&& p.api_version@ == (if yml.api.versions().len() > 0 {
        yml.api.versions()[0]
    } else {
        Seq::<char>::empty()
    })
    &&& p.server_version@ == Seq::<char>::empty()
    &&& p.dependencies@.len() == yml.depend@.len() + yml.softdepend@.len()
    &&& forall|k: int|
        0 <= k < yml.depend@.len() ==> dependency_on(
            #[trigger] p.dependencies@[k],
            yml.depend@[k]@,
            "required"@,
        )
    &&& forall|k: int|
        0 <= k < yml.softdepend@.len() ==> dependency_on(
            #[trigger] p.dependencies@[yml.depend@.len() + k],
            yml.softdepend@[k]@,
            "optional"@,
        )
    &&& p.preserved_fields@.len() == 0
}

/// The index entry for a Nukkit plugin: the `plugin.yml` fields, the repository's
/// statistics, topics and releases, the post-processed README and its pictures followed
/// by the repository's gallery.
pub fn nukkit_yml_to_plugin(
    yml: NukkitPluginYml,
    repo: &Repository,
    releases: &[Release],
    readme: &str,
    license: &License,
    _contributors: &[Contributor],
    owner: &str,
    repo_name: &str,
    branch: &str,
    icon_url: &str,
    repo_gallery: Vec<GalleryItem>,
) -> (res: Option<Plugin>)
    ensures
        res matches Some(p) && plugin_built_from(
            p,
            yml,
            *repo,
            releases@,
            readme@,
            *license,
            owner@,
            repo_name@,
            branch@,
            icon_url@,
            repo_gallery@,
            (PostProcessContext { owner, repo: repo_name, branch }),
        ),
{
    let ctx = PostProcessContext { owner, repo: repo_name, branch };
    let (processed_readme, gallery) = process_readme(readme, &ctx);
    let ghost n = gallery@.len();
    let ghost readme_gallery = gallery@;
    let mut gallery = gallery;
    let mut repo_gallery = repo_gallery;
    let ghost rg = repo_gallery@;
    gallery.append(&mut repo_gallery);
    assert(gallery@.take(n as int) =~= readme_gallery);
    assert(gallery@.skip(n as int) =~= rg);
    let names = yml.authors.as_vec();
    let mut authors: Vec<Author> = Vec::new();
    let mut i: usize = 0;
    while i < names.len()
        invariant
            i <= names@.len(),
            names.deep_view() == yml.authors.names(),
            authors@.len() == i,
            forall|k: int| 0 <= k < i ==> author_from_name(#[trigger] authors@[k], names.deep_view()[k]),
        decreases names@.len() - i,
    {
        assert(names.deep_view()[i as int] == names@[i as int]@);
        authors.push(Author { name: names[i].clone(), url: String::new(), avatar_url: String::new() });
        i = i + 1;
    }
    let mut dependencies: Vec<Dependency> = Vec::new();
    push_dependencies(&mut dependencies, yml.depend.as_slice(), "required");
    let ghost d1 = dependencies@;
    assert forall|k: int| 0 <= k < yml.depend@.len() implies dependency_on(
        #[trigger] d1[k],
        yml.depend@[k]@,
        "required"@,
    ) by {
        assert(d1[0 + k] == d1[k]);
    }
    push_dependencies(&mut dependencies, yml.softdepend.as_slice(), "optional");
    assert forall|k: int| 0 <= k < yml.depend@.len() implies dependency_on(
        #[trigger] dependencies@[k],
        yml.depend@[k]@,
        "required"@,
    ) by {
        assert(dependencies@[k] == d1[k]);
    }
    let mut versions: Vec<Version> = Vec::new();
    let mut j: usize = 0;
    while j < releases.len()
        invariant
            j <= releases@.len(),
            versions@.len() == j,
            forall|k: int| 0 <= k < j ==> version_from_release(#[trigger] versions@[k], releases@[k]),
        decreases releases@.len() - j,
    {
        versions.push(version_from(&releases[j]));
        j = j + 1;
    }
    let api_version = match yml.api.primary() {
        Some(v) => v,
        None => String::new(),
    };
    let categories = categories_from_topics(repo.topics.as_slice());
    let links = match &yml.website {
        Some(w) => Some(Links { homepage: w.clone(), wiki: String::new(), discord: String::new() }),
        None => None,
    };
    let summary = match &yml.description {
        Some(d) => d.clone(),
        None => String::new(),
    };
    let mut id = String::new();
    id.append(owner);
    id.append("/");
    id.append(repo_name);
    Some(
        Plugin {
            id,
            name: yml.name,
            source: repo.html_url.clone(),
            summary,
            description: processed_readme,
            authors,
            categories,
            license: License {
                id: license.id.clone(),
                name: license.name.clone(),
                url: license.url.clone(),
            },
            links,
            downloads: 0,
            stars: repo.stargazers_count,
            created_at: parse_timestamp(repo.created_at.as_str()),
            updated_at: parse_timestamp(repo.updated_at.as_str()),
            icon_url: String::from_str(icon_url),
            gallery,
            versions,
            api_version,
            server_version: String::new(),
            dependencies,
            preserved_fields: Vec::new(),
        },
    )
}

/// The owner and repository of a GitHub URL.
pub fn parse_github_url(url: &str) -> (res: Option<(String, String)>)
    ensures
        res matches Some(p) ==> github_owner_repo(url@) == Some((p.0@, p.1@)),
        res is None ==> github_owner_repo(url@) is None,
{
    match github_owner_repo_exec(url) {
        Some((o, r)) => Some((string_from_chars(&o), string_from_chars(&r))),
        None => None,
    }
}

/// The branch an index entry is read from: the repository's default branch, or `main`.
pub open spec fn default_branch_of(repo: Repository) -> Seq<char> {
    match repo.default_branch {
        Some(b) => b@,
        None => "main"@,
    }
}

/// The branch an index entry is read from.
pub fn default_branch(repo: &Repository) -> (res: String)
    ensures
        res@ == default_branch_of(*repo),
{
    match &repo.default_branch {
        Some(b) => b.clone(),
        None => String::from_str("main"),
    }
}

/// The owner and name of a repository from its `owner/name` full name.
pub fn repo_owner_and_name(full_name: &str) -> (res: Option<(String, String)>)
    ensures
        res matches Some(p) ==> split_once(full_name@, '/') == Some((p.0@, p.1@)),
        res is None ==> split_once(full_name@, '/') is None,
{
    split_once_exec(full_name, '/')
}

/// The entries built for a repository once its `plugin.yml` is parsed and its releases,
/// README, contributors and git tree are fetched: the license is resolved, the icon is
/// the first conventional logo file (else the owner's avatar), the gallery adds the
/// repository's pictures, and one entry is made.
pub fn plugins_from_parts(
    repo: &Repository,
    owner: &str,
    repo_name: &str,
    yml: NukkitPluginYml,
    releases: &[Release],
    readme: &str,
    contributors: &[Contributor],
    tree: &[GitTreeEntry],
) -> (res: Vec<Plugin>)
    ensures
        res@.len() == 1,
        ({
            let branch = default_branch_of(*repo);
            let p = res@[0];
            exists|license: License, icon: Seq<char>, repo_gallery: Seq<GalleryItem>, ctx: PostProcessContext|
                {
                    &&& (repo.license is None ==> is_all_rights_reserved(license))
                    &&& (repo.license matches Some(l) ==> license.id@ == l.spdx_id@ && license.name@
                        == l.name@ && license.url@ == license_url(
                        match l.html_url {
                            Some(h) => Some(h@),
                            None => None,
                        },
                        l.spdx_id@,
                        repo.html_url@,
                        branch,
                    ))
                    &&& icon == (match logo_path(tree@) {
                        Some(path) => raw_url(owner@, repo_name@, branch, path),
                        None => repo.owner.avatar_url@,
                    })
                    &&& repo_gallery.len() == gallery_paths(tree@).len()
                    &&& forall|i: int|
                        0 <= i < repo_gallery.len() ==> plain_gallery_item(
                            #[trigger] repo_gallery[i],
                            raw_url(owner@, repo_name@, branch, gallery_paths(tree@)[i]),
                        )
                    &&& plugin_built_from(
                        p,
                        yml,
                        *repo,
                        releases@,
                        readme@,
                        license,
                        owner@,
                        repo_name@,
                        branch,
                        icon,
                        repo_gallery,
                        ctx,
                    )
                }
        }),
{
    let branch = default_branch(repo);
    let license = build_license(repo, branch.as_str());
    let icon_url = match find_logo_url(tree, owner, repo_name, branch.as_str()) {
        Some(u) => u,
        None => repo.owner.avatar_url.clone(),
    };
    let repo_gallery = find_gallery_items(tree, owner, repo_name, branch.as_str());
    let ghost rg = repo_gallery@;
    let plugin = nukkit_yml_to_plugin(
        yml,
        repo,
        releases,
        readme,
        &license,
        contributors,
        owner,
        repo_name,
        branch.as_str(),
        icon_url.as_str(),
        repo_gallery,
    );
    let mut out: Vec<Plugin> = Vec::new();
    match plugin {
        Some(p) => {
            out.push(p);
        },
        None => {},
    }
    out
}

} // verus!
