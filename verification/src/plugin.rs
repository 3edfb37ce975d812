//! The index entry of a plugin, and the naming rules of its JSON file:
//! fields whose key starts with `!` are preserved by hand-edits and keep the
//! `!` when the entry is written back.
use vstd::prelude::*;

use crate::text::{chars_of, string_from_chars};

verus! {

/// An indexed plugin.
#[derive(Debug, Clone)]
pub struct Plugin {
    pub id: String,
    pub name: String,
    pub source: String,
    pub summary: String,
    pub description: String,
    pub authors: Vec<Author>,
    pub categories: Vec<String>,
    pub license: License,
    pub links: Option<Links>,
    pub downloads: u64,
    pub stars: u64,
    pub created_at: u64,
    pub updated_at: u64,
    pub icon_url: String,
    pub gallery: Vec<GalleryItem>,
    pub versions: Vec<Version>,
    pub api_version: String,
    pub server_version: String,
    pub dependencies: Vec<Dependency>,
    /// The names of the fields that the entry file marks as preserved (`!name`).
    pub preserved_fields: Vec<String>,
}

/// An author of a plugin.
#[derive(Debug, Clone, PartialEq)]
pub struct Author {
    pub name: String,
    pub url: String,
    pub avatar_url: String,
}

/// The license of a plugin.
#[derive(Debug, Clone, Default, PartialEq)]
pub struct License {
    pub id: String,
    pub name: String,
    pub url: String,
}

/// Links of a plugin.
#[derive(Debug, Clone)]
pub struct Links {
    pub homepage: String,
    pub wiki: String,
    pub discord: String,
}

/// A picture shown for a plugin.
#[derive(Debug, Clone)]
pub struct GalleryItem {
    pub url: String,
    pub title: String,
    pub description: String,
    pub created: String,
}

/// A released version of a plugin.
#[derive(Debug, Clone)]
pub struct Version {
    pub version: String,
    pub name: String,
    pub prerelease: bool,
    pub changelog: String,
    pub files: Vec<VersionFile>,
    pub downloads: u64,
    pub published_at: u64,
}

/// A downloadable file of a version.
#[derive(Debug, Clone)]
pub struct VersionFile {
    pub filename: String,
    pub url: String,
    pub size: u64,
    pub primary: bool,
}

/// A dependency on another plugin.
#[derive(Debug, Clone)]
pub struct Dependency {
    pub plugin_id: String,
    pub version_range: String,
    pub dependency_type: String,
}

impl Plugin {
    /// The name of the first author, or the empty string.
    pub open spec fn author_name_spec(&self) -> Seq<char> {
        if self.authors@.len() > 0 {
            self.authors@[0].name@
        } else {
            Seq::<char>::empty()
        }
    }

    /// The name of the first author, or the empty string when there is none.
    pub fn get_author_name(&self) -> (res: String)
        ensures
            res@ == self.author_name_spec(),
    {
        if self.authors.len() > 0 {
            self.authors[0].name.clone()
        } else {
            String::new()
        }
    }
}

/// A key as read from an entry file: without its `!`, and whether it had one.
pub open spec fn read_key(key: Seq<char>) -> (Seq<char>, bool) {
    if key.len() > 0 && key[0] == '!' {
        (key.drop_first(), true)
    } else {
        (key, false)
    }
}

/// A field name as written to an entry file: with a `!` when it is preserved.
pub open spec fn written_key(name: Seq<char>, preserved: Seq<Seq<char>>) -> Seq<char> {
    if preserved.contains(name) {
        seq!['!'] + name
    } else {
        name
    }
}

/// The field name a key of an entry file stands for, and whether the key marks it preserved.
pub fn normalize_field_key(key: &str) -> (res: (String, bool))
    ensures
        (res.0@, res.1) == read_key(key@),
{
    let chars = chars_of(key);
    if chars.len() > 0 && chars[0] == '!' {
        let rest = crate::text::slice_chars(&chars, 1, chars.len());
        assert(rest@ =~= key@.drop_first());
        (string_from_chars(&rest), true)
    } else {
        (string_from_chars(&chars), false)
    }
}

/// The key under which a field is written: `!name` when `name` is among the preserved.
pub fn stored_field_key(name: &str, preserved: &[String]) -> (res: String)
    ensures
        res@ == written_key(name@, preserved.deep_view()),
{
    let mut i: usize = 0;
    while i < preserved.len()
        invariant
            i <= preserved@.len(),
            preserved.deep_view().len() == preserved@.len(),
            forall|k: int| 0 <= k < i ==> preserved.deep_view()[k] != name@,
        decreases preserved@.len() - i,
    {
        if crate::text::str_eq(preserved[i].as_str(), name) {
            assert(preserved.deep_view()[i as int] == name@);
            let mut out = String::new();
            out.append("!");
            out.append(name);
            proof {
                reveal_strlit("!");
            }
            assert(out@ =~= seq!['!'] + name@);
            return out;
        }
        i = i + 1;
    }
    assert(!preserved.deep_view().contains(name@));
    string_from_chars(&chars_of(name))
}

/// The names of the preserved fields among the keys of an entry file, in order.
pub open spec fn preserved_names(keys: Seq<Seq<char>>) -> Seq<Seq<char>>
    decreases keys.len(),
{
    if keys.len() == 0 {
        Seq::<Seq<char>>::empty()
    } else {
        let prev = preserved_names(keys.drop_last());
        let (name, marked) = read_key(keys.last());
        if marked {
            prev.push(name)
        } else {
            prev
        }
    }
}

/// The preserved field names among the keys of an entry file.
pub fn preserved_field_names(keys: &[String]) -> (res: Vec<String>)
    ensures
        res.deep_view() == preserved_names(keys.deep_view()),
{
    let mut out: Vec<String> = Vec::new();
    let mut i: usize = 0;
    while i < keys.len()
        invariant
            i <= keys@.len(),
            keys.deep_view().len() == keys@.len(),
            out.deep_view() == preserved_names(keys.deep_view().take(i as int)),
        decreases keys@.len() - i,
    {
        let ghost pre = keys.deep_view().take(i + 1);
        assert(pre.drop_last() =~= keys.deep_view().take(i as int));
        assert(pre.last() == keys@[i as int]@);
        let (name, marked) = normalize_field_key(keys[i].as_str());
        if marked {
            let ghost before = out.deep_view();
            out.push(name);
            assert(out.deep_view() =~= before.push(name@));
        }
        i = i + 1;
    }
    assert(keys.deep_view().take(keys@.len() as int) =~= keys.deep_view());
    out
}

/// Writing a field under its stored key and reading the key back gives the field name,
/// and marks it preserved exactly when it is among the preserved names (field names of
/// an entry never start with `!`).
pub proof fn lemma_field_key_roundtrip(name: Seq<char>, preserved: Seq<Seq<char>>)
    requires
        !(name.len() > 0 && name[0] == '!'),
    ensures
        read_key(written_key(name, preserved)) == (name, preserved.contains(name)),
{
    if preserved.contains(name) {
        assert((seq!['!'] + name).drop_first() =~= name);
    }
}

/// The file name of a plugin's entry, relative to the index directory: `<id>.json`.
pub fn plugin_file_name(plugin_id: &str) -> (res: String)
    ensures
        res@ == plugin_id@ + ".json"@,
{
    crate::text::join2(plugin_id, ".json")
}

} // verus!
