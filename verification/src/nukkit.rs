//! The `plugin.yml` descriptor of a Nukkit plugin.
use vstd::prelude::*;

verus! {

/// The API versions a plugin declares: one string or a list of strings.
#[derive(Debug, Clone)]
pub enum ApiVersion {
    Single(String),
    Multiple(Vec<String>),
}

/// The authors a plugin declares: one string or a list of strings.
#[derive(Debug, Clone)]
pub enum Authors {
    Single(String),
    Multiple(Vec<String>),
}

/// A parsed `plugin.yml`.
#[derive(Debug, Clone)]
pub struct NukkitPluginYml {
    pub name: String,
    pub version: String,
    pub main: String,
    pub api: ApiVersion,
    pub authors: Authors,
    pub description: Option<String>,
    pub website: Option<String>,
    pub depend: Vec<String>,
    pub softdepend: Vec<String>,
    pub load: Option<String>,
}

impl ApiVersion {
    /// All declared versions, in order.
    pub open spec fn versions(&self) -> Seq<Seq<char>> {
        match self {
            ApiVersion::Single(s) => seq![s@],
            ApiVersion::Multiple(v) => v.deep_view(),
        }
    }

    /// All API versions, in the order declared.
    pub fn as_vec(&self) -> (res: Vec<String>)
        ensures
            res.deep_view() == self.versions(),
    {
        match self {
            ApiVersion::Single(s) => {
                let mut v = Vec::new();
                v.push(s.clone());
                assert(v.deep_view() =~= seq![s@]);
                v
            },
            ApiVersion::Multiple(v) => v.clone(),
        }
    }

    /// The main API version: the single one, or the first of the list.
    pub fn primary(&self) -> (res: Option<String>)
        ensures
            self.versions().len() > 0 ==> (res matches Some(p) && p@ == self.versions()[0]),
            self.versions().len() == 0 ==> res is None,
    {
        match self {
            ApiVersion::Single(s) => Some(s.clone()),
            ApiVersion::Multiple(v) => {
                if v.len() > 0 {
                    assert(v.deep_view()[0] == v@[0]@);
                    Some(v[0].clone())
                } else {
                    None
                }
            },
        }
    }
}

impl Default for ApiVersion {
    /// No versions.
    fn default() -> (res: Self)
        ensures
            res.versions().len() == 0,
            res is Multiple,
    {
        ApiVersion::Multiple(Vec::new())
    }
}

impl Authors {
    /// All declared authors, in order.
    pub open spec fn names(&self) -> Seq<Seq<char>> {
        match self {
            Authors::Single(s) => seq![s@],
            Authors::Multiple(v) => v.deep_view(),
        }
    }

    /// All authors, in the order declared.
    pub fn as_vec(&self) -> (res: Vec<String>)
        ensures
            res.deep_view() == self.names(),
    {
        match self {
            Authors::Single(s) => {
                let mut v = Vec::new();
                v.push(s.clone());
                assert(v.deep_view() =~= seq![s@]);
                v
            },
            Authors::Multiple(v) => v.clone(),
        }
    }
}

impl Default for Authors {
    /// No authors.
    fn default() -> (res: Self)
        ensures
            res.names().len() == 0,
            res is Multiple,
    {
        Authors::Multiple(Vec::new())
    }
}

impl NukkitPluginYml {
    /// Hard dependencies followed by soft dependencies.
    pub fn all_dependencies(&self) -> (res: Vec<String>)
        ensures
            res.deep_view() == self.depend.deep_view() + self.softdepend.deep_view(),
    {
        let mut deps = self.depend.clone();
        let mut i: usize = 0;
        while i < self.softdepend.len()
            invariant
                i <= self.softdepend@.len(),
                deps.deep_view() == self.depend.deep_view() + self.softdepend.deep_view().take(
                    i as int,
                ),
            decreases self.softdepend@.len() - i,
        {
            let ghost before = deps.deep_view();
            deps.push(self.softdepend[i].clone());
            assert(deps.deep_view() =~= self.depend.deep_view() + self.softdepend.deep_view().take(
                i + 1,
            )) by {
                assert(deps.deep_view() =~= before.push(self.softdepend@[i as int]@));
            }
            i = i + 1;
        }
        assert(self.softdepend.deep_view().take(self.softdepend@.len() as int)
            =~= self.softdepend.deep_view());
        deps
    }
}

} // verus!
