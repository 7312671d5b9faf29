//! The tool's own configuration: which profile is the default, where further
//! profiles are looked for, and which pools are scanned how.

use vstd::prelude::*;
use crate::paths::{expand_tilde, expanded, opt_text};
use crate::text::{opt_view, texts};

verus! {

/// The settings about profiles.
#[derive(Debug)]
pub struct ProfilesConfig {
    /// The name of the default profile.
    pub default: Option<String>,
    /// Further directories in which identity files are looked for.
    pub paths: Vec<String>,
}

/// The settings about repositories.
#[derive(Debug)]
pub struct RepositoriesConfig {
    /// The directories below which repositories are looked for.
    pub pools: Vec<String>,
    /// Globs for the directories that a scan passes over.
    pub exclude: Vec<String>,
    /// How many levels below a pool a scan looks; unbounded if not set.
    pub max_depth: Option<u32>,
}

/// The configuration of the tool.
#[derive(Debug)]
pub struct Config {
    pub profiles: ProfilesConfig,
    pub repositories: RepositoriesConfig,
}

/// The configuration as plain values.
pub struct ConfigModel {
    pub default_profile: Option<Seq<char>>,
    pub profile_paths: Seq<Seq<char>>,
    pub pools: Seq<Seq<char>>,
    pub exclude: Seq<Seq<char>>,
    pub max_depth: Option<u32>,
}

impl View for Config {
    type V = ConfigModel;

    open spec fn view(&self) -> ConfigModel {
        ConfigModel {
            default_profile: opt_view(self.profiles.default),
            profile_paths: texts(self.profiles.paths@),
            pools: texts(self.repositories.pools@),
            exclude: texts(self.repositories.exclude@),
            max_depth: self.repositories.max_depth,
        }
    }
}

/// A configuration that sets nothing.
pub open spec fn empty_config() -> ConfigModel {
    ConfigModel {
        default_profile: None,
        profile_paths: Seq::empty(),
        pools: Seq::empty(),
        exclude: Seq::empty(),
        max_depth: None,
    }
}

/// Each path with a leading `~/` expanded.
pub open spec fn all_expanded(paths: Seq<Seq<char>>, home: Option<Seq<char>>) -> Seq<Seq<char>> {
    Seq::new(paths.len(), |i: int| expanded(paths[i], home))
}

impl Default for ProfilesConfig {
    fn default() -> (r: ProfilesConfig)
        ensures
            r.default is None,
            r.paths@.len() == 0,
    {
        ProfilesConfig { default: None, paths: Vec::new() }
    }
}

impl Default for RepositoriesConfig {
    fn default() -> (r: RepositoriesConfig)
        ensures
            r.pools@.len() == 0,
            r.exclude@.len() == 0,
            r.max_depth is None,
    {
        RepositoriesConfig { pools: Vec::new(), exclude: Vec::new(), max_depth: None }
    }
}

impl Default for Config {
    fn default() -> (r: Config)
        ensures
            r@ == empty_config(),
    {
        let r = Config {
            profiles: ProfilesConfig { default: None, paths: Vec::new() },
            repositories: RepositoriesConfig {
                pools: Vec::new(),
                exclude: Vec::new(),
                max_depth: None,
            },
        };
        assert(r@.profile_paths =~= Seq::<Seq<char>>::empty());
        assert(r@.pools =~= Seq::<Seq<char>>::empty());
        assert(r@.exclude =~= Seq::<Seq<char>>::empty());
        r
    }
}

/// Each path of `paths` with a leading `~/` expanded.
fn expand_all(paths: &Vec<String>, home: Option<&str>) -> (r: Vec<String>)
    ensures
        texts(r@) == all_expanded(texts(paths@), opt_text(home)),
{
    let mut r: Vec<String> = Vec::new();
    let mut i: usize = 0;
    while i < paths.len()
        invariant
            i <= paths.len(),
            r.len() == i,
            forall|j: int| 0 <= j < i ==> r@[j]@ == expanded(paths@[j]@, opt_text(home)),
        decreases paths.len() - i,
    {
        r.push(expand_tilde(paths[i].as_str(), home));
        i += 1;
    }
    assert(texts(r@) =~= all_expanded(texts(paths@), opt_text(home)));
    r
}

impl Config {
    /// Returns the resolved profile discovery paths, with `~` expanded.
    pub fn profile_paths(&self, home: Option<&str>) -> (r: Vec<String>)
        ensures
            texts(r@) == all_expanded(self@.profile_paths, opt_text(home)),
    {
        expand_all(&self.profiles.paths, home)
    }

    /// Returns the resolved repository pool paths, with `~` expanded.
    pub fn pool_paths(&self, home: Option<&str>) -> (r: Vec<String>)
        ensures
            texts(r@) == all_expanded(self@.pools, opt_text(home)),
    {
        expand_all(&self.repositories.pools, home)
    }

    /// The name of the default profile, if one is set.
    pub fn default_profile(&self) -> (r: Option<&str>)
        ensures
            opt_text(r) == self@.default_profile,
    {
        match &self.profiles.default {
            Some(d) => Some(d.as_str()),
            None => None,
        }
    }
}

} // verus!
