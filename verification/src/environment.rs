//! What the library is told about the machine it runs on: the user's home
//! directory and the canonical form of the paths that were looked up. The
//! caller reads them; nothing here does.

use vstd::prelude::*;
use crate::text::{chars_of, opt_view, same_text, string_of};

verus! {

/// The home directory and the canonical paths that the caller has found.
pub struct Environment {
    /// The user's home directory, if one is known.
    pub home: Option<String>,
    /// A path and its canonical form, for each path that could be resolved.
    pub canonical: Vec<(String, String)>,
}

/// The environment as plain values.
pub struct EnvModel {
    pub home: Option<Seq<char>>,
    pub canonical: Seq<(Seq<char>, Seq<char>)>,
}

/// The entries of the table as plain values.
pub open spec fn entries_of(v: Seq<(String, String)>) -> Seq<(Seq<char>, Seq<char>)> {
    Seq::new(v.len(), |i: int| (v[i].0@, v[i].1@))
}

impl View for Environment {
    type V = EnvModel;

    open spec fn view(&self) -> EnvModel {
        EnvModel { home: opt_view(self.home), canonical: entries_of(self.canonical@) }
    }
}

/// What the first entry for `path` gives.
pub open spec fn lookup(entries: Seq<(Seq<char>, Seq<char>)>, path: Seq<char>) -> Option<
    Seq<char>,
>
    decreases entries.len(),
{
    if entries.len() == 0 {
        None
    } else {
        match lookup(entries.drop_last(), path) {
            Some(found) => Some(found),
            None => if entries.last().0 == path {
                Some(entries.last().1)
            } else {
                None
            },
        }
    }
}

/// The canonical form of `path`: what the table holds for it, and the path
/// itself where it could not be resolved.
pub open spec fn canonical_of(env: EnvModel, path: Seq<char>) -> Seq<char> {
    match lookup(env.canonical, path) {
        Some(found) => found,
        None => path,
    }
}

impl Environment {
    /// An environment with this home directory and no resolved path.
    pub fn new(home: Option<String>) -> (r: Environment)
        ensures
            r@.home == opt_view(home),
            r@.canonical == Seq::<(Seq<char>, Seq<char>)>::empty(),
    {
        let r = Environment { home, canonical: Vec::new() };
        assert(r@.canonical =~= Seq::empty());
        r
    }

    /// Records that `path` resolves to `canonical`. An earlier entry for the
    /// same path stays in force.
    pub fn record(&mut self, path: String, canonical: String)
        ensures
            final(self)@.home == old(self)@.home,
            final(self)@.canonical == old(self)@.canonical.push((path@, canonical@)),
    {
        self.canonical.push((path, canonical));
        assert(self@.canonical =~= old(self)@.canonical.push((path@, canonical@)));
    }

    /// The home directory, if one is known.
    pub fn home_dir(&self) -> (r: Option<&str>)
        ensures
            crate::paths::opt_text(r) == self@.home,
    {
        match &self.home {
            Some(h) => Some(h.as_str()),
            None => None,
        }
    }

    /// The canonical form of `path`, or `path` itself where none is known.
    pub fn canonical(&self, path: &str) -> (r: String)
        ensures
            r@ == canonical_of(self@, path@),
    {
        let ghost entries = self@.canonical;
        let mut found: Option<String> = None;
        let mut i: usize = 0;
        assert(entries.take(0) =~= Seq::<(Seq<char>, Seq<char>)>::empty());
        while i < self.canonical.len()
            invariant
                i <= self.canonical.len(),
                entries == self@.canonical,
                opt_view(found) == lookup(entries.take(i as int), path@),
            decreases self.canonical.len() - i,
        {
            let ghost upto = entries.take(i + 1);
            assert(upto.drop_last() =~= entries.take(i as int));
            assert(upto.last() == (self.canonical@[i as int].0@, self.canonical@[i as int].1@));
            if found.is_none() && same_text(self.canonical[i].0.as_str(), path) {
                found = Some(self.canonical[i].1.clone());
            }
            i += 1;
        }
        assert(entries.take(self.canonical.len() as int) =~= entries);
        match found {
            Some(f) => f,
            None => string_of(&chars_of(path)),
        }
    }
}

} // verus!
