//! Applying a profile: to which repositories, and what is said of it.

use vstd::prelude::*;
use crate::paths::{file_name, file_name_chars, is_under, path_is_under, opt_text};
use crate::profile::{summary_text, Profile, ProfileModel};
use crate::seqs::pick;
use crate::text::{append, append_str, chars_of, decimal, decimal_of, opt_view, string_of, texts};

verus! {

/// What a profile is to be applied to.
#[derive(Debug)]
pub enum ApplyTarget {
    /// Every repository of the pool of this name.
    Pool(String),
    /// The repository of this name or at this path.
    Repository(String),
    /// The repository in the working directory.
    WorkingDirectory,
}

/// What the apply command is asked to do.
#[derive(Debug)]
pub struct ApplyRequest {
    pub target: ApplyTarget,
    pub profile_name: Option<String>,
}

/// For each repository, whether it lies at or below the pool.
pub open spec fn pool_flags(repos: Seq<Seq<char>>, pool: Seq<char>) -> Seq<bool> {
    Seq::new(repos.len(), |i: int| is_under(repos[i], pool))
}

/// What is said when a profile was applied.
pub open spec fn applied_text(p: ProfileModel) -> Seq<char> {
    "Applied profile '"@ + p.name + "' ("@ + summary_text(p) + ")"@
}

/// What is said when a profile was applied to the repositories of a pool.
pub open spec fn applied_to_text(p: ProfileModel, count: nat) -> Seq<char> {
    applied_text(p) + " to "@ + decimal(count) + (if count == 1 {
        " repository"@
    } else {
        " repositories"@
    })
}

/// How the target of the command is shown: by the last name of its
/// canonical path, and by the path as it was given where there is none.
pub open spec fn shown_target(canonical: Option<Seq<char>>, target: Seq<char>) -> Seq<char> {
    match canonical {
        Some(c) => match file_name(c) {
            Some(n) => n,
            None => target,
        },
        None => target,
    }
}

/// Works out what the apply command is to do. A pool goes before a
/// repository, and with neither the working directory is meant.
pub fn run(name: Option<&str>, profile_name: Option<&str>, pool: Option<&str>) -> (r: ApplyRequest)
    ensures
        opt_view(r.profile_name) == opt_text(profile_name),
        match pool {
            Some(p) => r.target matches ApplyTarget::Pool(t) && t@ == p@,
            None => match name {
                Some(n) => r.target matches ApplyTarget::Repository(t) && t@ == n@,
                None => r.target is WorkingDirectory,
            },
        },
{
    let profile_name = match profile_name {
        Some(p) => Some(string_of(&chars_of(p))),
        None => None,
    };
    let target = match pool {
        Some(p) => ApplyTarget::Pool(string_of(&chars_of(p))),
        None => match name {
            Some(n) => ApplyTarget::Repository(string_of(&chars_of(n))),
            None => ApplyTarget::WorkingDirectory,
        },
    };
    ApplyRequest { target, profile_name }
}

/// The repositories that lie at or below the pool, in order.
pub fn pool_repositories(repositories: &Vec<String>, pool_path: &str) -> (r: Vec<String>)
    ensures
        texts(r@) == pick(texts(repositories@), pool_flags(texts(repositories@), pool_path@)),
{
    let ghost all = texts(repositories@);
    let ghost flags = pool_flags(all, pool_path@);
    let mut r: Vec<String> = Vec::new();
    let mut i: usize = 0;
    assert(all.take(0) =~= Seq::<Seq<char>>::empty());
    assert(texts(r@) =~= pick(all.take(0), flags.take(0)));
    while i < repositories.len()
        invariant
            i <= repositories.len(),
            all == texts(repositories@),
            flags == pool_flags(all, pool_path@),
            texts(r@) == pick(all.take(i as int), flags.take(i as int)),
        decreases repositories.len() - i,
    {
        proof {
            assert(all.take(i + 1).drop_last() =~= all.take(i as int));
            assert(flags.take(i + 1).drop_last() =~= flags.take(i as int));
            assert(all.take(i + 1).last() == repositories@[i as int]@);
            assert(flags.take(i + 1).last() == is_under(repositories@[i as int]@, pool_path@));
        }
        if path_is_under(repositories[i].as_str(), pool_path) {
            let ghost before = r@;
            r.push(repositories[i].clone());
            assert(texts(r@) =~= texts(before).push(repositories@[i as int]@));
        }
        i += 1;
    }
    assert(all.take(repositories.len() as int) =~= all);
    assert(flags.take(repositories.len() as int) =~= flags);
    r
}

/// What is said when a profile was applied, as characters.
fn applied_chars(profile: &Profile) -> (r: Vec<char>)
    ensures
        r@ == applied_text(profile@),
{
    let summary = profile.config_summary();
    let mut v: Vec<char> = Vec::new();
    append_str(&mut v, "Applied profile '");
    append_str(&mut v, profile.name.as_str());
    append_str(&mut v, "' (");
    append_str(&mut v, summary.as_str());
    append_str(&mut v, ")");
    assert(v@ =~= applied_text(profile@));
    v
}

/// What is said when a profile was applied to a repository.
pub fn applied_message(profile: &Profile) -> (r: String)
    ensures
        r@ == applied_text(profile@),
{
    string_of(&applied_chars(profile))
}

/// What is said when a profile was applied to `count` repositories of a
/// pool.
pub fn applied_to_message(profile: &Profile, count: usize) -> (r: String)
    ensures
        r@ == applied_to_text(profile@, count as nat),
{
    let mut v = applied_chars(profile);
    append_str(&mut v, " to ");
    append(&mut v, &decimal_of(count as u64));
    if count == 1 {
        append_str(&mut v, " repository");
    } else {
        append_str(&mut v, " repositories");
    }
    assert(v@ =~= applied_to_text(profile@, count as nat));
    string_of(&v)
}

/// How the target of the command is shown.
pub fn display_path(canonical: Option<&str>, target: &str) -> (r: String)
    ensures
        r@ == shown_target(opt_text(canonical), target@),
{
    match canonical {
        Some(c) => match file_name_chars(&chars_of(c)) {
            Some(n) => {
                return string_of(&n);
            },
            None => {},
        },
        None => {},
    }
    string_of(&chars_of(target))
}

} // verus!
