//! The status of the pools: how many repositories each holds, and which
//! commands bring a stale inventory up to date first.

use vstd::prelude::*;

use crate::paths::{relative, relative_to};
use crate::seqs::{normalize_paths, normalized};
use crate::text::{append, append_str, decimal, decimal_of, string_of, texts};

verus! {

/// How a pool stands.
#[derive(Debug, PartialEq, Eq)]
pub enum PoolStatus {
    /// The pool is no directory.
    NotFound,
    /// The pool is there and no scan has found a repository in it.
    NoScanData,
    /// The pool holds this many repositories.
    Repositories(usize),
}

/// How a pool stands: not found if it is no directory, without scan data
/// if no scanned repository lies in it, and with its repositories counted
/// otherwise.
pub open spec fn status_of(is_there: bool, repo_count: usize) -> PoolStatus {
    if !is_there {
        PoolStatus::NotFound
    } else if repo_count == 0 {
        PoolStatus::NoScanData
    } else {
        PoolStatus::Repositories(repo_count)
    }
}

/// How a pool stands, given whether it is a directory and how many of the
/// scanned repositories lie in it.
pub fn pool_status(is_there: bool, repo_count: usize) -> (r: PoolStatus)
    ensures
        r == status_of(is_there, repo_count),
{
    if !is_there {
        PoolStatus::NotFound
    } else if repo_count == 0 {
        PoolStatus::NoScanData
    } else {
        PoolStatus::Repositories(repo_count)
    }
}

/// What stands in brackets behind a pool.
pub open spec fn status_text(status: PoolStatus) -> Seq<char> {
    match status {
        PoolStatus::NotFound => "(not found)"@,
        PoolStatus::NoScanData => "(no scan data)"@,
        PoolStatus::Repositories(n) => "("@ + decimal(n as nat) + (if n == 1 {
            " repository)"@
        } else {
            " repositories)"@
        }),
    }
}

impl PoolStatus {
    /// What stands in brackets behind the pool.
    pub fn label(&self) -> (r: String)
        ensures
            r@ == status_text(*self),
    {
        let mut v: Vec<char> = Vec::new();
        match self {
            PoolStatus::NotFound => {
                append_str(&mut v, "(not found)");
                assert(v@ =~= "(not found)"@);
            },
            PoolStatus::NoScanData => {
                append_str(&mut v, "(no scan data)");
                assert(v@ =~= "(no scan data)"@);
            },
            PoolStatus::Repositories(n) => {
                append_str(&mut v, "(");
                append(&mut v, &decimal_of(*n as u64));
                if *n == 1 {
                    append_str(&mut v, " repository)");
                } else {
                    append_str(&mut v, " repositories)");
                }
                assert(v@ =~= status_text(*self));
            },
        }
        string_of(&v)
    }
}

/// Each path as seen from `base`.
pub open spec fn all_relative(paths: Seq<Seq<char>>, base: Seq<char>) -> Seq<Seq<char>> {
    Seq::new(paths.len(), |i: int| relative(paths[i], base))
}

/// The repositories of a pool as they are listed: each as seen from the
/// pool, in the order of strings.
pub fn repo_list(repos: &Vec<String>, pool: &str) -> (r: Vec<String>)
    ensures
        texts(r@) == normalized(all_relative(texts(repos@), pool@)),
{
    let mut rel: Vec<String> = Vec::new();
    let mut i: usize = 0;
    while i < repos.len()
        invariant
            i <= repos.len(),
            rel.len() == i,
            forall|j: int| 0 <= j < i ==> rel@[j]@ == relative(repos@[j]@, pool@),
        decreases repos.len() - i,
    {
        rel.push(relative_to(repos[i].as_str(), pool));
        i += 1;
    }
    assert(texts(rel@) =~= all_relative(texts(repos@), pool@));
    normalize_paths(rel)
}

/// The commands of the tool.
#[derive(Debug, Clone, Copy, PartialEq, Eq)]
pub enum CommandKind {
    Clone,
    Init,
    Apply,
    Profiles,
    Find,
    Stat,
    Scan,
    Status,
    Completions,
    CompleteRepoNames,
    CompletePoolNames,
}

/// Whether a stale inventory is scanned anew before the command runs: it
/// is, unless the command is the scan itself or serves the shell's
/// completion.
pub fn should_auto_rescan(command: CommandKind) -> (r: bool)
    ensures
        r == !(command is Scan || command is Completions || command is CompleteRepoNames
            || command is CompletePoolNames),
{
    match command {
        CommandKind::Scan => false,
        CommandKind::Completions => false,
        CommandKind::CompleteRepoNames => false,
        CommandKind::CompletePoolNames => false,
        _ => true,
    }
}

} // verus!
