//! Finding repositories below a pool: a depth-first walk with a worklist
//! that stops at every directory holding `.git`, passes over hidden,
//! build-output and excluded directories, and goes no deeper than asked.

use vstd::prelude::*;
use crate::paths::{
    all_entry_names, components, is_entry_name, is_under, join, join_all, join_chars,
    lemma_components_join, lemma_join_all_push, lemma_paths_diverge, lemma_rel_prefix,
    rel_components,
};
use crate::seqs::{as_order, law_normalized, normalize_paths, normalized, strictly_increasing};
use crate::text::{
    append, append_str, chars_of, decimal, decimal_of, has_prefix, same_text, starts_with,
    string_of, texts,
};

verus! {

/// A compiled glob pattern of the `globset` crate.
#[verifier::external_type_specification]
#[verifier::external_body]
pub struct ExGlob(globset::Glob);

/// A set of compiled glob patterns of the `globset` crate.
#[verifier::external_type_specification]
#[verifier::external_body]
pub struct ExGlobSet(globset::GlobSet);

/// The error of the `globset` crate.
#[verifier::external_type_specification]
#[verifier::external_body]
pub struct ExGlobError(globset::Error);

/// Whether `globset` accepts a pattern text as a glob, on a platform whose
/// only path separator is `/`.
pub uninterp spec fn glob_compiles(pattern: Seq<char>) -> bool;

/// The pattern text that a compiled glob was made from, as `Glob::glob`
/// returns it.
pub uninterp spec fn glob_source(glob: globset::Glob) -> Seq<char>;

/// The pattern texts of the globs in a set, in the order in which the set
/// was given them.
pub uninterp spec fn set_patterns(set: globset::GlobSet) -> Seq<Seq<char>>;

/// Whether the glob made from `pattern` with literal separators (`*` and `?`
/// do not match `/`) matches the path `path`, on a platform whose only path
/// separator is `/`.
pub uninterp spec fn glob_accepts(pattern: Seq<char>, path: Seq<char>) -> bool;

/// Whether `GlobSet::new` builds one matcher for globs with these pattern
/// texts, all compiled with literal separators: it does unless the matcher
/// grows beyond the size that `globset` allows.
pub uninterp spec fn set_builds(patterns: Seq<Seq<char>>) -> bool;

/// The pattern texts of a sequence of compiled globs.
pub open spec fn glob_sources(globs: Seq<globset::Glob>) -> Seq<Seq<char>> {
    Seq::new(globs.len(), |i: int| glob_source(globs[i]))
}

/// Some pattern of `patterns` matches `path`.
pub open spec fn any_accepts(patterns: Seq<Seq<char>>, path: Seq<char>) -> bool {
    exists|i: int| 0 <= i < patterns.len() && glob_accepts(#[trigger] patterns[i], path)
}

/// `GlobBuilder::new(pattern).literal_separator(true).build()`: compiles the
/// pattern so that its wildcards stop at `/`. Whether that succeeds depends
/// on the pattern text alone, and the glob remembers the text.
#[verifier::external_body]
fn compile_glob(pattern: &str) -> (r: Result<globset::Glob, globset::Error>)
    ensures
        r is Ok == glob_compiles(pattern@),
        r matches Ok(g) ==> glob_source(g) == pattern@,
{
    globset::GlobBuilder::new(pattern).literal_separator(true).build()
}

/// `GlobSet::new`: one matcher for all the globs given. Whether it can be
/// built depends on the globs alone, which `compile_glob` made from their
/// pattern texts. No glob at all gives the empty set, without fail.
#[verifier::external_body]
fn build_glob_set(globs: &Vec<globset::Glob>) -> (r: Result<globset::GlobSet, globset::Error>)
    ensures
        r is Ok == set_builds(glob_sources(globs@)),
        r matches Ok(s) ==> set_patterns(s) == glob_sources(globs@),
        globs@.len() == 0 ==> r is Ok,
{
    globset::GlobSet::new(globs.iter())
}

/// `GlobSet::is_match`: true exactly if some glob of the set matches the
/// path. Stated of sets whose globs `compile_glob` made.
#[verifier::external_body]
fn glob_set_matches(set: &globset::GlobSet, path: &str) -> (r: bool)
    ensures
        r == (exists|i: int|
            0 <= i < set_patterns(*set).len() && glob_accepts(
                #[trigger] set_patterns(*set)[i],
                path@,
            )),
{
    set.is_match(path)
}

/// The text of a `globset` error, as its `Display` writes it.
#[verifier::external_body]
fn glob_error_text(e: &globset::Error) -> (r: String) {
    e.to_string()
}

/// Why a scan could not be set up.
#[derive(Debug)]
pub enum ScanError {
    /// An exclusion pattern is no glob.
    InvalidPattern { pattern: String, detail: String },
    /// The exclusion patterns could not be built into one matcher.
    BuildFailed { detail: String },
    /// No pool is configured.
    NoPools,
    /// None of the configured pools is a directory.
    NoPoolFound,
}

/// The exclusion patterns of a scan, compiled.
pub struct ExcludeSet {
    set: globset::GlobSet,
}

impl ExcludeSet {
    /// The pattern texts of this set.
    pub closed spec fn patterns(&self) -> Seq<Seq<char>> {
        set_patterns(self.set)
    }

    /// Whether some pattern of the set matches the path `rel`, a path
    /// relative to the root of the scan.
    pub open spec fn excludes(&self, rel: Seq<char>) -> bool {
        any_accepts(self.patterns(), rel)
    }

    /// Whether some pattern of the set matches the relative path `rel`.
    pub fn is_match(&self, rel: &str) -> (r: bool)
        ensures
            r == self.excludes(rel@),
    {
        glob_set_matches(&self.set, rel)
    }
}

/// Every one of the first `upto` patterns is a glob.
pub open spec fn all_compile(patterns: Seq<Seq<char>>, upto: int) -> bool {
    forall|i: int| 0 <= i < upto ==> glob_compiles(#[trigger] patterns[i])
}

/// Builds the exclusion set from the configured patterns. It is built
/// exactly if every pattern is a glob and one matcher can be built for them
/// all. Otherwise the first pattern that is no glob is reported, and if
/// there is none, the failure to build. With no pattern at all the set is
/// empty and building cannot fail.
pub fn build_exclude_set(patterns: &Vec<String>) -> (r: Result<ExcludeSet, ScanError>)
    ensures
        r is Ok <==> all_compile(texts(patterns@), patterns.len() as int) && set_builds(
            texts(patterns@),
        ),
        patterns.len() == 0 ==> r is Ok,
        match r {
            Ok(set) => set.patterns() == texts(patterns@),
            Err(ScanError::InvalidPattern { pattern, detail }) => exists|i: int|
                0 <= i < patterns.len() && all_compile(texts(patterns@), i) && !glob_compiles(
                    #[trigger] patterns@[i]@,
                ) && pattern@ == patterns@[i]@,
            Err(ScanError::BuildFailed { detail }) => all_compile(
                texts(patterns@),
                patterns.len() as int,
            ) && !set_builds(texts(patterns@)),
            Err(_) => false,
        },
{
    let mut globs: Vec<globset::Glob> = Vec::new();
    let mut i: usize = 0;
    while i < patterns.len()
        invariant
            i <= patterns.len(),
            globs.len() == i,
            all_compile(texts(patterns@), i as int),
            forall|j: int| 0 <= j < i ==> glob_source(#[trigger] globs@[j]) == patterns@[j]@,
        decreases patterns.len() - i,
    {
        match compile_glob(patterns[i].as_str()) {
            Ok(g) => {
                globs.push(g);
            },
            Err(e) => {
                assert(texts(patterns@)[i as int] == patterns@[i as int]@);
                return Err(
                    ScanError::InvalidPattern {
                        pattern: patterns[i].clone(),
                        detail: glob_error_text(&e),
                    },
                );
            },
        }
        i += 1;
    }
    assert(glob_sources(globs@) =~= texts(patterns@));
    match build_glob_set(&globs) {
        Ok(set) => Ok(ExcludeSet { set }),
        Err(e) => Err(ScanError::BuildFailed { detail: glob_error_text(&e) }),
    }
}

/// One entry of a directory: its name and whether it is a directory.
#[derive(Debug)]
pub struct DirEntry {
    pub name: String,
    pub is_dir: bool,
}

/// An entry as plain values.
pub struct EntryModel {
    pub name: Seq<char>,
    pub is_dir: bool,
}

impl View for DirEntry {
    type V = EntryModel;

    open spec fn view(&self) -> EntryModel {
        EntryModel { name: self.name@, is_dir: self.is_dir }
    }
}

/// The models of a listing.
pub open spec fn entry_models(v: Seq<DirEntry>) -> Seq<EntryModel> {
    Seq::new(v.len(), |i: int| v[i]@)
}

/// The optional listing as plain values.
pub open spec fn opt_entries(listing: Option<&Vec<DirEntry>>) -> Option<Seq<EntryModel>> {
    match listing {
        Some(v) => Some(entry_models(v@)),
        None => None,
    }
}

/// A directory that is at the head of the worklist: its path, its path
/// relative to the root of the scan, and its depth below the root.
#[derive(Debug)]
pub struct Frame {
    pub path: String,
    pub rel: String,
    pub depth: u32,
}

/// A frame as plain values.
pub struct FrameModel {
    pub path: Seq<char>,
    pub rel: Seq<char>,
    pub depth: u32,
}

impl View for Frame {
    type V = FrameModel;

    open spec fn view(&self) -> FrameModel {
        FrameModel { path: self.path@, rel: self.rel@, depth: self.depth }
    }
}

/// The models of a worklist.
pub open spec fn frame_models(v: Seq<Frame>) -> Seq<FrameModel> {
    Seq::new(v.len(), |i: int| v[i]@)
}

/// The names that are never descended into: directories of dependencies
/// and of build output.
pub open spec fn is_skipped_name(name: Seq<char>) -> bool {
    name == "node_modules"@ || name == "target"@ || name == "vendor"@ || name == "__pycache__"@
        || name == ".build"@
}

/// A listing holds an entry named `.git`, be it a directory or a file.
pub open spec fn holds_git(entries: Seq<EntryModel>) -> bool {
    exists|i: int| 0 <= i < entries.len() && (#[trigger] entries[i]).name == ".git"@
}

/// An entry that the walk may descend into from the directory at `rel`: a
/// directory that is not hidden, not of the skipped names, and not
/// excluded by its path relative to the root.
pub open spec fn is_candidate(e: EntryModel, rel: Seq<char>, ex: ExcludeSet) -> bool {
    e.is_dir && !has_prefix(e.name, seq!['.']) && !is_skipped_name(e.name) && !ex.excludes(
        join(rel, e.name),
    )
}

/// Whether a directory at `depth` may be descended from under the bound.
pub open spec fn may_descend(depth: u32, max_depth: Option<u32>) -> bool {
    match max_depth {
        None => true,
        Some(limit) => depth < limit,
    }
}

/// The depth one level further down. It stays where the counter ends.
pub open spec fn deeper(depth: u32) -> u32 {
    if depth < u32::MAX {
        (depth + 1) as u32
    } else {
        depth
    }
}

/// The indices of the candidates in a listing, in ascending order.
pub open spec fn candidates(entries: Seq<EntryModel>, rel: Seq<char>, ex: ExcludeSet) -> Seq<int>
    decreases entries.len(),
{
    if entries.len() == 0 {
        Seq::empty()
    } else if is_candidate(entries.last(), rel, ex) {
        candidates(entries.drop_last(), rel, ex).push(entries.len() - 1)
    } else {
        candidates(entries.drop_last(), rel, ex)
    }
}

/// What looking into one directory comes to.
pub struct Outcome {
    /// The directory is a repository.
    pub is_repository: bool,
    /// The indices of the entries to descend into.
    pub descend: Seq<int>,
}

/// What looking into the directory of `frame` comes to, given its listing.
/// A directory that cannot be read gives nothing. One that holds `.git` is
/// a repository and is not descended from. Any other is descended from into
/// its candidates, unless the bound forbids it.
pub open spec fn visited(
    frame: FrameModel,
    listing: Option<Seq<EntryModel>>,
    ex: ExcludeSet,
    max_depth: Option<u32>,
) -> Outcome {
    match listing {
        None => Outcome { is_repository: false, descend: Seq::empty() },
        Some(entries) => if holds_git(entries) {
            Outcome { is_repository: true, descend: Seq::empty() }
        } else if may_descend(frame.depth, max_depth) {
            Outcome { is_repository: false, descend: candidates(entries, frame.rel, ex) }
        } else {
            Outcome { is_repository: false, descend: Seq::empty() }
        },
    }
}

/// The frame of the entry `name` in the directory of `parent`.
pub open spec fn child_frame(parent: FrameModel, name: Seq<char>) -> FrameModel {
    FrameModel {
        path: join(parent.path, name),
        rel: join(parent.rel, name),
        depth: deeper(parent.depth),
    }
}

/// The frames of the entries at `indices`.
pub open spec fn child_frames(parent: FrameModel, entries: Seq<EntryModel>, indices: Seq<int>) -> Seq<
    FrameModel,
> {
    Seq::new(indices.len(), |k: int| child_frame(parent, entries[indices[k]].name))
}

/// The frame of the root of a scan.
pub open spec fn root_frame(root: Seq<char>) -> FrameModel {
    FrameModel { path: root, rel: Seq::empty(), depth: 0 }
}

/// The candidates of a listing are indices into it.
pub proof fn lemma_candidates_in_range(entries: Seq<EntryModel>, rel: Seq<char>, ex: ExcludeSet)
    ensures
        forall|k: int|
            0 <= k < candidates(entries, rel, ex).len() ==> 0 <= #[trigger] candidates(
                entries,
                rel,
                ex,
            )[k] < entries.len(),
    decreases entries.len(),
{
    if entries.len() > 0 {
        lemma_candidates_in_range(entries.drop_last(), rel, ex);
        let before = candidates(entries.drop_last(), rel, ex);
        let all = candidates(entries, rel, ex);
        assert forall|k: int| 0 <= k < all.len() implies 0 <= #[trigger] all[k]
            < entries.len() by {
            if k < before.len() {
                assert(all[k] == before[k]);
            }
        }
    }
}

/// Whether `name` is one of the names that are never descended into.
pub fn is_skipped_dir(name: &str) -> (r: bool)
    ensures
        r == is_skipped_name(name@),
{
    same_text(name, "node_modules") || same_text(name, "target") || same_text(name, "vendor")
        || same_text(name, "__pycache__") || same_text(name, ".build")
}

/// Whether the walk may descend into `entry` from the directory at `rel`.
pub fn wants_descent(entry: &DirEntry, rel: &str, exclude: &ExcludeSet) -> (r: bool)
    ensures
        r == is_candidate(entry@, rel@, *exclude),
{
    if !entry.is_dir {
        return false;
    }
    let name = chars_of(entry.name.as_str());
    let mut dot: Vec<char> = Vec::new();
    dot.push('.');
    assert(dot@ =~= seq!['.']);
    if starts_with(&name, &dot) || is_skipped_dir(entry.name.as_str()) {
        return false;
    }
    let below = join_chars(&chars_of(rel), &name);
    !exclude.is_match(string_of(&below).as_str())
}

/// Whether a listing holds an entry named `.git`.
pub fn has_git_entry(entries: &Vec<DirEntry>) -> (r: bool)
    ensures
        r == holds_git(entry_models(entries@)),
{
    let mut i: usize = 0;
    while i < entries.len()
        invariant
            i <= entries.len(),
            forall|j: int| 0 <= j < i ==> (#[trigger] entry_models(entries@)[j]).name != ".git"@,
        decreases entries.len() - i,
    {
        if same_text(entries[i].name.as_str(), ".git") {
            assert(entry_models(entries@)[i as int].name == ".git"@);
            return true;
        }
        i += 1;
    }
    false
}

/// The depth one level further down.
fn next_depth(depth: u32) -> (r: u32)
    ensures
        r == deeper(depth),
{
    if depth < u32::MAX {
        depth + 1
    } else {
        depth
    }
}

/// A walk in progress: the directories still to be looked into, the last
/// one first, and the repositories found so far.
pub struct ScanWalk {
    stack: Vec<Frame>,
    found: Vec<String>,
}

impl ScanWalk {
    /// The directories still to be looked into; the last is the next.
    pub closed spec fn frames(&self) -> Seq<FrameModel> {
        frame_models(self.stack@)
    }

    /// The repositories found so far, in the order in which they were found.
    pub closed spec fn hits(&self) -> Seq<Seq<char>> {
        texts(self.found@)
    }

    /// A walk that is about to look into `root`.
    pub fn new(root: &str) -> (r: ScanWalk)
        ensures
            r.frames() == seq![root_frame(root@)],
            r.hits() == Seq::<Seq<char>>::empty(),
    {
        let mut stack: Vec<Frame> = Vec::new();
        stack.push(Frame { path: string_of(&chars_of(root)), rel: String::new(), depth: 0 });
        let r = ScanWalk { stack, found: Vec::new() };
        assert(r.frames() =~= seq![root_frame(root@)]);
        assert(r.hits() =~= Seq::<Seq<char>>::empty());
        r
    }

    /// The number of directories still to be looked into.
    pub fn pending(&self) -> (r: usize)
        ensures
            r == self.frames().len(),
    {
        self.stack.len()
    }

    /// The path of the directory to look into next, if any is left.
    pub fn next_directory(&self) -> (r: Option<String>)
        ensures
            match r {
                Some(path) => self.frames().len() > 0 && path@ == self.frames().last().path,
                None => self.frames().len() == 0,
            },
    {
        if self.stack.len() == 0 {
            None
        } else {
            Some(self.stack[self.stack.len() - 1].path.clone())
        }
    }

    /// Takes in the listing of the next directory, or the fact that it could
    /// not be read, and moves on: the directory leaves the worklist, is
    /// noted if it is a repository, and otherwise hands the worklist its
    /// candidates, as far as the bound allows. Returns the indices of the
    /// entries that were put on the worklist, in the order in which they
    /// were put there. With nothing left to look into, nothing happens.
    pub fn record(
        &mut self,
        listing: Option<&Vec<DirEntry>>,
        exclude: &ExcludeSet,
        max_depth: Option<u32>,
    ) -> (pushed: Vec<usize>)
        ensures
            old(self).frames().len() == 0 ==> {
                &&& final(self).frames() == old(self).frames()
                &&& final(self).hits() == old(self).hits()
                &&& pushed@.len() == 0
            },
            old(self).frames().len() > 0 ==> ({
                let top = old(self).frames().last();
                let rest = old(self).frames().drop_last();
                let step = visited(top, opt_entries(listing), *exclude, max_depth);
                &&& as_order(pushed@) == step.descend
                &&& final(self).hits() == if step.is_repository {
                    old(self).hits().push(top.path)
                } else {
                    old(self).hits()
                }
                &&& final(self).frames() == rest + child_frames(
                    top,
                    opt_entries(listing)->0,
                    step.descend,
                )
                &&& listing matches Some(entries) ==> forall|k: int|
                    0 <= k < pushed@.len() ==> #[trigger] pushed@[k] < entries.len()
            }),
    {
        let mut pushed: Vec<usize> = Vec::new();
        let top = match self.stack.pop() {
            Some(t) => t,
            None => {
                return pushed;
            },
        };
        let ghost rest = old(self).frames().drop_last();
        assert(self.frames() =~= rest);
        assert(top@ == old(self).frames().last());
        assert(as_order(pushed@) =~= Seq::<int>::empty());
        let entries = match listing {
            Some(e) => e,
            None => {
                assert(self.frames() =~= rest + Seq::<FrameModel>::empty());
                return pushed;
            },
        };
        let ghost es = entry_models(entries@);
        if has_git_entry(entries) {
            let ghost before = self.found@;
            self.found.push(top.path);
            assert(self.hits() =~= texts(before).push(top@.path));
            assert(self.frames() =~= rest + Seq::<FrameModel>::empty());
            return pushed;
        }
        let descend = match max_depth {
            Some(limit) => top.depth < limit,
            None => true,
        };
        if !descend {
            assert(self.frames() =~= rest + Seq::<FrameModel>::empty());
            return pushed;
        }
        let mut i: usize = 0;
        assert(es.take(0) =~= Seq::<EntryModel>::empty());
        assert(self.frames() =~= rest + child_frames(top@, es, candidates(es.take(0), top@.rel, *exclude)));
        while i < entries.len()
            invariant
                i <= entries.len(),
                es == entry_models(entries@),
                self.found@ == old(self).found@,
                as_order(pushed@) == candidates(es.take(i as int), top@.rel, *exclude),
                forall|k: int| 0 <= k < pushed@.len() ==> #[trigger] pushed@[k] < i,
                self.frames() == rest + child_frames(
                    top@,
                    es,
                    candidates(es.take(i as int), top@.rel, *exclude),
                ),
            decreases entries.len() - i,
        {
            let ghost upto = es.take(i + 1);
            let ghost sofar = candidates(es.take(i as int), top@.rel, *exclude);
            assert(upto.drop_last() =~= es.take(i as int));
            assert(upto.last() == entries@[i as int]@);
            if wants_descent(&entries[i], top.rel.as_str(), exclude) {
                let path = crate::paths::join_paths(top.path.as_str(), entries[i].name.as_str());
                let rel = crate::paths::join_paths(top.rel.as_str(), entries[i].name.as_str());
                let ghost stack_before = self.stack@;
                let ghost pushed_before = pushed@;
                self.stack.push(Frame { path, rel, depth: next_depth(top.depth) });
                pushed.push(i);
                assert(as_order(pushed@) =~= as_order(pushed_before).push(i as int));
                assert(self.frames() =~= frame_models(stack_before).push(
                    child_frame(top@, es[i as int].name),
                ));
                assert(self.frames() =~= rest + child_frames(top@, es, sofar.push(i as int)));
            }
            i += 1;
        }
        assert(es.take(entries.len() as int) =~= es);
        pushed
    }

    /// Ends the walk and hands over what was found, in the order in which
    /// it was found.
    pub fn into_found(self) -> (r: Vec<String>)
        ensures
            texts(r@) == self.hits(),
    {
        self.found
    }
}

/// A directory tree as it was found: for each entry its name, whether it is
/// a directory, whether the directory can be read, and what it holds.
#[derive(Debug)]
pub struct DirNode {
    pub name: String,
    pub is_dir: bool,
    pub readable: bool,
    pub children: Vec<DirNode>,
}

/// The entries that a directory with these children lists.
pub open spec fn child_entries(children: Seq<DirNode>) -> Seq<EntryModel> {
    Seq::new(children.len(), |i: int| EntryModel { name: children[i].name@, is_dir: children[i].is_dir })
}

/// What reading the directory `node` gives: its entries, or nothing if it
/// is no directory or cannot be read.
pub open spec fn listing_of(node: DirNode) -> Option<Seq<EntryModel>> {
    if node.is_dir && node.readable {
        Some(child_entries(node.children@))
    } else {
        None
    }
}

/// The repositories that the walk finds at and below `node`, which stands
/// at `frame`, in the order in which it finds them: the directory itself
/// if it holds `.git`, and otherwise what it finds below each candidate,
/// the last candidate first.
pub open spec fn found_in(
    node: DirNode,
    frame: FrameModel,
    ex: ExcludeSet,
    max_depth: Option<u32>,
) -> Seq<Seq<char>>
    decreases node, 0nat,
{
    let step = visited(frame, listing_of(node), ex, max_depth);
    if step.is_repository {
        seq![frame.path]
    } else {
        found_among(node.children@, step.descend, step.descend.len(), frame, ex, max_depth)
    }
}

/// The repositories that the walk finds below the first `upto` of the
/// children at `indices`, the last of them first.
pub open spec fn found_among(
    children: Seq<DirNode>,
    indices: Seq<int>,
    upto: nat,
    parent: FrameModel,
    ex: ExcludeSet,
    max_depth: Option<u32>,
) -> Seq<Seq<char>>
    decreases children, upto,
{
    if upto == 0 || upto > indices.len() {
        Seq::empty()
    } else {
        let i = indices[upto - 1];
        (if 0 <= i < children.len() {
            found_in(children[i], child_frame(parent, children[i].name@), ex, max_depth)
        } else {
            Seq::empty()
        }) + found_among(children, indices, (upto - 1) as nat, parent, ex, max_depth)
    }
}

/// What the walk still finds from a worklist: what it finds from the last
/// directory, then from the one before it, and so on.
pub open spec fn pending_hits(
    nodes: Seq<&DirNode>,
    frames: Seq<FrameModel>,
    ex: ExcludeSet,
    max_depth: Option<u32>,
) -> Seq<Seq<char>>
    decreases nodes.len(),
{
    if nodes.len() == 0 || frames.len() != nodes.len() {
        Seq::empty()
    } else {
        found_in(*nodes.last(), frames.last(), ex, max_depth) + pending_hits(
            nodes.drop_last(),
            frames.drop_last(),
            ex,
            max_depth,
        )
    }
}

/// The number of entries in the tree at `node`, the node itself counted.
pub open spec fn weight(node: DirNode) -> nat
    decreases node, 0nat,
{
    1 + weight_among(node.children@, node.children@.len())
}

/// The number of entries in the trees of the first `upto` children.
pub open spec fn weight_among(children: Seq<DirNode>, upto: nat) -> nat
    decreases children, upto,
{
    if upto == 0 || upto > children.len() {
        0
    } else {
        weight(children[upto - 1]) + weight_among(children, (upto - 1) as nat)
    }
}

/// The number of entries in the trees of a worklist.
pub open spec fn pending_weight(nodes: Seq<&DirNode>) -> nat
    decreases nodes.len(),
{
    if nodes.len() == 0 {
        0
    } else {
        weight(*nodes.last()) + pending_weight(nodes.drop_last())
    }
}

/// The number of entries in the trees of the children at `indices`.
pub open spec fn picked_weight(children: Seq<DirNode>, indices: Seq<int>) -> nat
    decreases indices.len(),
{
    if indices.len() == 0 {
        0
    } else {
        (if 0 <= indices.last() < children.len() {
            weight(children[indices.last()])
        } else {
            0
        }) + picked_weight(children, indices.drop_last())
    }
}

/// The candidates among the children weigh no more than all the children.
proof fn lemma_picked_weight(
    children: Seq<DirNode>,
    entries: Seq<EntryModel>,
    rel: Seq<char>,
    ex: ExcludeSet,
)
    requires
        entries.len() <= children.len(),
    ensures
        picked_weight(children, candidates(entries, rel, ex)) <= weight_among(
            children,
            entries.len(),
        ),
    decreases entries.len(),
{
    if entries.len() > 0 {
        let front = entries.drop_last();
        lemma_picked_weight(children, front, rel, ex);
        let before = candidates(front, rel, ex);
        if is_candidate(entries.last(), rel, ex) {
            let all = before.push(entries.len() - 1);
            assert(all.drop_last() =~= before);
            assert(all.last() == entries.len() - 1);
        }
    }
}

/// The entries that the directory `node` lists.
fn entries_of(node: &DirNode) -> (r: Vec<DirEntry>)
    ensures
        entry_models(r@) == child_entries(node.children@),
{
    let mut r: Vec<DirEntry> = Vec::new();
    let mut i: usize = 0;
    while i < node.children.len()
        invariant
            i <= node.children.len(),
            r.len() == i,
            forall|j: int|
                0 <= j < i ==> (#[trigger] r@[j])@ == (EntryModel {
                    name: node.children@[j].name@,
                    is_dir: node.children@[j].is_dir,
                }),
        decreases node.children.len() - i,
    {
        r.push(DirEntry { name: node.children[i].name.clone(), is_dir: node.children[i].is_dir });
        i += 1;
    }
    assert(entry_models(r@) =~= child_entries(node.children@));
    r
}

/// Scans a directory tree for git repositories with a worklist, and returns
/// the paths of the directories that hold `.git`, in the order in which the
/// walk finds them. `tree` is the directory at `root`. With `max_depth` set
/// to `n`, only directories up to `n` levels below the root are looked
/// into; depth 0 looks into the root alone.
pub fn scan_directory(
    tree: &DirNode,
    root: &str,
    exclude: &ExcludeSet,
    max_depth: Option<u32>,
) -> (r: Vec<String>)
    ensures
        texts(r@) == found_in(*tree, root_frame(root@), *exclude, max_depth),
{
    let mut walk = ScanWalk::new(root);
    let mut nodes: Vec<&DirNode> = Vec::new();
    nodes.push(tree);
    let ghost total = found_in(*tree, root_frame(root@), *exclude, max_depth);
    proof {
        assert(nodes@.drop_last() =~= Seq::<&DirNode>::empty());
        assert(walk.frames().drop_last() =~= Seq::<FrameModel>::empty());
        assert(pending_hits(
            Seq::<&DirNode>::empty(),
            Seq::<FrameModel>::empty(),
            *exclude,
            max_depth,
        ) =~= Seq::<Seq<char>>::empty());
        assert(*nodes@.last() == *tree);
        assert(walk.frames().last() == root_frame(root@));
        assert(pending_hits(nodes@, walk.frames(), *exclude, max_depth) =~= total);
        assert(walk.hits() + pending_hits(nodes@, walk.frames(), *exclude, max_depth) =~= total);
    }
    while walk.pending() > 0
        invariant
            nodes.len() == walk.frames().len(),
            walk.hits() + pending_hits(nodes@, walk.frames(), *exclude, max_depth) == total,
        decreases pending_weight(nodes@),
    {
        let ghost frames0 = walk.frames();
        let ghost nodes0 = nodes@;
        let ghost hits0 = walk.hits();
        let node: &DirNode = match nodes.pop() {
            Some(n) => n,
            None => {
                return walk.into_found();
            },
        };
        let ghost top = frames0.last();
        let ghost rest_frames = frames0.drop_last();
        let ghost rest_nodes = nodes0.drop_last();
        let ghost children = node.children@;
        assert(nodes@ =~= rest_nodes);
        let listing = if node.is_dir && node.readable {
            Some(entries_of(node))
        } else {
            None
        };
        let pushed = match &listing {
            Some(l) => walk.record(Some(l), exclude, max_depth),
            None => walk.record(None, exclude, max_depth),
        };
        let ghost step = visited(top, listing_of(*node), *exclude, max_depth);
        let ghost entries = child_entries(children);
        proof {
            match listing {
                Some(l) => {
                    assert(opt_entries(Some(&l)) == listing_of(*node));
                },
                None => {
                    assert(opt_entries(None) == listing_of(*node));
                },
            }
            assert(as_order(pushed@) == step.descend);
            if step.descend.len() > 0 {
                lemma_candidates_in_range(entries, top.rel, *exclude);
                lemma_picked_weight(children, entries, top.rel, *exclude);
            }
            assert(walk.frames().take(nodes.len() as int) =~= rest_frames);
            assert(step.descend.take(0) =~= Seq::<int>::empty());
        }
        let mut k: usize = 0;
        while k < pushed.len()
            invariant
                k <= pushed.len(),
                children == node.children@,
                entries == child_entries(children),
                as_order(pushed@) == step.descend,
                forall|j: int| 0 <= j < pushed@.len() ==> #[trigger] pushed@[j] < children.len(),
                nodes.len() == rest_nodes.len() + k,
                rest_frames.len() == rest_nodes.len(),
                walk.frames() == rest_frames + child_frames(top, entries, step.descend),
                pending_hits(
                    nodes@,
                    walk.frames().take(nodes.len() as int),
                    *exclude,
                    max_depth,
                ) == found_among(children, step.descend, k as nat, top, *exclude, max_depth)
                    + pending_hits(rest_nodes, rest_frames, *exclude, max_depth),
                pending_weight(nodes@) == picked_weight(children, step.descend.take(k as int))
                    + pending_weight(rest_nodes),
            decreases pushed.len() - k,
        {
            let ghost before = nodes@;
            let ghost n = nodes.len() as int;
            let child: &DirNode = &node.children[pushed[k]];
            nodes.push(child);
            proof {
                let frames = walk.frames();
                assert(as_order(pushed@)[k as int] == pushed@[k as int]);
                assert(step.descend[k as int] == pushed@[k as int]);
                assert(frames[n] == child_frames(top, entries, step.descend)[k as int]);
                assert(entries[pushed@[k as int] as int].name == child.name@);
                assert(nodes@.drop_last() =~= before);
                assert(frames.take(n + 1).drop_last() =~= frames.take(n));
                assert(frames.take(n + 1).last() == frames[n]);
                assert(step.descend.take(k + 1).drop_last() =~= step.descend.take(k as int));
                assert(step.descend.take(k + 1).last() == step.descend[k as int]);
            }
            k += 1;
        }
        proof {
            assert(walk.frames().take(nodes.len() as int) =~= walk.frames());
            assert(step.descend.take(pushed.len() as int) =~= step.descend);
            assert(pending_hits(nodes0, frames0, *exclude, max_depth) == found_in(
                *node,
                top,
                *exclude,
                max_depth,
            ) + pending_hits(rest_nodes, rest_frames, *exclude, max_depth));
            let below = pending_hits(rest_nodes, rest_frames, *exclude, max_depth);
            if step.is_repository {
                assert(hits0.push(top.path) + (Seq::<Seq<char>>::empty() + below) =~= hits0 + (
                seq![top.path] + below));
            }
            assert(pending_weight(nodes0) == weight(*node) + pending_weight(rest_nodes));
        }
    }
    proof {
        assert(nodes@ =~= Seq::<&DirNode>::empty());
        assert(walk.hits() + Seq::<Seq<char>>::empty() =~= walk.hits());
    }
    walk.into_found()
}

/// A pool to scan: its path and, if it is a directory, its tree.
#[derive(Debug)]
pub struct Pool {
    pub path: String,
    pub tree: Option<DirNode>,
}

/// What a scan of all pools found.
#[derive(Debug)]
pub struct ScanReport {
    /// The repositories, in the order of strings, each once.
    pub repositories: Vec<String>,
    /// The number of pools that were scanned.
    pub pool_count: usize,
    /// The pools that are no directory.
    pub missing: Vec<String>,
}

/// What the walks of all pools find, pool after pool.
pub open spec fn found_in_pools(pools: Seq<Pool>, ex: ExcludeSet, max_depth: Option<u32>) -> Seq<
    Seq<char>,
>
    decreases pools.len(),
{
    if pools.len() == 0 {
        Seq::empty()
    } else {
        found_in_pools(pools.drop_last(), ex, max_depth) + (match pools.last().tree {
            Some(tree) => found_in(tree, root_frame(pools.last().path@), ex, max_depth),
            None => Seq::empty(),
        })
    }
}

/// The number of pools that are directories.
pub open spec fn present(pools: Seq<Pool>) -> nat
    decreases pools.len(),
{
    if pools.len() == 0 {
        0
    } else if pools.last().tree is Some {
        present(pools.drop_last()) + 1
    } else {
        present(pools.drop_last())
    }
}

/// The paths of the pools that are no directory, in order.
pub open spec fn absent(pools: Seq<Pool>) -> Seq<Seq<char>>
    decreases pools.len(),
{
    if pools.len() == 0 {
        Seq::empty()
    } else if pools.last().tree is Some {
        absent(pools.drop_last())
    } else {
        absent(pools.drop_last()).push(pools.last().path@)
    }
}

/// What the scan reports at its end.
pub open spec fn summary_text(repositories: nat, pools: nat) -> Seq<char> {
    "Found "@ + decimal(repositories) + (if repositories == 1 {
        " repository"@
    } else {
        " repositories"@
    }) + " across "@ + decimal(pools) + (if pools == 1 {
        " pool"@
    } else {
        " pools"@
    })
}

/// What the error says.
pub open spec fn scan_error_text(e: ScanError) -> Seq<char> {
    match e {
        ScanError::InvalidPattern { pattern, detail } => "Invalid exclude pattern: "@ + pattern@
            + ": "@ + detail@,
        ScanError::BuildFailed { detail } => "Failed to build exclude set: "@ + detail@,
        ScanError::NoPools =>
            "No repository pools configured.\nAdd pools to ~/.config/yarm.toml:\n\n[repositories]\npools = [\"~/projects\", \"~/work\"]"@,
        ScanError::NoPoolFound => "None of the configured pool directories exist"@,
    }
}

impl ScanError {
    /// The message of this error.
    pub fn message(&self) -> (r: String)
        ensures
            r@ == scan_error_text(*self),
    {
        let mut v: Vec<char> = Vec::new();
        match self {
            ScanError::InvalidPattern { pattern, detail } => {
                append_str(&mut v, "Invalid exclude pattern: ");
                append_str(&mut v, pattern.as_str());
                append_str(&mut v, ": ");
                append_str(&mut v, detail.as_str());
                assert(v@ =~= "Invalid exclude pattern: "@ + pattern@ + ": "@ + detail@);
            },
            ScanError::BuildFailed { detail } => {
                append_str(&mut v, "Failed to build exclude set: ");
                append_str(&mut v, detail.as_str());
                assert(v@ =~= "Failed to build exclude set: "@ + detail@);
            },
            ScanError::NoPools => {
                append_str(
                    &mut v,
                    "No repository pools configured.\nAdd pools to ~/.config/yarm.toml:\n\n[repositories]\npools = [\"~/projects\", \"~/work\"]",
                );
                assert(v@ =~= scan_error_text(*self));
            },
            ScanError::NoPoolFound => {
                append_str(&mut v, "None of the configured pool directories exist");
                assert(v@ =~= scan_error_text(*self));
            },
        }
        string_of(&v)
    }
}

/// A directory that holds `.git` is a repository and nothing below it is
/// looked at: the walk finds the directory and no more.
pub proof fn law_repository_is_leaf(
    node: DirNode,
    frame: FrameModel,
    ex: ExcludeSet,
    max_depth: Option<u32>,
)
    requires
        node.is_dir,
        node.readable,
        holds_git(child_entries(node.children@)),
    ensures
        found_in(node, frame, ex, max_depth) == seq![frame.path],
{
}

/// A directory that cannot be read gives nothing, and is no error.
pub proof fn law_unreadable_is_empty(
    node: DirNode,
    frame: FrameModel,
    ex: ExcludeSet,
    max_depth: Option<u32>,
)
    requires
        !(node.is_dir && node.readable),
    ensures
        found_in(node, frame, ex, max_depth) == Seq::<Seq<char>>::empty(),
{
    assert(found_among(node.children@, Seq::<int>::empty(), 0, frame, ex, max_depth)
        =~= Seq::<Seq<char>>::empty());
}

/// At the depth bound a directory is looked into and not descended from:
/// it is found if it is a repository, and nothing below it is.
pub proof fn law_bound_stops_descent(
    node: DirNode,
    frame: FrameModel,
    ex: ExcludeSet,
    max_depth: Option<u32>,
)
    requires
        !may_descend(frame.depth, max_depth),
    ensures
        found_in(node, frame, ex, max_depth) == if node.is_dir && node.readable && holds_git(
            child_entries(node.children@),
        ) {
            seq![frame.path]
        } else {
            Seq::<Seq<char>>::empty()
        },
{
    assert(found_among(node.children@, Seq::<int>::empty(), 0, frame, ex, max_depth)
        =~= Seq::<Seq<char>>::empty());
}

/// The candidates of a listing are exactly its entries that are
/// directories, not hidden, not of the skipped names and not excluded; each
/// index occurs once, in ascending order.
pub proof fn law_candidates(entries: Seq<EntryModel>, rel: Seq<char>, ex: ExcludeSet)
    ensures
        forall|k: int|
            0 <= k < candidates(entries, rel, ex).len() ==> 0 <= #[trigger] candidates(
                entries,
                rel,
                ex,
            )[k] < entries.len() && is_candidate(entries[candidates(entries, rel, ex)[k]], rel, ex),
        forall|i: int|
            0 <= i < entries.len() && is_candidate(#[trigger] entries[i], rel, ex) ==> candidates(
                entries,
                rel,
                ex,
            ).contains(i),
        forall|a: int, b: int|
            0 <= a < b < candidates(entries, rel, ex).len() ==> #[trigger] candidates(
                entries,
                rel,
                ex,
            )[a] < #[trigger] candidates(entries, rel, ex)[b],
    decreases entries.len(),
{
    if entries.len() > 0 {
        let front = entries.drop_last();
        law_candidates(front, rel, ex);
        let before = candidates(front, rel, ex);
        let all = candidates(entries, rel, ex);
        let n = entries.len() - 1;
        assert forall|k: int| 0 <= k < all.len() implies 0 <= #[trigger] all[k] < entries.len()
            && is_candidate(entries[all[k]], rel, ex) by {
            if k < before.len() {
                assert(all[k] == before[k]);
                assert(front[before[k]] == entries[before[k]]);
            }
        }
        assert forall|i: int|
            0 <= i < entries.len() && is_candidate(#[trigger] entries[i], rel, ex) implies all.contains(
            i,
        ) by {
            if i < n {
                assert(front[i] == entries[i]);
                assert(before.contains(i));
                let k = choose|k: int| 0 <= k < before.len() && before[k] == i;
                assert(all[k] == i);
            } else {
                assert(all[all.len() - 1] == i);
            }
        }
        assert forall|a: int, b: int| 0 <= a < b < all.len() implies #[trigger] all[a]
            < #[trigger] all[b] by {
            if b < before.len() {
                assert(all[a] == before[a] && all[b] == before[b]);
            } else {
                assert(all[a] == before[a]);
            }
        }
    }
}

/// What a scan comes to once the pools have been walked: `found` is what
/// the walks found, `pool_count` the number of pools that were walked,
/// `missing` the pools that are no directory. No pool at all is an error,
/// and so is a list of pools of which none was walked.
pub fn finish_scan(found: Vec<String>, pool_count: usize, missing: Vec<String>) -> (r: Result<
    ScanReport,
    ScanError,
>)
    ensures
        pool_count == 0 && missing.len() == 0 ==> r matches Err(ScanError::NoPools),
        pool_count == 0 && missing.len() > 0 ==> r matches Err(ScanError::NoPoolFound),
        pool_count > 0 ==> ({
            &&& r matches Ok(report)
            &&& texts(report.repositories@) == normalized(texts(found@))
            &&& strictly_increasing(texts(report.repositories@))
            &&& forall|x: Seq<char>|
                texts(report.repositories@).contains(x) <==> texts(found@).contains(x)
            &&& report.pool_count == pool_count
            &&& report.missing == missing
        }),
{
    if pool_count == 0 {
        if missing.len() == 0 {
            return Err(ScanError::NoPools);
        }
        return Err(ScanError::NoPoolFound);
    }
    proof {
        law_normalized(texts(found@));
    }
    Ok(ScanReport { repositories: normalize_paths(found), pool_count, missing })
}

/// The pool is a directory and its walk finds `x`.
pub open spec fn pool_finds(pool: Pool, ex: ExcludeSet, max_depth: Option<u32>, x: Seq<char>) -> bool {
    match pool.tree {
        Some(tree) => found_in(tree, root_frame(pool.path@), ex, max_depth).contains(x),
        None => false,
    }
}

/// The walk of some pool that is a directory finds `x`.
pub open spec fn found_in_some_pool(
    pools: Seq<Pool>,
    ex: ExcludeSet,
    max_depth: Option<u32>,
    x: Seq<char>,
) -> bool {
    exists|i: int| 0 <= i < pools.len() && pool_finds(#[trigger] pools[i], ex, max_depth, x)
}

/// What the walks of all pools find is what the walk of some pool finds.
pub proof fn lemma_pools_union(pools: Seq<Pool>, ex: ExcludeSet, max_depth: Option<u32>)
    ensures
        forall|x: Seq<char>|
            found_in_pools(pools, ex, max_depth).contains(x) <==> found_in_some_pool(
                pools,
                ex,
                max_depth,
                x,
            ),
    decreases pools.len(),
{
    if pools.len() > 0 {
        let front = pools.drop_last();
        let last = pools.last();
        let n = pools.len() - 1;
        lemma_pools_union(front, ex, max_depth);
        let before = found_in_pools(front, ex, max_depth);
        let here = match last.tree {
            Some(tree) => found_in(tree, root_frame(last.path@), ex, max_depth),
            None => Seq::empty(),
        };
        let all = found_in_pools(pools, ex, max_depth);
        assert(all == before + here);
        assert forall|x: Seq<char>| all.contains(x) <==> found_in_some_pool(
            pools,
            ex,
            max_depth,
            x,
        ) by {
            if all.contains(x) {
                let k = choose|k: int| 0 <= k < all.len() && all[k] == x;
                if k < before.len() {
                    assert(before[k] == x);
                    assert(before.contains(x));
                    assert(found_in_some_pool(front, ex, max_depth, x));
                    let i = choose|i: int|
                        0 <= i < front.len() && pool_finds(#[trigger] front[i], ex, max_depth, x);
                    assert(pools[i] == front[i]);
                    assert(pool_finds(pools[i], ex, max_depth, x));
                } else {
                    assert(here[k - before.len()] == x);
                    assert(here.contains(x));
                    assert(pools[n] == last);
                    assert(pool_finds(pools[n], ex, max_depth, x));
                }
            }
            if found_in_some_pool(pools, ex, max_depth, x) {
                let i = choose|i: int|
                    0 <= i < pools.len() && pool_finds(#[trigger] pools[i], ex, max_depth, x);
                if i < n {
                    assert(front[i] == pools[i]);
                    assert(pool_finds(front[i], ex, max_depth, x));
                    assert(found_in_some_pool(front, ex, max_depth, x));
                    assert(before.contains(x));
                    let k = choose|k: int| 0 <= k < before.len() && before[k] == x;
                    assert(all[k] == x);
                } else {
                    assert(here.contains(x));
                    let k = choose|k: int| 0 <= k < here.len() && here[k] == x;
                    assert(all[before.len() + k] == x);
                }
            }
        }
    }
}

/// Scans all pools and reports the repositories in the order of strings,
/// each once. A pool without a tree is no directory: it is passed over and
/// listed as missing. No pool at all is an error, and so is a list of pools
/// of which none is a directory.
pub fn scan(pools: &Vec<Pool>, exclude: &ExcludeSet, max_depth: Option<u32>) -> (r: Result<
    ScanReport,
    ScanError,
>)
    ensures
        pools.len() == 0 ==> r matches Err(ScanError::NoPools),
        pools.len() > 0 && present(pools@) == 0 ==> r matches Err(ScanError::NoPoolFound),
        pools.len() > 0 && present(pools@) > 0 ==> ({
            &&& r matches Ok(report)
            &&& texts(report.repositories@) == normalized(
                found_in_pools(pools@, *exclude, max_depth),
            )
            &&& strictly_increasing(texts(report.repositories@))
            &&& forall|x: Seq<char>|
                texts(report.repositories@).contains(x) <==> found_in_some_pool(
                    pools@,
                    *exclude,
                    max_depth,
                    x,
                )
            &&& report.pool_count == present(pools@)
            &&& texts(report.missing@) == absent(pools@)
        }),
{
    if pools.len() == 0 {
        return Err(ScanError::NoPools);
    }
    let mut repos: Vec<String> = Vec::new();
    let mut missing: Vec<String> = Vec::new();
    let mut count: usize = 0;
    let mut i: usize = 0;
    assert(pools@.take(0) =~= Seq::<Pool>::empty());
    assert(texts(repos@) =~= found_in_pools(pools@.take(0), *exclude, max_depth));
    assert(texts(missing@) =~= absent(pools@.take(0)));
    while i < pools.len()
        invariant
            i <= pools.len(),
            count <= i,
            count == present(pools@.take(i as int)),
            texts(repos@) == found_in_pools(pools@.take(i as int), *exclude, max_depth),
            texts(missing@) == absent(pools@.take(i as int)),
        decreases pools.len() - i,
    {
        let ghost upto = pools@.take(i + 1);
        assert(upto.drop_last() =~= pools@.take(i as int));
        assert(upto.last() == pools@[i as int]);
        match &pools[i].tree {
            Some(tree) => {
                let found = scan_directory(tree, pools[i].path.as_str(), exclude, max_depth);
                let ghost start = repos@;
                let mut k: usize = 0;
                while k < found.len()
                    invariant
                        k <= found.len(),
                        texts(repos@) == texts(start) + texts(found@).take(k as int),
                    decreases found.len() - k,
                {
                    let ghost before = repos@;
                    repos.push(found[k].clone());
                    assert(texts(repos@) =~= texts(before).push(found@[k as int]@));
                    assert(texts(found@).take(k + 1) =~= texts(found@).take(k as int).push(
                        found@[k as int]@,
                    ));
                    k += 1;
                }
                assert(texts(found@).take(found.len() as int) =~= texts(found@));
                count += 1;
            },
            None => {
                let ghost before = missing@;
                missing.push(pools[i].path.clone());
                assert(texts(missing@) =~= texts(before).push(pools@[i as int].path@));
                assert(texts(repos@) =~= texts(repos@) + Seq::<Seq<char>>::empty());
            },
        }
        i += 1;
    }
    assert(pools@.take(pools.len() as int) =~= pools@);
    if count == 0 {
        return Err(ScanError::NoPoolFound);
    }
    proof {
        law_normalized(found_in_pools(pools@, *exclude, max_depth));
        lemma_pools_union(pools@, *exclude, max_depth);
    }
    Ok(ScanReport { repositories: normalize_paths(repos), pool_count: count, missing })
}

/// The line that ends a scan: how many repositories were found across how
/// many pools.
pub fn scan_summary(repositories: usize, pools: usize) -> (r: String)
    ensures
        r@ == summary_text(repositories as nat, pools as nat),
{
    let mut v: Vec<char> = Vec::new();
    append_str(&mut v, "Found ");
    append(&mut v, &decimal_of(repositories as u64));
    if repositories == 1 {
        append_str(&mut v, " repository");
    } else {
        append_str(&mut v, " repositories");
    }
    append_str(&mut v, " across ");
    append(&mut v, &decimal_of(pools as u64));
    if pools == 1 {
        append_str(&mut v, " pool");
    } else {
        append_str(&mut v, " pools");
    }
    assert(v@ =~= summary_text(repositories as nat, pools as nat));
    string_of(&v)
}

/// No two of the children go by the same name.
pub open spec fn names_differ(children: Seq<DirNode>) -> bool {
    forall|a: int, b: int|
        0 <= a < b < children.len() ==> (#[trigger] children[a]).name@ != (
        #[trigger] children[b]).name@
}

/// The tree is one that a file system can hold: everywhere in it the
/// entries of a directory have entry names, and no two of them the same.
pub open spec fn is_tree(node: DirNode) -> bool
    decreases node, 0nat,
{
    names_differ(node.children@) && are_trees(node.children@, node.children@.len())
}

/// The first `upto` children have entry names and are trees.
pub open spec fn are_trees(children: Seq<DirNode>, upto: nat) -> bool
    decreases children, upto,
{
    if upto == 0 || upto > children.len() {
        true
    } else {
        is_entry_name(children[upto - 1].name@) && is_tree(children[upto - 1]) && are_trees(
            children,
            (upto - 1) as nat,
        )
    }
}

/// Each of the first `upto` children has an entry name and is a tree.
proof fn lemma_are_trees(children: Seq<DirNode>, upto: nat, i: int)
    requires
        are_trees(children, upto),
        0 <= i < upto <= children.len(),
    ensures
        is_entry_name(children[i].name@),
        is_tree(children[i]),
    decreases upto,
{
    if i < upto - 1 {
        lemma_are_trees(children, (upto - 1) as nat, i);
    }
}

/// The path lies below one of the first `upto` children at `indices`.
pub open spec fn below_a_child(
    children: Seq<DirNode>,
    indices: Seq<int>,
    upto: nat,
    parent: Seq<Seq<char>>,
    path: Seq<char>,
) -> bool {
    exists|k: int|
        0 <= k < upto && #[trigger] parent.push(children[indices[k]].name@).is_prefix_of(
            components(path),
        )
}

/// None of the paths lies at or below another.
pub open spec fn none_inside_another(paths: Seq<Seq<char>>) -> bool {
    forall|a: int, b: int|
        0 <= a < paths.len() && 0 <= b < paths.len() && a != b ==> !is_under(
            #[trigger] paths[a],
            #[trigger] paths[b],
        )
}

/// What the walk finds in a tree lies at or below the directory that it
/// started from, and none of it inside another of its finds.
proof fn lemma_found_in_apart(
    node: DirNode,
    frame: FrameModel,
    ex: ExcludeSet,
    max_depth: Option<u32>,
)
    requires
        is_tree(node),
    ensures
        forall|x: Seq<char>|
            found_in(node, frame, ex, max_depth).contains(x) ==> is_under(x, frame.path),
        none_inside_another(found_in(node, frame, ex, max_depth)),
    decreases node, 0nat,
{
    let step = visited(frame, listing_of(node), ex, max_depth);
    let found = found_in(node, frame, ex, max_depth);
    let here = components(frame.path);
    if step.is_repository {
        assert(here.subrange(0, here.len() as int) =~= here);
        assert forall|x: Seq<char>| found.contains(x) implies is_under(x, frame.path) by {
            let k = choose|k: int| 0 <= k < found.len() && found[k] == x;
            assert(found[k] == frame.path);
        }
    } else {
        let children = node.children@;
        let indices = step.descend;
        if indices.len() > 0 {
            law_candidates(child_entries(children), frame.rel, ex);
        }
        lemma_found_among_apart(children, indices, indices.len(), frame, ex, max_depth);
        assert forall|x: Seq<char>| found.contains(x) implies is_under(x, frame.path) by {
            assert(below_a_child(children, indices, indices.len(), here, x));
            let k = choose|k: int|
                0 <= k < indices.len() && #[trigger] here.push(
                    children[indices[k]].name@,
                ).is_prefix_of(components(x));
            let longer = here.push(children[indices[k]].name@);
            assert(longer.subrange(0, here.len() as int) =~= here);
            assert(components(x).subrange(0, here.len() as int) =~= components(x).subrange(
                0,
                longer.len() as int,
            ).subrange(0, here.len() as int));
        }
    }
}

/// What the walk finds below the children of a directory lies below one of
/// them, and none of it inside another of its finds.
proof fn lemma_found_among_apart(
    children: Seq<DirNode>,
    indices: Seq<int>,
    upto: nat,
    parent: FrameModel,
    ex: ExcludeSet,
    max_depth: Option<u32>,
)
    requires
        upto <= indices.len(),
        names_differ(children),
        are_trees(children, children.len()),
        forall|k: int| 0 <= k < indices.len() ==> 0 <= #[trigger] indices[k] < children.len(),
        forall|a: int, b: int|
            0 <= a < b < indices.len() ==> #[trigger] indices[a] < #[trigger] indices[b],
    ensures
        forall|x: Seq<char>|
            found_among(children, indices, upto, parent, ex, max_depth).contains(x)
                ==> below_a_child(children, indices, upto, components(parent.path), x),
        none_inside_another(found_among(children, indices, upto, parent, ex, max_depth)),
    decreases children, upto,
{
    let all = found_among(children, indices, upto, parent, ex, max_depth);
    let stem = components(parent.path);
    if upto > 0 {
        let i = indices[upto - 1];
        let child = children[i];
        let frame = child_frame(parent, child.name@);
        let here = found_in(child, frame, ex, max_depth);
        let rest = found_among(children, indices, (upto - 1) as nat, parent, ex, max_depth);
        lemma_are_trees(children, children.len(), i);
        lemma_found_in_apart(child, frame, ex, max_depth);
        lemma_found_among_apart(children, indices, (upto - 1) as nat, parent, ex, max_depth);
        lemma_components_join(parent.path, child.name@);
        let mine = stem.push(child.name@);
        assert(components(frame.path) == mine);
        assert(all == here + rest);
        assert forall|x: Seq<char>| here.contains(x) implies mine.is_prefix_of(components(x)) by {
            assert(is_under(x, frame.path));
        }
        assert forall|x: Seq<char>| all.contains(x) implies below_a_child(
            children,
            indices,
            upto,
            stem,
            x,
        ) by {
            let k = choose|k: int| 0 <= k < all.len() && all[k] == x;
            if k < here.len() {
                assert(here[k] == x);
                assert(here.contains(x));
                assert(stem.push(children[indices[upto - 1]].name@).is_prefix_of(components(x)));
            } else {
                assert(rest[k - here.len()] == x);
                assert(rest.contains(x));
                assert(below_a_child(children, indices, (upto - 1) as nat, stem, x));
                let j = choose|j: int|
                    0 <= j < upto - 1 && #[trigger] stem.push(
                        children[indices[j]].name@,
                    ).is_prefix_of(components(x));
                assert(stem.push(children[indices[j]].name@).is_prefix_of(components(x)));
            }
        }
        assert forall|a: int, b: int|
            0 <= a < all.len() && 0 <= b < all.len() && a != b implies !is_under(
            #[trigger] all[a],
            #[trigger] all[b],
        ) by {
            if a < here.len() && b < here.len() {
                assert(all[a] == here[a] && all[b] == here[b]);
            } else if a >= here.len() && b >= here.len() {
                assert(all[a] == rest[a - here.len()] && all[b] == rest[b - here.len()]);
            } else {
                let inside = if a < here.len() {
                    all[a]
                } else {
                    all[b]
                };
                let outside = if a < here.len() {
                    all[b]
                } else {
                    all[a]
                };
                if a < here.len() {
                    assert(here[a] == inside);
                    assert(rest[b - here.len()] == outside);
                } else {
                    assert(here[b] == inside);
                    assert(rest[a - here.len()] == outside);
                }
                assert(here.contains(inside));
                assert(rest.contains(outside));
                assert(below_a_child(children, indices, (upto - 1) as nat, stem, outside));
                let j = choose|j: int|
                    0 <= j < upto - 1 && #[trigger] stem.push(
                        children[indices[j]].name@,
                    ).is_prefix_of(components(outside));
                assert(indices[j] < indices[upto - 1]);
                assert(children[indices[j]].name@ != children[i].name@);
                lemma_paths_diverge(
                    stem,
                    child.name@,
                    children[indices[j]].name@,
                    components(inside),
                    components(outside),
                );
            }
        }
    }
}

/// No repository that a scan reports lies inside another that it reports:
/// in a tree as a file system holds it, what the walk finds lies at or
/// below the root, and none of it at or below another of its finds.
pub proof fn law_no_hit_inside_another(
    tree: DirNode,
    root: Seq<char>,
    ex: ExcludeSet,
    max_depth: Option<u32>,
)
    requires
        is_tree(tree),
    ensures
        forall|x: Seq<char>|
            found_in(tree, root_frame(root), ex, max_depth).contains(x) ==> is_under(x, root),
        none_inside_another(found_in(tree, root_frame(root), ex, max_depth)),
{
    lemma_found_in_apart(tree, root_frame(root), ex, max_depth);
}

/// A path is found below the first `upto` children at `indices` exactly if
/// it is found at or below one of them.
proof fn lemma_found_among_member(
    children: Seq<DirNode>,
    indices: Seq<int>,
    upto: nat,
    parent: FrameModel,
    ex: ExcludeSet,
    max_depth: Option<u32>,
)
    requires
        upto <= indices.len(),
        forall|k: int| 0 <= k < indices.len() ==> 0 <= #[trigger] indices[k] < children.len(),
    ensures
        forall|x: Seq<char>|
            found_among(children, indices, upto, parent, ex, max_depth).contains(x) <==> exists|
                k: int,
            |
                0 <= k < upto && found_in(
                    children[#[trigger] indices[k]],
                    child_frame(parent, children[indices[k]].name@),
                    ex,
                    max_depth,
                ).contains(x),
    decreases upto,
{
    let all = found_among(children, indices, upto, parent, ex, max_depth);
    if upto == 0 {
        assert forall|x: Seq<char>| !all.contains(x) by {}
    } else {
        lemma_found_among_member(children, indices, (upto - 1) as nat, parent, ex, max_depth);
        let i = indices[upto - 1];
        let here = found_in(children[i], child_frame(parent, children[i].name@), ex, max_depth);
        let rest = found_among(children, indices, (upto - 1) as nat, parent, ex, max_depth);
        assert(all == here + rest);
        assert forall|x: Seq<char>| all.contains(x) <==> exists|k: int|
            0 <= k < upto && found_in(
                children[#[trigger] indices[k]],
                child_frame(parent, children[indices[k]].name@),
                ex,
                max_depth,
            ).contains(x) by {
            if all.contains(x) {
                let p = choose|p: int| 0 <= p < all.len() && all[p] == x;
                if p < here.len() {
                    assert(here[p] == x);
                    assert(here.contains(x));
                    assert(indices[upto - 1] == i);
                } else {
                    assert(rest[p - here.len()] == x);
                    assert(rest.contains(x));
                }
            }
            if exists|k: int|
                0 <= k < upto && found_in(
                    children[#[trigger] indices[k]],
                    child_frame(parent, children[indices[k]].name@),
                    ex,
                    max_depth,
                ).contains(x) {
                let k = choose|k: int|
                    0 <= k < upto && found_in(
                        children[#[trigger] indices[k]],
                        child_frame(parent, children[indices[k]].name@),
                        ex,
                        max_depth,
                    ).contains(x);
                if k == upto - 1 {
                    let p = choose|p: int| 0 <= p < here.len() && here[p] == x;
                    assert(all[p] == x);
                } else {
                    assert(rest.contains(x));
                    let p = choose|p: int| 0 <= p < rest.len() && rest[p] == x;
                    assert(all[here.len() + p] == x);
                }
            }
        }
    }
}

/// No directory on the way down to `path` is excluded: none of those below
/// the first `above` components under the root, `path` itself included.
pub open spec fn way_is_free(path: Seq<char>, root: Seq<char>, above: int, ex: ExcludeSet) -> bool {
    forall|k: int|
        above < k <= rel_components(path, root).len() ==> !ex.excludes(
            join_all(#[trigger] rel_components(path, root).take(k)),
        )
}

/// The frame stands at or below the root, and its relative path is made of
/// the entry names that lead from the root to it.
pub open spec fn frame_fits(frame: FrameModel, root: Seq<char>) -> bool {
    &&& components(root).is_prefix_of(components(frame.path))
    &&& all_entry_names(rel_components(frame.path, root))
    &&& frame.rel == join_all(rel_components(frame.path, root))
}

/// The frame of an entry fits if the frame of its directory does, and is
/// one component longer.
proof fn lemma_child_fits(parent: FrameModel, root: Seq<char>, name: Seq<char>)
    requires
        frame_fits(parent, root),
        is_entry_name(name),
    ensures
        frame_fits(child_frame(parent, name), root),
        rel_components(child_frame(parent, name).path, root) == rel_components(
            parent.path,
            root,
        ).push(name),
        components(child_frame(parent, name).path) == components(parent.path).push(name),
{
    let child = child_frame(parent, name);
    let above = rel_components(parent.path, root);
    lemma_components_join(parent.path, name);
    lemma_join_all_push(above, name);
    let n = components(root).len() as int;
    assert(components(child.path).subrange(0, n) =~= components(parent.path).subrange(0, n));
    assert(rel_components(child.path, root) =~= above.push(name));
    assert forall|i: int| 0 <= i < above.push(name).len() implies is_entry_name(
        #[trigger] above.push(name)[i],
    ) by {
        if i < above.len() {
            assert(above.push(name)[i] == above[i]);
        }
    }
}

/// Excluding directories prunes the walk and does nothing else, at and
/// below one directory of the tree.
proof fn lemma_exclusion_prunes(
    node: DirNode,
    frame: FrameModel,
    root: Seq<char>,
    ex: ExcludeSet,
    none: ExcludeSet,
    max_depth: Option<u32>,
)
    requires
        is_tree(node),
        frame_fits(frame, root),
        forall|rel: Seq<char>| !none.excludes(rel),
    ensures
        forall|x: Seq<char>|
            found_in(node, frame, ex, max_depth).contains(x) <==> found_in(
                node,
                frame,
                none,
                max_depth,
            ).contains(x) && way_is_free(
                x,
                root,
                rel_components(frame.path, root).len() as int,
                ex,
            ),
    decreases node,
{
    let with = found_in(node, frame, ex, max_depth);
    let without = found_in(node, frame, none, max_depth);
    let depth = rel_components(frame.path, root).len() as int;
    let step = visited(frame, listing_of(node), ex, max_depth);
    let plain = visited(frame, listing_of(node), none, max_depth);
    let children = node.children@;
    let entries = child_entries(children);
    if step.is_repository {
        assert(with == without);
        assert forall|x: Seq<char>| with.contains(x) implies way_is_free(x, root, depth, ex) by {
            let k = choose|k: int| 0 <= k < with.len() && with[k] == x;
            assert(with[k] == frame.path);
        }
    } else if listing_of(node) is None || !may_descend(frame.depth, max_depth) {
        assert(with =~= Seq::<Seq<char>>::empty());
        assert(without =~= Seq::<Seq<char>>::empty());
    } else {
        let chosen = step.descend;
        let all = plain.descend;
        law_candidates(entries, frame.rel, ex);
        law_candidates(entries, frame.rel, none);
        assert(chosen == candidates(entries, frame.rel, ex));
        assert(all == candidates(entries, frame.rel, none));
        assert forall|k: int| 0 <= k < chosen.len() implies 0 <= #[trigger] chosen[k]
            < children.len() && is_candidate(entries[chosen[k]], frame.rel, ex) by {
            assert(0 <= candidates(entries, frame.rel, ex)[k] < entries.len());
        }
        assert forall|k: int| 0 <= k < all.len() implies 0 <= #[trigger] all[k] < children.len()
            && is_candidate(entries[all[k]], frame.rel, none) by {
            assert(0 <= candidates(entries, frame.rel, none)[k] < entries.len());
        }
        lemma_found_among_member(children, chosen, chosen.len(), frame, ex, max_depth);
        lemma_found_among_member(children, all, all.len(), frame, none, max_depth);
        assert(!plain.is_repository);
        assert(with == found_among(children, chosen, chosen.len(), frame, ex, max_depth));
        assert(without == found_among(children, all, all.len(), frame, none, max_depth));
        assert forall|x: Seq<char>| with.contains(x) <==> without.contains(x) && way_is_free(
            x,
            root,
            depth,
            ex,
        ) by {
            if with.contains(x) {
                let k = choose|k: int|
                    0 <= k < chosen.len() && found_in(
                        children[#[trigger] chosen[k]],
                        child_frame(frame, children[chosen[k]].name@),
                        ex,
                        max_depth,
                    ).contains(x);
                let i = chosen[k];
                let child = children[i];
                let below = child_frame(frame, child.name@);
                lemma_are_trees(children, children.len(), i);
                lemma_child_fits(frame, root, child.name@);
                lemma_exclusion_prunes(child, below, root, ex, none, max_depth);
                lemma_found_in_apart(child, below, ex, max_depth);
                assert(found_in(child, below, ex, max_depth).contains(x));
                assert(is_under(x, below.path));
                lemma_rel_prefix(x, below.path, root);
                assert(is_candidate(entries[i], frame.rel, ex));
                assert(is_candidate(entries[i], frame.rel, none));
                assert(all.contains(i));
                let j = choose|j: int| 0 <= j < all.len() && all[j] == i;
                assert(found_in(
                    children[all[j]],
                    child_frame(frame, children[all[j]].name@),
                    none,
                    max_depth,
                ).contains(x));
                assert(without.contains(x));
                assert forall|k: int|
                    depth < k <= rel_components(x, root).len() implies !ex.excludes(
                    join_all(#[trigger] rel_components(x, root).take(k)),
                ) by {
                    if k == depth + 1 {
                        assert(rel_components(x, root).take(k) == rel_components(
                            below.path,
                            root,
                        ));
                        assert(join_all(rel_components(x, root).take(k)) == below.rel);
                    }
                }
            }
            if without.contains(x) && way_is_free(x, root, depth, ex) {
                let j = choose|j: int|
                    0 <= j < all.len() && found_in(
                        children[#[trigger] all[j]],
                        child_frame(frame, children[all[j]].name@),
                        none,
                        max_depth,
                    ).contains(x);
                let i = all[j];
                let child = children[i];
                let below = child_frame(frame, child.name@);
                lemma_are_trees(children, children.len(), i);
                lemma_child_fits(frame, root, child.name@);
                lemma_exclusion_prunes(child, below, root, ex, none, max_depth);
                lemma_found_in_apart(child, below, none, max_depth);
                assert(found_in(child, below, none, max_depth).contains(x));
                assert(is_under(x, below.path));
                lemma_rel_prefix(x, below.path, root);
                assert(is_candidate(entries[i], frame.rel, none));
                assert(rel_components(x, root).take(depth + 1) == rel_components(
                    below.path,
                    root,
                ));
                assert(!ex.excludes(join_all(rel_components(x, root).take(depth + 1))));
                assert(join_all(rel_components(x, root).take(depth + 1)) == below.rel);
                assert(is_candidate(entries[i], frame.rel, ex));
                assert(chosen.contains(i));
                let k = choose|k: int| 0 <= k < chosen.len() && chosen[k] == i;
                assert(way_is_free(x, root, depth + 1, ex));
                assert(found_in(
                    children[chosen[k]],
                    child_frame(frame, children[chosen[k]].name@),
                    ex,
                    max_depth,
                ).contains(x));
                assert(with.contains(x));
            }
        }
    }
}

/// Excluding directories removes their subtrees from what a scan finds and
/// changes nothing else: with exclusions the walk finds exactly those
/// repositories of the walk without exclusions to which the way down from
/// the root passes no excluded directory.
pub proof fn law_exclusion_prunes(
    tree: DirNode,
    root: Seq<char>,
    ex: ExcludeSet,
    none: ExcludeSet,
    max_depth: Option<u32>,
)
    requires
        is_tree(tree),
        forall|rel: Seq<char>| !none.excludes(rel),
    ensures
        forall|x: Seq<char>|
            found_in(tree, root_frame(root), ex, max_depth).contains(x) <==> found_in(
                tree,
                root_frame(root),
                none,
                max_depth,
            ).contains(x) && way_is_free(x, root, 0, ex),
{
    let frame = root_frame(root);
    let here = components(root);
    assert(here.subrange(0, here.len() as int) =~= here);
    assert(rel_components(root, root) =~= Seq::<Seq<char>>::empty());
    assert(join_all(Seq::<Seq<char>>::empty()) =~= Seq::<char>::empty());
    lemma_exclusion_prunes(tree, frame, root, ex, none, max_depth);
}

} // verus!
