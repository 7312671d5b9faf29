//! Finding a scanned repository or a pool by name: by its last name, by the
//! end of its path, and, failing both, the closest name as a suggestion.

use vstd::prelude::*;
use crate::paths::{components, components_of, file_name, file_name_chars};
use crate::seqs::{normalize_paths, normalized, pick};
use crate::text::{
    chars_of, chars_of_all, lowercase, same_text, split, split_on, string_of, strings_of, texts,
    to_lowercase, views,
};

verus! {

/// Maximum edit distance to consider a basename as a suggestion.
pub const MAX_EDIT_DISTANCE: usize = 3;

/// The smaller of two numbers.
pub open spec fn least(x: nat, y: nat) -> nat {
    if x <= y {
        x
    } else {
        y
    }
}

/// The Levenshtein distance of two texts: the least number of characters
/// to insert, delete or replace to turn one into the other. Turning a text
/// into the empty one deletes all of it; otherwise the last characters are
/// either both kept or one replaced by the other, or the last of one text
/// is deleted or inserted.
pub open spec fn edit_distance(a: Seq<char>, b: Seq<char>) -> nat
    decreases a.len() + b.len(),
{
    if a.len() == 0 {
        b.len()
    } else if b.len() == 0 {
        a.len()
    } else {
        let replaced: nat = if a.last() == b.last() {
            0
        } else {
            1
        };
        least(
            edit_distance(a.drop_last(), b.drop_last()) + replaced,
            least(edit_distance(a.drop_last(), b) + 1, edit_distance(a, b.drop_last()) + 1),
        )
    }
}

/// `strsim::levenshtein`: the Levenshtein distance of `a` and `b`, counted
/// in characters.
#[verifier::external_body]
fn levenshtein(a: &str, b: &str) -> (r: usize)
    ensures
        r == edit_distance(a@, b@),
{
    strsim::levenshtein(a, b)
}

/// Two texts are at distance zero exactly if they are the same text, so
/// that a name at a distance that is close is never the query itself.
pub proof fn law_distance_zero(a: Seq<char>, b: Seq<char>)
    ensures
        edit_distance(a, b) == 0 <==> a == b,
    decreases a.len() + b.len(),
{
    if a.len() == 0 || b.len() == 0 {
        if a.len() == 0 && b.len() == 0 {
            assert(a =~= b);
        }
    } else {
        law_distance_zero(a.drop_last(), b.drop_last());
        if a.last() == b.last() && a.drop_last() == b.drop_last() {
            assert(a =~= a.drop_last().push(a.last()));
            assert(b =~= b.drop_last().push(b.last()));
        }
    }
}

/// The last name of `path` is `name`, case ignored.
pub open spec fn is_named_like(path: Seq<char>, name: Seq<char>) -> bool {
    file_name(path) matches Some(n) && lowercase(n) == lowercase(name)
}

/// The components `parts` end with the components `wanted`, case ignored.
pub open spec fn ends_with_parts(parts: Seq<Seq<char>>, wanted: Seq<Seq<char>>) -> bool {
    &&& wanted.len() <= parts.len()
    &&& forall|k: int|
        0 <= k < wanted.len() ==> lowercase(#[trigger] parts[parts.len() - wanted.len() + k])
            == lowercase(wanted[k])
}

/// For each path, whether its last name is `name`, case ignored.
pub open spec fn name_flags(paths: Seq<Seq<char>>, name: Seq<char>) -> Seq<bool> {
    Seq::new(paths.len(), |i: int| is_named_like(paths[i], name))
}

/// For each path, whether its components end with `wanted`, case ignored.
pub open spec fn suffix_flags(paths: Seq<Seq<char>>, wanted: Seq<Seq<char>>) -> Seq<bool> {
    Seq::new(paths.len(), |i: int| ends_with_parts(components(paths[i]), wanted))
}

/// The paths whose last name is `name`, case ignored, in order.
pub open spec fn named_like(paths: Seq<Seq<char>>, name: Seq<char>) -> Seq<Seq<char>> {
    pick(paths, name_flags(paths, name))
}

/// The repositories that a query finds: those whose last name is the query,
/// case ignored; and if there is none, those whose path ends with the
/// components of the query.
pub open spec fn matching(repos: Seq<Seq<char>>, query: Seq<char>) -> Seq<Seq<char>> {
    if named_like(repos, query).len() > 0 {
        named_like(repos, query)
    } else {
        pick(repos, suffix_flags(repos, split_on(query, '/')))
    }
}

/// A distance that makes a name worth suggesting: not zero, which is the
/// name itself, and no more than the maximum.
pub open spec fn is_close(distance: nat) -> bool {
    0 < distance <= MAX_EDIT_DISTANCE
}

/// The index of the name to suggest among names with these distances: the
/// first of those with the least distance that is close.
pub open spec fn best_index(distances: Seq<nat>) -> Option<int>
    decreases distances.len(),
{
    if distances.len() == 0 {
        None
    } else {
        let before = best_index(distances.drop_last());
        if is_close(distances.last()) && (before is None || distances.last() < distances[before->0]) {
            Some(distances.len() - 1)
        } else {
            before
        }
    }
}

/// The last names of the paths that have one, in order.
pub open spec fn base_names(paths: Seq<Seq<char>>) -> Seq<Seq<char>>
    decreases paths.len(),
{
    if paths.len() == 0 {
        Seq::empty()
    } else {
        match file_name(paths.last()) {
            Some(n) => base_names(paths.drop_last()).push(n),
            None => base_names(paths.drop_last()),
        }
    }
}

/// The distance of each name from the query, case ignored.
pub open spec fn distances_from(names: Seq<Seq<char>>, query: Seq<char>) -> Seq<nat> {
    Seq::new(names.len(), |i: int| edit_distance(lowercase(query), lowercase(names[i])))
}

/// The name to suggest for a query that found nothing.
pub open spec fn suggestion(repos: Seq<Seq<char>>, query: Seq<char>) -> Option<Seq<char>> {
    let names = base_names(repos);
    match best_index(distances_from(names, query)) {
        Some(i) => Some(names[i]),
        None => None,
    }
}

/// What looking something up by name comes to.
#[derive(Debug)]
pub enum Lookup {
    /// Nothing goes by the name.
    Missing,
    /// Exactly this path does.
    Found(String),
    /// Several paths do.
    Ambiguous(Vec<String>),
}

/// The model of a lookup.
pub open spec fn lookup_of(found: Seq<Seq<char>>, r: Lookup) -> bool {
    match r {
        Lookup::Missing => found.len() == 0,
        Lookup::Found(path) => found.len() == 1 && found[0] == path@,
        Lookup::Ambiguous(paths) => found.len() > 1 && texts(paths@) == found,
    }
}

/// The lower-case form of each text.
fn lowered_all(v: &Vec<Vec<char>>) -> (r: Vec<Vec<char>>)
    ensures
        r.len() == v.len(),
        forall|i: int| 0 <= i < v.len() ==> (#[trigger] r@[i])@ == lowercase(v@[i]@),
{
    let mut r: Vec<Vec<char>> = Vec::new();
    let mut i: usize = 0;
    while i < v.len()
        invariant
            i <= v.len(),
            r.len() == i,
            forall|j: int| 0 <= j < i ==> (#[trigger] r@[j])@ == lowercase(v@[j]@),
        decreases v.len() - i,
    {
        r.push(chars_of(to_lowercase(string_of(&v[i]).as_str()).as_str()));
        i += 1;
    }
    r
}

/// Whether the components end with the wanted ones, text for text: the
/// comparison behind `path_suffix_matches`, for components and query that
/// are in lower case already.
pub fn ends_with_lowered(parts: &Vec<Vec<char>>, wanted: &Vec<Vec<char>>) -> (r: bool)
    ensures
        r == (wanted.len() <= parts.len() && forall|k: int|
            0 <= k < wanted.len() ==> (#[trigger] parts@[parts.len() - wanted.len() + k])@
                == wanted@[k]@),
{
    if wanted.len() > parts.len() {
        return false;
    }
    let start = parts.len() - wanted.len();
    let mut k: usize = 0;
    while k < wanted.len()
        invariant
            k <= wanted.len(),
            wanted.len() <= parts.len(),
            start == parts.len() - wanted.len(),
            forall|j: int| 0 <= j < k ==> (#[trigger] parts@[start + j])@ == wanted@[j]@,
        decreases wanted.len() - k,
    {
        if !crate::text::same_chars(&parts[start + k], &wanted[k]) {
            return false;
        }
        k += 1;
    }
    true
}

/// Checks if the path ends with the given component sequence, case ignored.
pub fn path_suffix_matches(path: &str, query_components: &Vec<String>) -> (r: bool)
    ensures
        r == ends_with_parts(components(path@), texts(query_components@)),
{
    let parts = components_of(&chars_of(path));
    let wanted = chars_of_all(query_components);
    let low_parts = lowered_all(&parts);
    let low_wanted = lowered_all(&wanted);
    let r = ends_with_lowered(&low_parts, &low_wanted);
    proof {
        let p = components(path@);
        let w = texts(query_components@);
        assert(views(parts@) == p);
        assert(views(wanted@) == w);
        if w.len() <= p.len() {
            let base = p.len() - w.len();
            if r {
                assert forall|k: int| 0 <= k < w.len() implies lowercase(
                    #[trigger] p[p.len() - w.len() + k],
                ) == lowercase(w[k]) by {
                    assert(p[base + k] == parts@[base + k]@);
                    assert(low_parts@[base + k]@ == lowercase(parts@[base + k]@));
                    assert(low_parts@[low_parts.len() - low_wanted.len() + k]@ == low_wanted@[k]@);
                    assert(w[k] == wanted@[k]@);
                }
            } else {
                let k = choose|k: int|
                    0 <= k < low_wanted.len() && (#[trigger] low_parts@[low_parts.len()
                        - low_wanted.len() + k])@ != low_wanted@[k]@;
                assert(p[base + k] == parts@[base + k]@);
                assert(low_parts@[base + k]@ == lowercase(parts@[base + k]@));
                assert(w[k] == wanted@[k]@);
                assert(lowercase(p[p.len() - w.len() + k]) != lowercase(w[k]));
            }
        }
    }
    r
}

/// The paths whose last name is `name`, case ignored.
pub fn paths_named(paths: &Vec<String>, name: &str) -> (r: Vec<String>)
    ensures
        texts(r@) == named_like(texts(paths@), name@),
{
    let wanted = to_lowercase(name);
    let ghost all = texts(paths@);
    let ghost flags = name_flags(all, name@);
    let mut r: Vec<String> = Vec::new();
    let mut i: usize = 0;
    assert(all.take(0) =~= Seq::<Seq<char>>::empty());
    assert(texts(r@) =~= pick(all.take(0), flags.take(0)));
    while i < paths.len()
        invariant
            i <= paths.len(),
            all == texts(paths@),
            flags == name_flags(all, name@),
            wanted@ == lowercase(name@),
            texts(r@) == pick(all.take(i as int), flags.take(i as int)),
        decreases paths.len() - i,
    {
        proof {
            assert(all.take(i + 1).drop_last() =~= all.take(i as int));
            assert(flags.take(i + 1).drop_last() =~= flags.take(i as int));
            assert(all.take(i + 1).last() == paths@[i as int]@);
            assert(flags.take(i + 1).last() == is_named_like(paths@[i as int]@, name@));
        }
        let hit = match file_name_chars(&chars_of(paths[i].as_str())) {
            Some(n) => same_text(to_lowercase(string_of(&n).as_str()).as_str(), wanted.as_str()),
            None => false,
        };
        if hit {
            let ghost before = r@;
            r.push(paths[i].clone());
            assert(texts(r@) =~= texts(before).push(paths@[i as int]@));
        }
        i += 1;
    }
    assert(all.take(paths.len() as int) =~= all);
    assert(flags.take(paths.len() as int) =~= flags);
    r
}

/// Finds repositories matching the query. Tries an exact match of the last
/// name first, case ignored, then falls back to matching the end of the
/// path, component by component.
pub fn find_matches(repos: &Vec<String>, query: &str) -> (r: Vec<String>)
    ensures
        texts(r@) == matching(texts(repos@), query@),
{
    let exact = paths_named(repos, query);
    if exact.len() > 0 {
        return exact;
    }
    let wanted = strings_of(&split(&chars_of(query), '/'));
    let ghost all = texts(repos@);
    let ghost flags = suffix_flags(all, split_on(query@, '/'));
    let mut r: Vec<String> = Vec::new();
    let mut i: usize = 0;
    assert(all.take(0) =~= Seq::<Seq<char>>::empty());
    assert(texts(r@) =~= pick(all.take(0), flags.take(0)));
    while i < repos.len()
        invariant
            i <= repos.len(),
            all == texts(repos@),
            flags == suffix_flags(all, split_on(query@, '/')),
            texts(wanted@) == split_on(query@, '/'),
            texts(r@) == pick(all.take(i as int), flags.take(i as int)),
        decreases repos.len() - i,
    {
        proof {
            assert(all.take(i + 1).drop_last() =~= all.take(i as int));
            assert(flags.take(i + 1).drop_last() =~= flags.take(i as int));
            assert(all.take(i + 1).last() == repos@[i as int]@);
            assert(flags.take(i + 1).last() == ends_with_parts(
                components(repos@[i as int]@),
                split_on(query@, '/'),
            ));
        }
        if path_suffix_matches(repos[i].as_str(), &wanted) {
            let ghost before = r@;
            r.push(repos[i].clone());
            assert(texts(r@) =~= texts(before).push(repos@[i as int]@));
        }
        i += 1;
    }
    assert(all.take(repos.len() as int) =~= all);
    assert(flags.take(repos.len() as int) =~= flags);
    r
}

/// The distances as numbers without bound.
pub open spec fn as_nats(v: Seq<usize>) -> Seq<nat> {
    Seq::new(v.len(), |i: int| v[i] as nat)
}

/// The index of the name to suggest among names with these distances.
pub fn pick_suggestion(distances: &Vec<usize>) -> (r: Option<usize>)
    ensures
        match r {
            Some(i) => best_index(as_nats(distances@)) == Some(i as int) && i < distances.len(),
            None => best_index(as_nats(distances@)) is None,
        },
{
    let ghost all = as_nats(distances@);
    let mut best: Option<usize> = None;
    let mut i: usize = 0;
    assert(all.take(0) =~= Seq::<nat>::empty());
    while i < distances.len()
        invariant
            i <= distances.len(),
            all == as_nats(distances@),
            match best {
                Some(b) => best_index(all.take(i as int)) == Some(b as int) && b < i,
                None => best_index(all.take(i as int)) is None,
            },
        decreases distances.len() - i,
    {
        let ghost upto = all.take(i + 1);
        assert(upto.drop_last() =~= all.take(i as int));
        assert(upto.last() == distances@[i as int] as nat);
        let d = distances[i];
        let close = 0 < d && d <= MAX_EDIT_DISTANCE;
        let better = match best {
            Some(b) => {
                assert(upto[b as int] == distances@[b as int] as nat);
                d < distances[b]
            },
            None => true,
        };
        if close && better {
            best = Some(i);
        }
        i += 1;
    }
    assert(all.take(distances.len() as int) =~= all);
    best
}

/// The last names of the paths that have one, in order.
pub fn base_names_of(paths: &Vec<String>) -> (r: Vec<String>)
    ensures
        texts(r@) == base_names(texts(paths@)),
{
    let ghost all = texts(paths@);
    let mut r: Vec<String> = Vec::new();
    let mut i: usize = 0;
    assert(all.take(0) =~= Seq::<Seq<char>>::empty());
    assert(texts(r@) =~= base_names(all.take(0)));
    while i < paths.len()
        invariant
            i <= paths.len(),
            all == texts(paths@),
            texts(r@) == base_names(all.take(i as int)),
        decreases paths.len() - i,
    {
        let ghost upto = all.take(i + 1);
        assert(upto.drop_last() =~= all.take(i as int));
        assert(upto.last() == paths@[i as int]@);
        match file_name_chars(&chars_of(paths[i].as_str())) {
            Some(n) => {
                let ghost before = r@;
                r.push(string_of(&n));
                assert(texts(r@) =~= texts(before).push(n@));
            },
            None => {},
        }
        i += 1;
    }
    assert(all.take(paths.len() as int) =~= all);
    r
}

/// Finds the closest repository name to the query by edit distance, for a
/// query that found nothing: the first of the names at the least distance,
/// if that distance is close and not zero.
pub fn find_suggestion(repos: &Vec<String>, query: &str) -> (r: Option<String>)
    ensures
        match r {
            Some(name) => suggestion(texts(repos@), query@) == Some(name@),
            None => suggestion(texts(repos@), query@) is None,
        },
{
    let names = base_names_of(repos);
    let wanted = to_lowercase(query);
    let mut distances: Vec<usize> = Vec::new();
    let mut i: usize = 0;
    while i < names.len()
        invariant
            i <= names.len(),
            distances.len() == i,
            wanted@ == lowercase(query@),
            forall|j: int|
                0 <= j < i ==> #[trigger] distances@[j] as nat == edit_distance(
                    lowercase(query@),
                    lowercase(names@[j]@),
                ),
        decreases names.len() - i,
    {
        let low = to_lowercase(names[i].as_str());
        distances.push(levenshtein(wanted.as_str(), low.as_str()));
        i += 1;
    }
    assert(as_nats(distances@) =~= distances_from(texts(names@), query@));
    match pick_suggestion(&distances) {
        Some(k) => Some(names[k].clone()),
        None => None,
    }
}

/// What the paths that a name found come to: nothing, one path, or several.
pub fn classify_matches(found: Vec<String>) -> (r: Lookup)
    ensures
        lookup_of(texts(found@), r),
{
    let mut found = found;
    if found.len() == 0 {
        Lookup::Missing
    } else if found.len() == 1 {
        let ghost before = found@;
        let only = found.remove(0);
        assert(texts(before)[0] == only@);
        Lookup::Found(only)
    } else {
        Lookup::Ambiguous(found)
    }
}

/// The repository that a name stands for among the scanned ones, if it
/// stands for exactly one.
pub fn resolve_repo(repos: &Vec<String>, name_or_path: &str) -> (r: Option<String>)
    ensures
        match r {
            Some(path) => matching(texts(repos@), name_or_path@) == seq![path@],
            None => matching(texts(repos@), name_or_path@).len() != 1,
        },
{
    let mut found = find_matches(repos, name_or_path);
    if found.len() == 1 {
        let ghost before = found@;
        let only = found.remove(0);
        assert(texts(before) =~= seq![only@]);
        Some(only)
    } else {
        None
    }
}

/// The names that complete a repository on the command line: the last
/// names of the scanned repositories, in the order of strings, each once.
pub fn complete_repo_names(repos: &Vec<String>) -> (r: Vec<String>)
    ensures
        texts(r@) == normalized(base_names(texts(repos@))),
{
    normalize_paths(base_names_of(repos))
}

/// The names that complete a pool on the command line: the last names of
/// the pools, in the order of the configuration.
pub fn complete_pool_names(pools: &Vec<String>) -> (r: Vec<String>)
    ensures
        texts(r@) == base_names(texts(pools@)),
{
    base_names_of(pools)
}

} // verus!
