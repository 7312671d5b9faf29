//! Sequences of texts: the first element with a property, stable sorting by
//! the order of strings, and the removal of repeated neighbours.

use vstd::prelude::*;
use crate::text::{
    chars_of_all, copy_chars, lemma_lex_antisymmetric, lemma_lex_reflexive, lemma_lex_total,
    lemma_lex_transitive, lex_before, lex_le, lex_lt, same_chars, strings_of, texts, views,
};

verus! {

/// The index of the first element of `s` that satisfies `p`.
pub open spec fn first_index<T>(s: Seq<T>, p: spec_fn(T) -> bool) -> Option<int>
    decreases s.len(),
{
    if s.len() == 0 {
        None
    } else {
        match first_index(s.drop_last(), p) {
            Some(i) => Some(i),
            None => if p(s.last()) {
                Some(s.len() - 1)
            } else {
                None
            },
        }
    }
}

/// What `first_index` finds is in range, satisfies the property, and
/// nothing before it does; where it finds nothing, no element does.
pub proof fn lemma_first_index<T>(s: Seq<T>, p: spec_fn(T) -> bool)
    ensures
        match first_index(s, p) {
            Some(i) => 0 <= i < s.len() && p(s[i]) && forall|j: int| 0 <= j < i ==> !p(s[j]),
            None => forall|j: int| 0 <= j < s.len() ==> !p(s[j]),
        },
    decreases s.len(),
{
    if s.len() > 0 {
        lemma_first_index(s.drop_last(), p);
        assert(forall|j: int| 0 <= j < s.len() - 1 ==> s.drop_last()[j] == s[j]);
    }
}

/// An element that satisfies `p`, with none before it that does, is what
/// `first_index` finds.
pub proof fn lemma_first_index_is<T>(s: Seq<T>, p: spec_fn(T) -> bool, i: int)
    requires
        0 <= i < s.len(),
        p(s[i]),
        forall|j: int| 0 <= j < i ==> !p(s[j]),
    ensures
        first_index(s, p) == Some(i),
{
    lemma_first_index(s, p);
}

/// Where no element satisfies `p`, `first_index` finds nothing.
pub proof fn lemma_first_index_none<T>(s: Seq<T>, p: spec_fn(T) -> bool)
    requires
        forall|j: int| 0 <= j < s.len() ==> !p(s[j]),
    ensures
        first_index(s, p) is None,
{
    lemma_first_index(s, p);
}

/// The elements of `s` whose flag in `keep` is set, in order.
pub open spec fn pick<T>(s: Seq<T>, keep: Seq<bool>) -> Seq<T>
    decreases s.len(),
{
    if s.len() == 0 || keep.len() != s.len() {
        Seq::empty()
    } else if keep.last() {
        pick(s.drop_last(), keep.drop_last()).push(s.last())
    } else {
        pick(s.drop_last(), keep.drop_last())
    }
}

/// The flags of `keep`, each turned round.
pub open spec fn negated(keep: Seq<bool>) -> Seq<bool> {
    Seq::new(keep.len(), |i: int| !keep[i])
}

/// Where the element `index` goes among the already ordered `order`: behind
/// the last element whose key does not come after `key`.
pub open spec fn insert_position(keys: Seq<Seq<char>>, order: Seq<int>, key: Seq<char>) -> int
    decreases order.len(),
{
    if order.len() == 0 {
        0
    } else if lex_le(keys[order.last()], key) {
        order.len() as int
    } else {
        insert_position(keys, order.drop_last(), key)
    }
}

/// The indices of `keys` in sorted order: by key in the order of strings,
/// equal keys in the order in which they stand in `keys`.
pub open spec fn stable_order(keys: Seq<Seq<char>>) -> Seq<int>
    decreases keys.len(),
{
    if keys.len() == 0 {
        Seq::empty()
    } else {
        let front = stable_order(keys.drop_last());
        front.insert(insert_position(keys, front, keys.last()), keys.len() - 1)
    }
}

/// The elements of `s` rearranged by `order`.
pub open spec fn arranged<T>(s: Seq<T>, order: Seq<int>) -> Seq<T> {
    Seq::new(order.len(), |k: int| s[order[k]])
}

/// `keys` sorted in the order of strings.
pub open spec fn sorted(keys: Seq<Seq<char>>) -> Seq<Seq<char>> {
    arranged(keys, stable_order(keys))
}

/// `s` with every element that repeats its left neighbour removed.
pub open spec fn dedup(s: Seq<Seq<char>>) -> Seq<Seq<char>>
    decreases s.len(),
{
    if s.len() == 0 {
        Seq::empty()
    } else {
        let front = dedup(s.drop_last());
        if front.len() > 0 && front.last() == s.last() {
            front
        } else {
            front.push(s.last())
        }
    }
}

/// Every key along `order` comes before, or equals, the one after it.
pub open spec fn ordered_along(keys: Seq<Seq<char>>, order: Seq<int>) -> bool {
    forall|a: int, b: int|
        0 <= a <= b < order.len() ==> lex_le(#[trigger] keys[order[a]], #[trigger] keys[order[b]])
}

/// `order` holds each index below `n` exactly once.
pub open spec fn is_permutation(order: Seq<int>, n: int) -> bool {
    &&& order.len() == n
    &&& forall|k: int| 0 <= k < order.len() ==> 0 <= #[trigger] order[k] < n
    &&& forall|a: int, b: int|
        0 <= a < b < order.len() ==> #[trigger] order[a] != #[trigger] order[b]
}

/// Equal keys stand along `order` as they stood in `keys`.
pub open spec fn keeps_ties(keys: Seq<Seq<char>>, order: Seq<int>) -> bool {
    forall|a: int, b: int|
        0 <= a < b < order.len() && #[trigger] keys[order[a]] == #[trigger] keys[order[b]]
            ==> order[a] < order[b]
}

/// The insert position lies within `order`; every key before it comes
/// before, or equals, `key`; every key from it on comes strictly after.
proof fn lemma_insert_position(keys: Seq<Seq<char>>, order: Seq<int>, key: Seq<char>)
    requires
        ordered_along(keys, order),
    ensures
        0 <= insert_position(keys, order, key) <= order.len(),
        forall|a: int|
            0 <= a < insert_position(keys, order, key) ==> lex_le(#[trigger] keys[order[a]], key),
        forall|a: int|
            insert_position(keys, order, key) <= a < order.len() ==> !lex_le(
                #[trigger] keys[order[a]],
                key,
            ),
    decreases order.len(),
{
    if order.len() > 0 {
        let front = order.drop_last();
        assert(forall|a: int| 0 <= a < front.len() ==> front[a] == order[a]);
        let last = order.len() - 1;
        if lex_le(keys[order.last()], key) {
            assert forall|a: int| 0 <= a < order.len() implies lex_le(
                #[trigger] keys[order[a]],
                key,
            ) by {
                assert(lex_le(keys[order[a]], keys[order[last]]));
                lemma_lex_transitive(keys[order[a]], keys[order[last]], key);
            }
        } else {
            assert(ordered_along(keys, front)) by {
                assert forall|a: int, b: int| 0 <= a <= b < front.len() implies lex_le(
                    #[trigger] keys[front[a]],
                    #[trigger] keys[front[b]],
                ) by {
                    assert(lex_le(keys[order[a]], keys[order[b]]));
                }
            }
            lemma_insert_position(keys, front, key);
        }
    }
}

/// The sorted order is a rearrangement of all indices, runs upward by key,
/// and keeps equal keys in their first order.
pub proof fn lemma_stable_order(keys: Seq<Seq<char>>)
    ensures
        is_permutation(stable_order(keys), keys.len() as int),
        ordered_along(keys, stable_order(keys)),
        keeps_ties(keys, stable_order(keys)),
    decreases keys.len(),
{
    if keys.len() > 0 {
        let shorter = keys.drop_last();
        let front = stable_order(shorter);
        lemma_stable_order(shorter);
        let n = keys.len() - 1;
        let key = keys.last();
        assert(forall|k: int| 0 <= k < front.len() ==> shorter[front[k]] == keys[front[k]]);
        assert(ordered_along(keys, front)) by {
            assert forall|a: int, b: int| 0 <= a <= b < front.len() implies lex_le(
                #[trigger] keys[front[a]],
                #[trigger] keys[front[b]],
            ) by {
                assert(lex_le(shorter[front[a]], shorter[front[b]]));
            }
        }
        lemma_insert_position(keys, front, key);
        let pos = insert_position(keys, front, key);
        let order = front.insert(pos, n);
        assert(order == stable_order(keys));
        assert(forall|k: int| 0 <= k < pos ==> order[k] == front[k]);
        assert(order[pos] == n);
        assert(forall|k: int| pos < k < order.len() ==> order[k] == front[k - 1]);
        assert(is_permutation(order, keys.len() as int));
        assert forall|a: int, b: int| 0 <= a <= b < order.len() implies lex_le(
            #[trigger] keys[order[a]],
            #[trigger] keys[order[b]],
        ) by {
            if a == b {
                crate::text::lemma_lex_reflexive(keys[order[a]]);
            } else if b < pos {
                assert(lex_le(shorter[front[a]], shorter[front[b]]));
            } else if b == pos {
                assert(lex_le(keys[front[a]], key));
            } else if a < pos {
                assert(lex_le(shorter[front[a]], shorter[front[b - 1]]));
            } else if a == pos {
                assert(!lex_le(keys[front[b - 1]], key));
                lemma_lex_total(keys[front[b - 1]], key);
            } else {
                assert(lex_le(shorter[front[a - 1]], shorter[front[b - 1]]));
            }
        }
        assert forall|a: int, b: int|
            0 <= a < b < order.len() && #[trigger] keys[order[a]] == #[trigger] keys[order[b]]
            implies order[a] < order[b] by {
            if b < pos {
                assert(shorter[front[a]] == shorter[front[b]]);
            } else if b == pos {
            } else if a < pos {
                assert(shorter[front[a]] == shorter[front[b - 1]]);
            } else if a == pos {
                assert(!lex_le(keys[front[b - 1]], key));
                crate::text::lemma_lex_reflexive(key);
            } else {
                assert(shorter[front[a - 1]] == shorter[front[b - 1]]);
            }
        }
    }
}

/// The exec form of an order: the same indices as machine integers.
pub open spec fn as_order(r: Seq<usize>) -> Seq<int> {
    Seq::new(r.len(), |k: int| r[k] as int)
}

/// The indices of `keys` in sorted order, equal keys in their first order.
pub fn sort_order(keys: &Vec<Vec<char>>) -> (r: Vec<usize>)
    ensures
        as_order(r@) == stable_order(views(keys@)),
        r.len() == keys.len(),
        forall|k: int| 0 <= k < r.len() ==> r@[k] < keys.len(),
{
    let mut r: Vec<usize> = Vec::new();
    let mut i: usize = 0;
    let ghost all = views(keys@);
    assert(all.take(0) =~= Seq::<Seq<char>>::empty());
    assert(as_order(r@) =~= stable_order(all.take(0)));
    while i < keys.len()
        invariant
            i <= keys.len(),
            all == views(keys@),
            r.len() == i,
            forall|k: int| 0 <= k < r.len() ==> r@[k] < i,
            as_order(r@) == stable_order(all.take(i as int)),
        decreases keys.len() - i,
    {
        let ghost upto = all.take(i + 1);
        let ghost front = as_order(r@);
        assert(upto.drop_last() =~= all.take(i as int));
        assert(upto.last() == keys@[i as int]@);
        let mut p: usize = r.len();
        assert(front.take(p as int) =~= front);
        while p > 0 && !lex_before(&keys[r[p - 1]], &keys[i])
            invariant
                p <= r.len(),
                r.len() == i,
                i < keys.len(),
                all == views(keys@),
                upto == all.take(i + 1),
                front == as_order(r@),
                forall|k: int| 0 <= k < r.len() ==> r@[k] < i,
                insert_position(upto, front, keys@[i as int]@) == insert_position(
                    upto,
                    front.take(p as int),
                    keys@[i as int]@,
                ),
            decreases p,
        {
            assert(front.take(p as int).last() == r@[p - 1]);
            assert(upto[r@[p - 1] as int] == keys@[r@[p - 1] as int]@);
            assert(front.take(p as int).drop_last() =~= front.take(p - 1));
            p -= 1;
        }
        proof {
            if p > 0 {
                assert(front.take(p as int).last() == r@[p - 1]);
                assert(upto[r@[p - 1] as int] == keys@[r@[p - 1] as int]@);
            }
            assert(insert_position(upto, front, keys@[i as int]@) == p);
        }
        r.insert(p, i);
        assert(as_order(r@) =~= front.insert(p as int, i as int));
        i += 1;
    }
    assert(all.take(keys.len() as int) =~= all);
    r
}

/// Whether `a` and `b` hold the same texts in the same order.
pub fn same_texts(a: &Vec<Vec<char>>, b: &Vec<Vec<char>>) -> (r: bool)
    ensures
        r == (views(a@) == views(b@)),
{
    if a.len() != b.len() {
        assert(views(a@).len() != views(b@).len());
        return false;
    }
    let mut i: usize = 0;
    while i < a.len()
        invariant
            i <= a.len(),
            a.len() == b.len(),
            forall|j: int| 0 <= j < i ==> a@[j]@ == b@[j]@,
        decreases a.len() - i,
    {
        if !same_chars(&a[i], &b[i]) {
            assert(views(a@)[i as int] == a@[i as int]@);
            assert(views(b@)[i as int] == b@[i as int]@);
            return false;
        }
        i += 1;
    }
    assert(views(a@) =~= views(b@));
    true
}

/// The first index of `list` that holds the text `x`.
pub fn index_of_text(list: &Vec<Vec<char>>, x: &Vec<char>) -> (r: Option<usize>)
    ensures
        match r {
            Some(j) => j < list.len() && list@[j as int]@ == x@ && forall|k: int|
                0 <= k < j ==> list@[k]@ != x@,
            None => forall|k: int| 0 <= k < list.len() ==> list@[k]@ != x@,
        },
{
    let mut j: usize = 0;
    while j < list.len()
        invariant
            j <= list.len(),
            forall|k: int| 0 <= k < j ==> list@[k]@ != x@,
        decreases list.len() - j,
    {
        if same_chars(&list[j], x) {
            return Some(j);
        }
        j += 1;
    }
    None
}

/// `paths` in the order of strings, each path once.
pub open spec fn normalized(paths: Seq<Seq<char>>) -> Seq<Seq<char>> {
    dedup(sorted(paths))
}

/// Every element comes before, or equals, each one after it.
pub open spec fn increasing(s: Seq<Seq<char>>) -> bool {
    forall|a: int, b: int| 0 <= a <= b < s.len() ==> lex_le(#[trigger] s[a], #[trigger] s[b])
}

/// Every element comes strictly before each one after it, so that none
/// occurs twice.
pub open spec fn strictly_increasing(s: Seq<Seq<char>>) -> bool {
    forall|a: int, b: int| 0 <= a < b < s.len() ==> lex_lt(#[trigger] s[a], #[trigger] s[b])
}

/// The sorted order holds every index.
proof fn lemma_order_complete(keys: Seq<Seq<char>>, i: int)
    requires
        0 <= i < keys.len(),
    ensures
        stable_order(keys).contains(i),
    decreases keys.len(),
{
    let front = stable_order(keys.drop_last());
    lemma_stable_order(keys.drop_last());
    lemma_stable_order(keys);
    let n = keys.len() - 1;
    assert forall|k: int| 0 <= k < front.len() implies keys.drop_last()[front[k]]
        == keys[#[trigger] front[k]] by {}
    assert(ordered_along(keys, front)) by {
        assert forall|a: int, b: int| 0 <= a <= b < front.len() implies lex_le(
            #[trigger] keys[front[a]],
            #[trigger] keys[front[b]],
        ) by {
            assert(lex_le(keys.drop_last()[front[a]], keys.drop_last()[front[b]]));
        }
    }
    lemma_insert_position(keys, front, keys.last());
    let pos = insert_position(keys, front, keys.last());
    let order = front.insert(pos, n);
    assert(order == stable_order(keys));
    if i == n {
        assert(order[pos] == n);
    } else {
        lemma_order_complete(keys.drop_last(), i);
        let k = choose|k: int| 0 <= k < front.len() && front[k] == i;
        if k < pos {
            assert(order[k] == i);
        } else {
            assert(order[k + 1] == i);
        }
    }
}

/// Sorting gives an increasing sequence of the same length with the same
/// elements.
pub proof fn lemma_sorted(keys: Seq<Seq<char>>)
    ensures
        increasing(sorted(keys)),
        sorted(keys).len() == keys.len(),
        forall|x: Seq<char>| sorted(keys).contains(x) <==> keys.contains(x),
{
    lemma_stable_order(keys);
    let order = stable_order(keys);
    let out = sorted(keys);
    assert forall|a: int, b: int| 0 <= a <= b < out.len() implies lex_le(
        #[trigger] out[a],
        #[trigger] out[b],
    ) by {
        assert(lex_le(keys[order[a]], keys[order[b]]));
    }
    assert forall|x: Seq<char>| out.contains(x) <==> keys.contains(x) by {
        if out.contains(x) {
            let k = choose|k: int| 0 <= k < out.len() && out[k] == x;
            assert(keys[order[k]] == x);
        }
        if keys.contains(x) {
            let i = choose|i: int| 0 <= i < keys.len() && keys[i] == x;
            lemma_order_complete(keys, i);
            let k = choose|k: int| 0 <= k < order.len() && order[k] == i;
            assert(out[k] == x);
        }
    }
}

/// Removing repeated neighbours from an increasing sequence leaves a
/// strictly increasing one with the same elements and the same end.
pub proof fn lemma_dedup(s: Seq<Seq<char>>)
    requires
        increasing(s),
    ensures
        strictly_increasing(dedup(s)),
        forall|x: Seq<char>| dedup(s).contains(x) <==> s.contains(x),
        s.len() > 0 ==> dedup(s).len() > 0 && dedup(s).last() == s.last(),
        dedup(s).len() <= s.len(),
    decreases s.len(),
{
    if s.len() > 0 {
        let front = s.drop_last();
        let n = s.len() - 1;
        assert forall|a: int, b: int| 0 <= a <= b < front.len() implies lex_le(
            #[trigger] front[a],
            #[trigger] front[b],
        ) by {
            assert(lex_le(s[a], s[b]));
        }
        lemma_dedup(front);
        let d = dedup(front);
        let out = dedup(s);
        if d.len() > 0 && d.last() == s.last() {
            assert forall|x: Seq<char>| out.contains(x) <==> s.contains(x) by {
                if s.contains(x) {
                    let i = choose|i: int| 0 <= i < s.len() && s[i] == x;
                    if i == n {
                        assert(d[d.len() - 1] == x);
                    } else {
                        assert(front[i] == x);
                        assert(front.contains(x));
                        assert(d.contains(x));
                    }
                }
                if out.contains(x) {
                    assert(out == d);
                    assert(d.contains(x));
                    assert(front.contains(x));
                    let i = choose|i: int| 0 <= i < front.len() && front[i] == x;
                    assert(s[i] == x);
                }
            }
        } else {
            assert(out == d.push(s.last()));
            assert forall|a: int, b: int| 0 <= a < b < out.len() implies lex_lt(
                #[trigger] out[a],
                #[trigger] out[b],
            ) by {
                if b < d.len() {
                    assert(lex_lt(d[a], d[b]));
                } else {
                    let m = d.len() - 1;
                    assert(d.last() == front.last());
                    assert(front.last() == s[n - 1]);
                    assert(lex_le(s[n - 1], s[n]));
                    if a < m {
                        assert(lex_lt(d[a], d[m]));
                        lemma_lex_transitive(d[a], d[m], s[n]);
                        if d[a] == s[n] {
                            lemma_lex_antisymmetric(d[m], d[a]);
                        }
                    }
                }
            }
            assert forall|x: Seq<char>| out.contains(x) <==> s.contains(x) by {
                if s.contains(x) {
                    let i = choose|i: int| 0 <= i < s.len() && s[i] == x;
                    if i == n {
                        assert(out[out.len() - 1] == x);
                    } else {
                        assert(front[i] == x);
                        assert(front.contains(x));
                        assert(d.contains(x));
                        let k = choose|k: int| 0 <= k < d.len() && d[k] == x;
                        assert(out[k] == x);
                    }
                }
                if out.contains(x) {
                    let k = choose|k: int| 0 <= k < out.len() && out[k] == x;
                    if k < d.len() {
                        assert(d[k] == x);
                        assert(d.contains(x));
                        assert(front.contains(x));
                        let i = choose|i: int| 0 <= i < front.len() && front[i] == x;
                        assert(s[i] == x);
                    } else {
                        assert(s[n] == x);
                    }
                }
            }
        }
    }
}

/// Sorting an increasing sequence changes nothing.
pub proof fn lemma_sorted_of_increasing(s: Seq<Seq<char>>)
    requires
        increasing(s),
    ensures
        stable_order(s) == Seq::new(s.len(), |i: int| i),
        sorted(s) == s,
    decreases s.len(),
{
    if s.len() > 0 {
        let front = s.drop_last();
        let n = s.len() - 1;
        assert forall|a: int, b: int| 0 <= a <= b < front.len() implies lex_le(
            #[trigger] front[a],
            #[trigger] front[b],
        ) by {
            assert(lex_le(s[a], s[b]));
        }
        lemma_sorted_of_increasing(front);
        let order = stable_order(front);
        if n > 0 {
            assert(order.last() == n - 1);
            assert(lex_le(s[n - 1], s[n]));
            assert(insert_position(s, order, s.last()) == n);
        }
        assert(order.insert(n, n) =~= Seq::new(s.len(), |i: int| i));
    } else {
        assert(stable_order(s) =~= Seq::new(s.len(), |i: int| i));
    }
    assert(sorted(s) =~= s);
}

/// A strictly increasing sequence has no repeated neighbours to remove.
pub proof fn lemma_dedup_of_strict(s: Seq<Seq<char>>)
    requires
        strictly_increasing(s),
    ensures
        dedup(s) == s,
    decreases s.len(),
{
    if s.len() > 0 {
        let front = s.drop_last();
        let n = s.len() - 1;
        assert forall|a: int, b: int| 0 <= a < b < front.len() implies lex_lt(
            #[trigger] front[a],
            #[trigger] front[b],
        ) by {
            assert(lex_lt(s[a], s[b]));
        }
        lemma_dedup_of_strict(front);
        if n > 0 {
            assert(front.last() == s[n - 1]);
            assert(lex_lt(s[n - 1], s[n]));
        }
        assert(dedup(s) =~= s);
    } else {
        assert(dedup(s) =~= s);
    }
}

/// A normalized list runs strictly upward, so that it holds no path twice,
/// and holds exactly the paths that were given.
pub proof fn law_normalized(paths: Seq<Seq<char>>)
    ensures
        strictly_increasing(normalized(paths)),
        forall|x: Seq<char>| normalized(paths).contains(x) <==> paths.contains(x),
{
    lemma_sorted(paths);
    lemma_dedup(sorted(paths));
}

/// Normalizing twice gives what normalizing once gives.
pub proof fn law_normalize_idempotent(paths: Seq<Seq<char>>)
    ensures
        normalized(normalized(paths)) == normalized(paths),
{
    law_normalized(paths);
    let once = normalized(paths);
    assert(increasing(once)) by {
        assert forall|a: int, b: int| 0 <= a <= b < once.len() implies lex_le(
            #[trigger] once[a],
            #[trigger] once[b],
        ) by {
            if a == b {
                lemma_lex_reflexive(once[a]);
            } else {
                assert(lex_lt(once[a], once[b]));
            }
        }
    }
    lemma_sorted_of_increasing(once);
    lemma_dedup_of_strict(once);
}

/// The paths in the order of strings, each once.
pub fn normalize_paths(paths: Vec<String>) -> (r: Vec<String>)
    ensures
        texts(r@) == normalized(texts(paths@)),
{
    let keys = chars_of_all(&paths);
    let order = sort_order(&keys);
    let ghost wanted = sorted(views(keys@));
    let mut out: Vec<Vec<char>> = Vec::new();
    let mut k: usize = 0;
    assert(wanted.take(0) =~= Seq::<Seq<char>>::empty());
    while k < order.len()
        invariant
            k <= order.len(),
            order.len() == keys.len(),
            forall|j: int| 0 <= j < order.len() ==> order@[j] < keys.len(),
            as_order(order@) == stable_order(views(keys@)),
            wanted == sorted(views(keys@)),
            views(out@) == dedup(wanted.take(k as int)),
        decreases order.len() - k,
    {
        let cur = &keys[order[k]];
        let ghost upto = wanted.take(k + 1);
        proof {
            assert(as_order(order@)[k as int] == order@[k as int]);
            assert(wanted[k as int] == cur@);
            assert(upto.drop_last() =~= wanted.take(k as int));
            assert(upto.last() == cur@);
        }
        let repeat = out.len() > 0 && same_chars(&out[out.len() - 1], cur);
        proof {
            if out.len() > 0 {
                assert(views(out@).last() == out@[out.len() - 1]@);
            }
        }
        if !repeat {
            let ghost before = out@;
            out.push(copy_chars(cur));
            assert(views(out@) =~= views(before).push(cur@));
        }
        k += 1;
    }
    assert(wanted.take(order.len() as int) =~= wanted);
    strings_of(&out)
}

/// Picking by flags and picking by the negated flags splits a sequence:
/// the two parts together hold what it holds, each element as often.
pub proof fn lemma_pick_partition<T>(s: Seq<T>, keep: Seq<bool>)
    requires
        keep.len() == s.len(),
    ensures
        (pick(s, keep) + pick(s, negated(keep))).to_multiset() == s.to_multiset(),
    decreases s.len(),
{
    broadcast use vstd::seq_lib::to_multiset_build;

    let yes = pick(s, keep);
    let no = pick(s, negated(keep));
    vstd::seq_lib::lemma_multiset_commutative(yes, no);
    if s.len() == 0 {
        assert(yes + no =~= s);
    } else {
        let front = s.drop_last();
        let flags = keep.drop_last();
        assert(negated(keep).drop_last() =~= negated(flags));
        lemma_pick_partition(front, flags);
        vstd::seq_lib::lemma_multiset_commutative(pick(front, flags), pick(front, negated(flags)));
        assert(s =~= front.push(s.last()));
        assert(s.to_multiset() =~= front.to_multiset().insert(s.last()));
        if keep.last() {
            assert(yes == pick(front, flags).push(s.last()));
            assert(no == pick(front, negated(flags)));
        } else {
            assert(yes == pick(front, flags));
            assert(no == pick(front, negated(flags)).push(s.last()));
        }
        assert((yes + no).to_multiset() =~= s.to_multiset());
    }
}

/// Moving one element to the front keeps what a sequence holds.
pub proof fn lemma_move_to_front<T>(s: Seq<T>, i: int)
    requires
        0 <= i < s.len(),
    ensures
        (seq![s[i]] + s.remove(i)).to_multiset() == s.to_multiset(),
{
    broadcast use vstd::seq_lib::to_multiset_build;

    let moved = seq![s[i]] + s.remove(i);
    assert(moved =~= s.remove(i).insert(0, s[i]));
    vstd::seq_lib::to_multiset_insert(s.remove(i), 0, s[i]);
    vstd::seq_lib::to_multiset_remove(s, i);
    vstd::seq_lib::to_multiset_contains(s, s[i]);
    assert(s.contains(s[i]));
    assert(moved.to_multiset() =~= s.to_multiset());
}

} // verus!
