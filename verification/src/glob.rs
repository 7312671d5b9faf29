//! The wildcard matcher: a pattern is literal text with `*` standing for any
//! run of characters. There is no `?`, no character class and no escape.

use vstd::prelude::*;
use crate::text::{
    contains_text, lemma_split_concat,
    chars_of, ends_with, find_from, first_at, has_prefix, has_suffix, lemma_split_single, occurs_at,
    same_chars, split, split_on, starts_with, views,
};

verus! {

/// The pieces `parts` can be laid into `text` in order, none overlapping the
/// one before it, the first beginning at or after `from`.
pub open spec fn placeable(parts: Seq<Seq<char>>, text: Seq<char>, from: int) -> bool
    decreases parts.len(),
{
    if parts.len() == 0 {
        true
    } else {
        exists|i: int|
            from <= i && #[trigger] occurs_at(text, parts[0], i) && placeable(
                parts.drop_first(),
                text,
                i + parts[0].len(),
            )
    }
}

/// Whether `text` matches `pattern`. Without a `*` the two must be equal.
/// With one, the text must begin with what stands before the first `*`, end
/// with what stands after the last, and hold the pieces between two stars in
/// order, after that beginning and without overlap among them.
pub open spec fn glob_matches(pattern: Seq<char>, text: Seq<char>) -> bool {
    let parts = split_on(pattern, '*');
    if parts.len() == 1 {
        pattern == text
    } else {
        &&& has_prefix(text, parts.first())
        &&& has_suffix(text, parts.last())
        &&& placeable(parts.subrange(1, parts.len() - 1), text, parts.first().len() as int)
    }
}

/// Pieces that fit from a later start fit from an earlier one.
proof fn lemma_placeable_earlier(parts: Seq<Seq<char>>, text: Seq<char>, from: int, earlier: int)
    requires
        placeable(parts, text, from),
        earlier <= from,
    ensures
        placeable(parts, text, earlier),
{
    if parts.len() > 0 {
        let i = choose|i: int|
            from <= i && #[trigger] occurs_at(text, parts[0], i) && placeable(
                parts.drop_first(),
                text,
                i + parts[0].len(),
            );
        assert(earlier <= i && occurs_at(text, parts[0], i));
    }
}

/// Taking the first place where a piece fits loses nothing: the pieces fit
/// from `from` exactly if the rest fits behind that first place.
proof fn lemma_placeable_greedy(parts: Seq<Seq<char>>, text: Seq<char>, from: int, i: int)
    requires
        parts.len() > 0,
        first_at(text, parts[0], from, i),
    ensures
        placeable(parts, text, from) == placeable(parts.drop_first(), text, i + parts[0].len()),
{
    if placeable(parts, text, from) {
        let k = choose|k: int|
            from <= k && #[trigger] occurs_at(text, parts[0], k) && placeable(
                parts.drop_first(),
                text,
                k + parts[0].len(),
            );
        assert(i <= k);
        lemma_placeable_earlier(parts.drop_first(), text, k + parts[0].len(), i + parts[0].len());
    }
}

/// A pattern without `*` matches its own text and no other.
pub proof fn law_literal_pattern(pattern: Seq<char>, text: Seq<char>)
    requires
        !pattern.contains('*'),
    ensures
        glob_matches(pattern, text) == (pattern == text),
{
    lemma_split_single(pattern, '*');
}

/// The pattern `*` matches every text, the empty one too.
pub proof fn law_star_matches_all(text: Seq<char>)
    ensures
        glob_matches(seq!['*'], text),
        glob_matches("*"@, text),
{
    reveal_strlit("*");
    let pattern = seq!['*'];
    assert("*"@ =~= pattern);
    assert(pattern.drop_last() =~= Seq::<char>::empty());
    reveal_with_fuel(split_on, 2);
    let parts = split_on(pattern, '*');
    assert(parts =~= seq![Seq::<char>::empty(), Seq::<char>::empty()]);
    assert(text.subrange(0, 0) =~= Seq::<char>::empty());
    assert(text.subrange(text.len() as int, text.len() as int) =~= Seq::<char>::empty());
    assert(parts.subrange(1, 1) =~= Seq::<Seq<char>>::empty());
}

/// The pattern `**` matches every text as well.
pub proof fn law_double_star_matches_all(text: Seq<char>)
    ensures
        glob_matches(seq!['*', '*'], text),
{
    let pattern = seq!['*', '*'];
    assert(pattern.drop_last() =~= seq!['*']);
    assert(seq!['*'].drop_last() =~= Seq::<char>::empty());
    reveal_with_fuel(split_on, 3);
    let e = Seq::<char>::empty();
    let parts = split_on(pattern, '*');
    assert(parts =~= seq![e, e, e]);
    assert(text.subrange(0, 0) =~= e);
    assert(text.subrange(text.len() as int, text.len() as int) =~= e);
    let inner = parts.subrange(1, 2);
    assert(inner[0] == e);
    assert(occurs_at(text, inner[0], 0));
    assert(inner.drop_first() =~= Seq::<Seq<char>>::empty());
    assert(placeable(inner.drop_first(), text, 0int + inner[0].len()));
}

/// The empty pattern matches the empty text alone.
pub proof fn law_empty_pattern(text: Seq<char>)
    ensures
        glob_matches(Seq::<char>::empty(), text) == (text.len() == 0),
{
    law_literal_pattern(Seq::<char>::empty(), text);
    if text.len() == 0 {
        assert(text =~= Seq::<char>::empty());
    }
}

/// A literal followed by `*` matches exactly the texts that begin with the
/// literal.
pub proof fn law_prefix_pattern(prefix: Seq<char>, text: Seq<char>)
    requires
        !prefix.contains('*'),
    ensures
        glob_matches(prefix.push('*'), text) == has_prefix(text, prefix),
{
    let e = Seq::<char>::empty();
    lemma_split_single(prefix, '*');
    lemma_split_concat(prefix, e, '*');
    assert(prefix.push('*') + e =~= prefix.push('*'));
    let parts = split_on(prefix.push('*'), '*');
    assert(split_on(prefix, '*') =~= seq![prefix]);
    assert(split_on(e, '*') =~= seq![e]);
    assert(parts =~= seq![prefix, e]);
    assert(text.subrange(text.len() as int, text.len() as int) =~= e);
    assert(parts.subrange(1, 1) =~= Seq::<Seq<char>>::empty());
}

/// `*` followed by a literal matches exactly the texts that end with the
/// literal.
pub proof fn law_suffix_pattern(suffix: Seq<char>, text: Seq<char>)
    requires
        !suffix.contains('*'),
    ensures
        glob_matches(seq!['*'] + suffix, text) == has_suffix(text, suffix),
{
    let e = Seq::<char>::empty();
    lemma_split_single(suffix, '*');
    lemma_split_concat(e, suffix, '*');
    assert(e.push('*') =~= seq!['*']);
    let parts = split_on(seq!['*'] + suffix, '*');
    assert(split_on(suffix, '*') =~= seq![suffix]);
    assert(split_on(e, '*') =~= seq![e]);
    assert(parts =~= seq![e, suffix]);
    assert(text.subrange(0, 0) =~= e);
    assert(parts.subrange(1, 1) =~= Seq::<Seq<char>>::empty());
}

/// A literal between two `*` matches exactly the texts that hold the
/// literal somewhere.
pub proof fn law_infix_pattern(infix: Seq<char>, text: Seq<char>)
    requires
        !infix.contains('*'),
    ensures
        glob_matches((seq!['*'] + infix).push('*'), text) == contains_text(text, infix),
{
    let e = Seq::<char>::empty();
    lemma_split_single(infix, '*');
    lemma_split_concat(e, infix, '*');
    assert(e.push('*') =~= seq!['*']);
    assert(split_on(infix, '*') =~= seq![infix]);
    assert(split_on(e, '*') =~= seq![e]);
    assert(split_on(seq!['*'] + infix, '*') =~= seq![e, infix]);
    lemma_split_concat(seq!['*'] + infix, e, '*');
    assert((seq!['*'] + infix).push('*') + e =~= (seq!['*'] + infix).push('*'));
    let parts = split_on((seq!['*'] + infix).push('*'), '*');
    assert(parts =~= seq![e, infix, e]);
    assert(text.subrange(0, 0) =~= e);
    assert(text.subrange(text.len() as int, text.len() as int) =~= e);
    let inner = parts.subrange(1, 2);
    assert(inner =~= seq![infix]);
    assert(inner.drop_first() =~= Seq::<Seq<char>>::empty());
    if contains_text(text, infix) {
        let j = choose|j: int| occurs_at(text, infix, j);
        assert(0 <= j && occurs_at(text, inner[0], j));
        assert(placeable(inner.drop_first(), text, j + inner[0].len()));
        assert(placeable(inner, text, 0));
    }
    if placeable(inner, text, 0) {
        let i = choose|i: int|
            0 <= i && #[trigger] occurs_at(text, inner[0], i) && placeable(
                inner.drop_first(),
                text,
                i + inner[0].len(),
            );
        assert(occurs_at(text, infix, i));
    }
}

/// Whether `text` matches `pattern`, both given as characters.
pub fn glob_match_chars(pattern: &Vec<char>, text: &Vec<char>) -> (r: bool)
    ensures
        r == glob_matches(pattern@, text@),
{
    let parts = split(pattern, '*');
    let n = parts.len();
    if n == 1 {
        return same_chars(pattern, text);
    }
    let ghost all = split_on(pattern@, '*');
    let ghost inner = all.subrange(1, n - 1);
    assert(all[0] == parts@[0]@);
    assert(all[n - 1] == parts@[n - 1]@);
    if !starts_with(text, &parts[0]) {
        return false;
    }
    let mut pos: usize = parts[0].len();
    let mut k: usize = 1;
    assert(all.subrange(1, n - 1) =~= inner);
    while k < n - 1
        invariant
            1 <= k <= n - 1,
            n == parts.len(),
            n >= 2,
            views(parts@) == all,
            all == split_on(pattern@, '*'),
            inner == all.subrange(1, n - 1),
            pos <= text.len(),
            placeable(inner, text@, all[0].len() as int) == placeable(
                all.subrange(k as int, n - 1),
                text@,
                pos as int,
            ),
        decreases n - k,
    {
        let part = &parts[k];
        let ghost rest = all.subrange(k as int, n - 1);
        assert(rest[0] == part@);
        assert(rest.drop_first() =~= all.subrange(k + 1, n - 1));
        match find_from(text, part, pos) {
            Some(i) => {
                proof {
                    lemma_placeable_greedy(rest, text@, pos as int, i as int);
                }
                pos = i + part.len();
            },
            None => {
                assert(!placeable(rest, text@, pos as int));
                return false;
            },
        }
        k += 1;
    }
    assert(all.subrange(k as int, n - 1) =~= Seq::<Seq<char>>::empty());
    ends_with(text, &parts[n - 1])
}

/// Whether `text` matches `pattern`.
pub fn glob_match(pattern: &str, text: &str) -> (r: bool)
    ensures
        r == glob_matches(pattern@, text@),
{
    let p = chars_of(pattern);
    let t = chars_of(text);
    glob_match_chars(&p, &t)
}

} // verus!
