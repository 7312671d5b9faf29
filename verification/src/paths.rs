//! Paths as text. A path is a string whose components are separated by `/`;
//! nothing here touches a file system.

use vstd::prelude::*;
use crate::text::{
    lemma_split_concat, lemma_split_single,
    append, append_str, chars_of, has_prefix, same_chars, slice_of, split, split_on, starts_with,
    string_of, views,
};

verus! {

/// A piece between separators that names something: not empty and not `.`.
pub open spec fn is_named(piece: Seq<char>) -> bool {
    piece.len() > 0 && piece != seq!['.']
}

/// The pieces of `pieces` that name something, in order.
pub open spec fn keep_named(pieces: Seq<Seq<char>>) -> Seq<Seq<char>>
    decreases pieces.len(),
{
    if pieces.len() == 0 {
        Seq::empty()
    } else if is_named(pieces.last()) {
        keep_named(pieces.drop_last()).push(pieces.last())
    } else {
        keep_named(pieces.drop_last())
    }
}

/// The names along `path`: its pieces between separators, without the empty
/// ones that repeated or trailing separators leave and without `.`.
pub open spec fn named_segments(path: Seq<char>) -> Seq<Seq<char>> {
    keep_named(split_on(path, '/'))
}

/// The components of `path`: `/` first if it is absolute, `.` first if it
/// begins with that piece, then its names.
pub open spec fn components(path: Seq<char>) -> Seq<Seq<char>> {
    if path.len() > 0 && path[0] == '/' {
        seq![seq!['/']] + named_segments(path)
    } else if split_on(path, '/')[0] == seq!['.'] {
        seq![seq!['.']] + named_segments(path)
    } else {
        named_segments(path)
    }
}

/// The last name of `path`, unless there is none or it is `..`.
pub open spec fn file_name(path: Seq<char>) -> Option<Seq<char>> {
    let names = named_segments(path);
    if names.len() > 0 && names.last() != seq!['.', '.'] {
        Some(names.last())
    } else {
        None
    }
}

/// The name of the directory that holds the last name of `path`, unless
/// there is none or it is `..`.
pub open spec fn parent_name(path: Seq<char>) -> Option<Seq<char>> {
    let names = named_segments(path);
    if names.len() > 1 && names[names.len() - 2] != seq!['.', '.'] {
        Some(names[names.len() - 2])
    } else {
        None
    }
}

/// `rest` taken from `base`: an absolute `rest` stands alone, any other is
/// appended with one separator between the two where `base` needs it.
pub open spec fn join(base: Seq<char>, rest: Seq<char>) -> Seq<char> {
    if rest.len() > 0 && rest[0] == '/' {
        rest
    } else if base.len() == 0 || base.last() == '/' {
        base + rest
    } else {
        base + seq!['/'] + rest
    }
}

/// `path` with a leading `~/` replaced by the home directory, where one is
/// known; any other path as it is.
pub open spec fn expanded(path: Seq<char>, home: Option<Seq<char>>) -> Seq<char> {
    if has_prefix(path, seq!['~', '/']) && home is Some {
        join(home->0, path.skip(2))
    } else {
        path
    }
}

/// The pieces joined with `/` between them.
pub open spec fn join_all(parts: Seq<Seq<char>>) -> Seq<char>
    decreases parts.len(),
{
    if parts.len() == 0 {
        Seq::empty()
    } else if parts.len() == 1 {
        parts[0]
    } else {
        join_all(parts.drop_last()) + seq!['/'] + parts.last()
    }
}

/// `path` lies at or below `base`: component by component, `base` is a
/// prefix of it.
pub open spec fn is_under(path: Seq<char>, base: Seq<char>) -> bool {
    components(base).is_prefix_of(components(path))
}

/// `path` as shown to the user: below the home directory, `~/` and what
/// follows the home directory; elsewhere, or with no home known, unchanged.
pub open spec fn home_display(path: Seq<char>, home: Option<Seq<char>>) -> Seq<char> {
    if home is Some && is_under(path, home->0) {
        seq!['~', '/'] + join_all(components(path).skip(components(home->0).len() as int))
    } else {
        path
    }
}

/// The optional text behind an optional string.
pub open spec fn opt_text(s: Option<&str>) -> Option<Seq<char>> {
    match s {
        Some(t) => Some(t@),
        None => None,
    }
}

/// The names along `path`.
pub fn names_of(path: &Vec<char>) -> (r: Vec<Vec<char>>)
    ensures
        views(r@) == named_segments(path@),
{
    let pieces = split(path, '/');
    let mut r: Vec<Vec<char>> = Vec::new();
    let mut i: usize = 0;
    assert(views(pieces@).take(0) =~= Seq::<Seq<char>>::empty());
    while i < pieces.len()
        invariant
            i <= pieces.len(),
            views(pieces@) == split_on(path@, '/'),
            views(r@) == keep_named(views(pieces@).take(i as int)),
        decreases pieces.len() - i,
    {
        let p = &pieces[i];
        let ghost upto = views(pieces@).take(i + 1);
        assert(upto.drop_last() =~= views(pieces@).take(i as int));
        assert(upto.last() == p@);
        let dot = p.len() == 1 && p[0] == '.';
        assert(dot == (p@ == seq!['.'])) by {
            if dot {
                assert(p@ =~= seq!['.']);
            }
        }
        if p.len() > 0 && !dot {
            let ghost before = r@;
            r.push(slice_of(p, 0, p.len()));
            assert(p@.subrange(0, p.len() as int) =~= p@);
            assert(views(r@) =~= views(before).push(p@));
        }
        i += 1;
    }
    assert(views(pieces@).take(pieces.len() as int) =~= views(pieces@));
    r
}

/// The components of `path`.
pub fn components_of(path: &Vec<char>) -> (r: Vec<Vec<char>>)
    ensures
        views(r@) == components(path@),
{
    let names = names_of(path);
    let pieces = split(path, '/');
    let mut r: Vec<Vec<char>> = Vec::new();
    if path.len() > 0 && path[0] == '/' {
        let mut root: Vec<char> = Vec::new();
        root.push('/');
        assert(root@ =~= seq!['/']);
        r.push(root);
    } else if pieces[0].len() == 1 && pieces[0][0] == '.' {
        assert(views(pieces@)[0] == pieces@[0]@);
        assert(pieces@[0]@ =~= seq!['.']);
        let mut dot: Vec<char> = Vec::new();
        dot.push('.');
        assert(dot@ =~= seq!['.']);
        r.push(dot);
    } else {
        assert(views(pieces@)[0] == pieces@[0]@);
        assert(split_on(path@, '/')[0] != seq!['.']);
    }
    let ghost head = views(r@);
    let mut i: usize = 0;
    while i < names.len()
        invariant
            i <= names.len(),
            views(r@) == head + views(names@).take(i as int),
        decreases names.len() - i,
    {
        let ghost before = r@;
        r.push(slice_of(&names[i], 0, names[i].len()));
        assert(names@[i as int]@.subrange(0, names@[i as int].len() as int) =~= names@[i as int]@);
        assert(views(r@) =~= views(before).push(names@[i as int]@));
        assert(views(names@).take(i + 1) =~= views(names@).take(i as int).push(names@[i as int]@));
        i += 1;
    }
    assert(views(names@).take(names.len() as int) =~= views(names@));
    r
}

/// Whether `c` holds the two characters `..`.
fn is_dot_dot(c: &Vec<char>) -> (r: bool)
    ensures
        r == (c@ == seq!['.', '.']),
{
    let r = c.len() == 2 && c[0] == '.' && c[1] == '.';
    if r {
        assert(c@ =~= seq!['.', '.']);
    }
    r
}

/// The last name of `path`, as characters.
pub fn file_name_chars(path: &Vec<char>) -> (r: Option<Vec<char>>)
    ensures
        match r {
            Some(name) => file_name(path@) == Some(name@),
            None => file_name(path@) is None,
        },
{
    let names = names_of(path);
    let n = names.len();
    if n == 0 {
        return None;
    }
    assert(views(names@)[n - 1] == names@[n - 1]@);
    if is_dot_dot(&names[n - 1]) {
        return None;
    }
    let name = slice_of(&names[n - 1], 0, names[n - 1].len());
    assert(name@ =~= names@[n - 1]@);
    Some(name)
}

/// The last name of `path`.
pub fn file_name_of(path: &str) -> (r: Option<String>)
    ensures
        match r {
            Some(name) => file_name(path@) == Some(name@),
            None => file_name(path@) is None,
        },
{
    let p = chars_of(path);
    match file_name_chars(&p) {
        Some(name) => Some(string_of(&name)),
        None => None,
    }
}

/// The name of the directory that holds the last name of `path`, as
/// characters.
pub fn parent_name_chars(path: &Vec<char>) -> (r: Option<Vec<char>>)
    ensures
        match r {
            Some(name) => parent_name(path@) == Some(name@),
            None => parent_name(path@) is None,
        },
{
    let names = names_of(path);
    let n = names.len();
    if n < 2 {
        return None;
    }
    assert(views(names@)[n - 2] == names@[n - 2]@);
    if is_dot_dot(&names[n - 2]) {
        return None;
    }
    let name = slice_of(&names[n - 2], 0, names[n - 2].len());
    assert(name@ =~= names@[n - 2]@);
    Some(name)
}

/// `rest` taken from `base`, both as characters.
pub fn join_chars(base: &Vec<char>, rest: &Vec<char>) -> (r: Vec<char>)
    ensures
        r@ == join(base@, rest@),
{
    let mut r: Vec<char> = Vec::new();
    if rest.len() > 0 && rest[0] == '/' {
        append(&mut r, rest);
        assert(r@ =~= rest@);
        return r;
    }
    append(&mut r, base);
    if !(base.len() == 0 || base[base.len() - 1] == '/') {
        r.push('/');
    }
    append(&mut r, rest);
    assert(r@ =~= join(base@, rest@));
    r
}

/// `rest` taken from `base`.
pub fn join_paths(base: &str, rest: &str) -> (r: String)
    ensures
        r@ == join(base@, rest@),
{
    let b = chars_of(base);
    let t = chars_of(rest);
    let j = join_chars(&b, &t);
    string_of(&j)
}

/// `path` with a leading `~/` replaced by `home`, as characters.
pub fn expand_tilde_chars(path: &Vec<char>, home: Option<&str>) -> (r: Vec<char>)
    ensures
        r@ == expanded(path@, opt_text(home)),
{
    let mut tilde: Vec<char> = Vec::new();
    tilde.push('~');
    tilde.push('/');
    assert(tilde@ =~= seq!['~', '/']);
    if starts_with(path, &tilde) {
        match home {
            Some(h) => {
                let base = chars_of(h);
                let rest = slice_of(path, 2, path.len());
                assert(rest@ =~= path@.skip(2));
                return join_chars(&base, &rest);
            },
            None => {},
        }
    }
    let r = slice_of(path, 0, path.len());
    assert(r@ =~= path@);
    r
}

/// Expands a leading `~/` to the user's home directory, where `home` gives
/// it; every other path is returned as it is.
pub fn expand_tilde(path: &str, home: Option<&str>) -> (r: String)
    ensures
        r@ == expanded(path@, opt_text(home)),
{
    let p = chars_of(path);
    let e = expand_tilde_chars(&p, home);
    string_of(&e)
}

/// Whether the component lists agree on the whole of `base`.
fn is_component_prefix(base: &Vec<Vec<char>>, path: &Vec<Vec<char>>) -> (r: bool)
    ensures
        r == views(base@).is_prefix_of(views(path@)),
{
    if base.len() > path.len() {
        return false;
    }
    let mut i: usize = 0;
    while i < base.len()
        invariant
            i <= base.len() <= path.len(),
            forall|j: int| 0 <= j < i ==> base@[j]@ == path@[j]@,
        decreases base.len() - i,
    {
        if !same_chars(&base[i], &path[i]) {
            assert(views(base@)[i as int] == base@[i as int]@);
            assert(views(path@).subrange(0, base.len() as int)[i as int] == path@[i as int]@);
            return false;
        }
        i += 1;
    }
    assert(views(base@) =~= views(path@).subrange(0, base.len() as int));
    true
}

/// Whether `path` lies at or below `base`.
pub fn path_is_under(path: &str, base: &str) -> (r: bool)
    ensures
        r == is_under(path@, base@),
{
    let p = components_of(&chars_of(path));
    let b = components_of(&chars_of(base));
    is_component_prefix(&b, &p)
}

/// The pieces `parts[from..]` joined with `/` between them.
fn join_from(parts: &Vec<Vec<char>>, from: usize) -> (r: Vec<char>)
    requires
        from <= parts.len(),
    ensures
        r@ == join_all(views(parts@).skip(from as int)),
{
    let ghost tail = views(parts@).skip(from as int);
    let mut r: Vec<char> = Vec::new();
    let mut i: usize = from;
    assert(tail.take(0) =~= Seq::<Seq<char>>::empty());
    while i < parts.len()
        invariant
            from <= i <= parts.len(),
            tail == views(parts@).skip(from as int),
            r@ == join_all(tail.take(i - from)),
        decreases parts.len() - i,
    {
        let ghost upto = tail.take(i + 1 - from);
        assert(upto.drop_last() =~= tail.take(i - from));
        assert(upto.last() == parts@[i as int]@);
        if i > from {
            r.push('/');
            append(&mut r, &parts[i]);
            assert(r@ =~= join_all(upto.drop_last()) + seq!['/'] + upto.last());
        } else {
            append(&mut r, &parts[i]);
            assert(r@ =~= upto[0]);
        }
        i += 1;
    }
    assert(tail.take(parts.len() - from) =~= tail);
    r
}

/// Formats a path for display, replacing the home directory prefix with `~`.
pub fn format_home_path(path: &str, home: Option<&str>) -> (r: String)
    ensures
        r@ == home_display(path@, opt_text(home)),
{
    match home {
        Some(h) => {
            let p = components_of(&chars_of(path));
            let b = components_of(&chars_of(h));
            if is_component_prefix(&b, &p) {
                let mut r: Vec<char> = Vec::new();
                r.push('~');
                r.push('/');
                let rest = join_from(&p, b.len());
                append(&mut r, &rest);
                assert(r@ =~= seq!['~', '/'] + rest@);
                return string_of(&r);
            }
        },
        None => {},
    }
    let mut r: Vec<char> = Vec::new();
    append_str(&mut r, path);
    assert(r@ =~= path@);
    string_of(&r)
}

/// `path` as seen from `base`: what follows `base` where `path` lies at or
/// below it, and `path` itself elsewhere.
pub open spec fn relative(path: Seq<char>, base: Seq<char>) -> Seq<char> {
    if is_under(path, base) {
        join_all(components(path).skip(components(base).len() as int))
    } else {
        path
    }
}

/// `path` as seen from `base`.
pub fn relative_to(path: &str, base: &str) -> (r: String)
    ensures
        r@ == relative(path@, base@),
{
    let p = components_of(&chars_of(path));
    let b = components_of(&chars_of(base));
    if is_component_prefix(&b, &p) {
        string_of(&join_from(&p, b.len()))
    } else {
        string_of(&chars_of(path))
    }
}

/// A name as a directory lists it: not empty, without a separator, and not
/// `.`.
pub open spec fn is_entry_name(name: Seq<char>) -> bool {
    name.len() > 0 && !name.contains('/') && name != seq!['.']
}

/// Keeping the names of two lists of pieces, one after the other, keeps the
/// names of each.
pub proof fn lemma_keep_named_concat(a: Seq<Seq<char>>, b: Seq<Seq<char>>)
    ensures
        keep_named(a + b) == keep_named(a) + keep_named(b),
    decreases b.len(),
{
    if b.len() == 0 {
        assert(a + b =~= a);
        assert(keep_named(a) + keep_named(b) =~= keep_named(a));
    } else {
        lemma_keep_named_concat(a, b.drop_last());
        assert((a + b).drop_last() =~= a + b.drop_last());
        assert((a + b).last() == b.last());
        assert(keep_named(a + b) =~= keep_named(a) + keep_named(b));
    }
}

/// Joining an entry name to a path adds one component: the path below has
/// the components of the path above, and then the name.
pub proof fn lemma_components_join(base: Seq<char>, name: Seq<char>)
    requires
        is_entry_name(name),
    ensures
        components(join(base, name)) == components(base).push(name),
{
    let e = Seq::<char>::empty();
    let joined = join(base, name);
    lemma_split_single(name, '/');
    assert(name[0] != '/') by {
        if name[0] == '/' {
            assert(name.contains('/'));
        }
    }
    assert(split_on(name, '/') =~= seq![name]);
    assert(keep_named(seq![name]) =~= seq![name]) by {
        assert(keep_named(Seq::<Seq<char>>::empty()) =~= Seq::<Seq<char>>::empty());
        assert(seq![name].drop_last() =~= Seq::<Seq<char>>::empty());
        assert(seq![name].last() == name);
    }
    if base.len() == 0 {
        assert(joined =~= name);
        assert(base =~= e);
        assert(split_on(e, '/') =~= seq![e]);
        assert(keep_named(seq![e]) =~= Seq::<Seq<char>>::empty()) by {
            assert(keep_named(Seq::<Seq<char>>::empty()) =~= Seq::<Seq<char>>::empty());
            assert(seq![e].drop_last() =~= Seq::<Seq<char>>::empty());
            assert(seq![e].last() == e);
        }
        assert(split_on(e, '/')[0] != seq!['.']);
        assert(components(joined) =~= components(base).push(name));
    } else {
        let stem = if base.last() == '/' {
            base.drop_last()
        } else {
            base
        };
        assert(joined =~= stem.push('/') + name);
        lemma_split_concat(stem, name, '/');
        lemma_split_single(stem, '/');
        lemma_keep_named_concat(split_on(stem, '/'), seq![name]);
        assert(split_on(joined, '/') == split_on(stem, '/') + seq![name]);
        assert(named_segments(joined) =~= keep_named(split_on(stem, '/')).push(name));
        if base.last() == '/' {
            assert(base =~= stem.push('/'));
            assert(split_on(base, '/') == split_on(stem, '/').push(e));
            assert(split_on(base, '/').drop_last() =~= split_on(stem, '/'));
            assert(named_segments(base) == keep_named(split_on(stem, '/')));
            assert(split_on(base, '/')[0] == split_on(stem, '/')[0]);
        }
        assert(split_on(joined, '/')[0] == split_on(base, '/')[0]);
        assert(joined[0] == base[0]);
        assert(components(joined) =~= components(base).push(name));
    }
}

/// Two paths that part ways at one component lie neither under the other.
pub proof fn lemma_paths_diverge(
    stem: Seq<Seq<char>>,
    one: Seq<char>,
    other: Seq<char>,
    a: Seq<Seq<char>>,
    b: Seq<Seq<char>>,
)
    requires
        one != other,
        stem.push(one).is_prefix_of(a),
        stem.push(other).is_prefix_of(b),
    ensures
        !a.is_prefix_of(b),
        !b.is_prefix_of(a),
{
    let n = stem.len() as int;
    assert(a.subrange(0, n + 1)[n] == stem.push(one)[n]);
    assert(b.subrange(0, n + 1)[n] == stem.push(other)[n]);
    assert(a[n] == one);
    assert(b[n] == other);
    if a.is_prefix_of(b) {
        assert(b.subrange(0, a.len() as int)[n] == a[n]);
    }
    if b.is_prefix_of(a) {
        assert(a.subrange(0, b.len() as int)[n] == b[n]);
    }
}

/// Every one of the parts is an entry name.
pub open spec fn all_entry_names(parts: Seq<Seq<char>>) -> bool {
    forall|i: int| 0 <= i < parts.len() ==> is_entry_name(#[trigger] parts[i])
}

/// The components of `path` below those of `root`.
pub open spec fn rel_components(path: Seq<char>, root: Seq<char>) -> Seq<Seq<char>> {
    components(path).skip(components(root).len() as int)
}

/// Entry names joined make a text that is not empty and does not end in a
/// separator.
pub proof fn lemma_join_all_shape(parts: Seq<Seq<char>>)
    requires
        all_entry_names(parts),
        parts.len() > 0,
    ensures
        join_all(parts).len() > 0,
        join_all(parts).last() != '/',
    decreases parts.len(),
{
    let last = parts.last();
    assert(is_entry_name(parts[parts.len() - 1]));
    assert(last.last() != '/') by {
        if last[last.len() - 1] == '/' {
            assert(last.contains('/'));
        }
    }
    if parts.len() > 1 {
        let all = join_all(parts.drop_last()) + seq!['/'] + last;
        assert(join_all(parts) == all);
        assert(all[all.len() - 1] == last[last.len() - 1]);
    }
}

/// Joining one more entry name to joined entry names is joining them all.
pub proof fn lemma_join_all_push(parts: Seq<Seq<char>>, name: Seq<char>)
    requires
        all_entry_names(parts),
        is_entry_name(name),
    ensures
        join(join_all(parts), name) == join_all(parts.push(name)),
{
    let longer = parts.push(name);
    assert(longer.drop_last() =~= parts);
    assert(longer.last() == name);
    assert(name[0] != '/') by {
        if name[0] == '/' {
            assert(name.contains('/'));
        }
    }
    if parts.len() == 0 {
        assert(join_all(parts) =~= Seq::<char>::empty());
        assert(Seq::<char>::empty() + name =~= name);
        assert(join(join_all(parts), name) =~= name);
    } else {
        lemma_join_all_shape(parts);
    }
}

/// A path below another has the components of that other at the head of
/// its own, below the root as well.
pub proof fn lemma_rel_prefix(path: Seq<char>, above: Seq<char>, root: Seq<char>)
    requires
        components(root).is_prefix_of(components(above)),
        components(above).is_prefix_of(components(path)),
    ensures
        rel_components(above, root).len() <= rel_components(path, root).len(),
        rel_components(path, root).take(rel_components(above, root).len() as int)
            == rel_components(above, root),
{
    let n = components(root).len() as int;
    let a = components(above);
    let p = components(path);
    assert forall|i: int| 0 <= i < a.len() implies p[i] == a[i] by {
        assert(p.subrange(0, a.len() as int)[i] == a[i]);
    }
    assert(rel_components(path, root).take(rel_components(above, root).len() as int)
        =~= rel_components(above, root));
}

} // verus!
