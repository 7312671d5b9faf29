//! Talking to git, as far as it is a matter of text: the arguments of the
//! commands that are run and the reading of what they print.

use vstd::prelude::*;
use crate::text::{
    append, append_str, chars_of, has_suffix, join_with, joined, lines, lines_of, split_first,
    split_once, string_of, strip_trailing, stripped_trailing, texts, trim, trimmed, views,
    ends_with,
};

verus! {

/// Each line indented by four spaces.
pub open spec fn indented(lines: Seq<Seq<char>>) -> Seq<Seq<char>> {
    Seq::new(lines.len(), |i: int| "    "@ + lines[i])
}

/// The report of a git command that failed: the header alone if git said
/// nothing, and otherwise the header, an empty line, and what git said,
/// each line indented.
pub open spec fn error_report(header: Seq<char>, stderr: Seq<char>) -> Seq<char> {
    if trim(stderr).len() == 0 {
        header
    } else {
        header + "\n\n"@ + join_with(indented(lines(trim(stderr))), "\n"@)
    }
}

/// The remote that a line of `git remote -v` tells of: the line must end in
/// `(fetch)` and hold a tab; the name stands before the tab and the URL
/// after it, without the `(fetch)` and the white space around it.
pub open spec fn remote_of(line: Seq<char>) -> Option<(Seq<char>, Seq<char>)> {
    if has_suffix(line, "(fetch)"@) {
        match split_first(line, '\t') {
            Some((name, rest)) => Some((name, trim(strip_trailing(rest, "(fetch)"@)))),
            None => None,
        }
    } else {
        None
    }
}

/// The remotes that the lines tell of, in order.
pub open spec fn remotes_of(lines: Seq<Seq<char>>) -> Seq<(Seq<char>, Seq<char>)>
    decreases lines.len(),
{
    if lines.len() == 0 {
        Seq::empty()
    } else {
        match remote_of(lines.last()) {
            Some(r) => remotes_of(lines.drop_last()).push(r),
            None => remotes_of(lines.drop_last()),
        }
    }
}

/// Names and URLs as plain texts.
pub open spec fn pair_texts(v: Seq<(String, String)>) -> Seq<(Seq<char>, Seq<char>)> {
    Seq::new(v.len(), |i: int| (v[i].0@, v[i].1@))
}

/// The arguments of the `git` command that sets or unsets a key. In a
/// directory the repository's own configuration is written (`-C <path>
/// config --local`), otherwise the file at the path (`config --file
/// <path>`); then come the key and the value, or `--unset` and the key.
pub open spec fn config_arguments(
    path: Seq<char>,
    is_dir: bool,
    key: Seq<char>,
    value: Option<Seq<char>>,
) -> Seq<Seq<char>> {
    (if is_dir {
        seq!["-C"@, path, "config"@, "--local"@]
    } else {
        seq!["config"@, "--file"@, path]
    }) + (match value {
        Some(v) => seq![key, v],
        None => seq!["--unset"@, key],
    })
}

/// Formats a git command failure: `header` names what failed and `stderr`
/// is what git said.
pub fn format_error(header: &str, stderr: &str) -> (r: String)
    ensures
        r@ == error_report(header@, stderr@),
{
    let said = trimmed(&chars_of(stderr));
    let mut v = chars_of(header);
    if said.len() == 0 {
        return string_of(&v);
    }
    let all = lines_of(&said);
    let ghost wanted = indented(lines(said@));
    let mut shown: Vec<Vec<char>> = Vec::new();
    let mut i: usize = 0;
    while i < all.len()
        invariant
            i <= all.len(),
            views(all@) == lines(said@),
            shown.len() == i,
            forall|j: int| 0 <= j < i ==> (#[trigger] shown@[j])@ == "    "@ + all@[j]@,
        decreases all.len() - i,
    {
        let mut line: Vec<char> = Vec::new();
        append_str(&mut line, "    ");
        append(&mut line, &all[i]);
        assert(line@ =~= "    "@ + all@[i as int]@);
        shown.push(line);
        i += 1;
    }
    assert(views(shown@) =~= wanted) by {
        assert forall|j: int| 0 <= j < all.len() implies views(shown@)[j] == wanted[j] by {
            assert(views(all@)[j] == all@[j]@);
        }
    }
    append_str(&mut v, "\n\n");
    append(&mut v, &joined(&shown, "\n"));
    assert(v@ =~= header@ + "\n\n"@ + join_with(wanted, "\n"@));
    string_of(&v)
}

/// Reads the output of `git remote -v` into the remotes as pairs of name
/// and URL. Only the fetch entries are taken, so that every remote comes
/// once.
pub fn remotes(output: &str) -> (r: Vec<(String, String)>)
    ensures
        pair_texts(r@) == remotes_of(lines(output@)),
{
    let all = lines_of(&chars_of(output));
    let ghost wanted = lines(output@);
    let fetch = chars_of("(fetch)");
    let mut r: Vec<(String, String)> = Vec::new();
    let mut i: usize = 0;
    assert(wanted.take(0) =~= Seq::<Seq<char>>::empty());
    assert(pair_texts(r@) =~= remotes_of(wanted.take(0)));
    while i < all.len()
        invariant
            i <= all.len(),
            views(all@) == wanted,
            fetch@ == "(fetch)"@,
            pair_texts(r@) == remotes_of(wanted.take(i as int)),
        decreases all.len() - i,
    {
        let ghost upto = wanted.take(i + 1);
        assert(upto.drop_last() =~= wanted.take(i as int));
        assert(upto.last() == all@[i as int]@);
        if ends_with(&all[i], &fetch) {
            match split_once(&all[i], '\t') {
                Some(pair) => {
                    let url = trimmed(&stripped_trailing(&pair.1, &fetch));
                    let ghost before = r@;
                    r.push((string_of(&pair.0), string_of(&url)));
                    assert(pair_texts(r@) =~= pair_texts(before).push((pair.0@, url@)));
                },
                None => {},
            }
        }
        i += 1;
    }
    assert(wanted.take(all.len() as int) =~= wanted);
    r
}

/// The arguments of the `git` command that sets a configuration value, or
/// unsets it where `value` is nothing. `is_dir` says whether `path` is a
/// repository directory rather than a configuration file.
pub fn set_config(path: &str, is_dir: bool, key: &str, value: Option<&str>) -> (r: Vec<String>)
    ensures
        texts(r@) == config_arguments(path@, is_dir, key@, crate::paths::opt_text(value)),
{
    let mut r: Vec<String> = Vec::new();
    if is_dir {
        r.push(string_of(&chars_of("-C")));
        r.push(string_of(&chars_of(path)));
        r.push(string_of(&chars_of("config")));
        r.push(string_of(&chars_of("--local")));
    } else {
        r.push(string_of(&chars_of("config")));
        r.push(string_of(&chars_of("--file")));
        r.push(string_of(&chars_of(path)));
    }
    match value {
        Some(v) => {
            r.push(string_of(&chars_of(key)));
            r.push(string_of(&chars_of(v)));
        },
        None => {
            r.push(string_of(&chars_of("--unset")));
            r.push(string_of(&chars_of(key)));
        },
    }
    assert(texts(r@) =~= config_arguments(path@, is_dir, key@, crate::paths::opt_text(value)));
    r
}

/// Whether the `git` command that set or unset a key did its work, by its
/// exit code: it did if it exited with 0, and an unset that found no such
/// key (exit code 5) did too.
pub fn set_config_succeeded(unset: bool, exit_code: Option<i32>) -> (r: bool)
    ensures
        r == (exit_code == Some(0i32) || (unset && exit_code == Some(5i32))),
{
    match exit_code {
        Some(code) => code == 0 || (unset && code == 5),
        None => false,
    }
}

/// The name of the current branch in the output of `git rev-parse
/// --abbrev-ref HEAD`.
pub fn current_branch(output: &str) -> (r: String)
    ensures
        r@ == trim(output@),
{
    string_of(&trimmed(&chars_of(output)))
}

/// Whether the output of `git status --porcelain` tells of uncommitted
/// changes: it does unless it is empty.
pub fn is_dirty(output: &str) -> (r: bool)
    ensures
        r == (output@.len() > 0),
{
    chars_of(output).len() > 0
}

} // verus!
