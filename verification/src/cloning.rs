//! Cloning a repository: where the clone goes, how the repository is named
//! on screen, and reading git's progress lines.

use vstd::prelude::*;
use crate::text::{
    append, append_str, byte_number, chars_of, decimal, decimal_of, find_char, index_of,
    last_index_of, last_position, parse_byte, position, same_chars, slice_of, split, split_on,
    string_of, strip_prefix, strip_trailing, stripped_trailing, texts, trim, trimmed, views,
    without_prefix,
};

verus! {

/// How a repository at `url` is named on screen: what follows the colon of
/// an address of the form `user@host:owner/repo`, and otherwise the last
/// two segments of the URL, or the last one if there is but one. A trailing
/// `.git` is dropped first.
pub open spec fn display_name(url: Seq<char>) -> Seq<char> {
    let u = strip_trailing(url, ".git"@);
    let by_colon = match position(u, ':') {
        Some(c) => if u.take(c).contains('@') {
            Some(u.skip(c + 1))
        } else {
            None
        },
        None => None,
    };
    match by_colon {
        Some(name) => name,
        None => match last_position(u, '/') {
            Some(p) => match last_position(u.take(p), '/') {
                Some(o) => u.subrange(o + 1, p) + "/"@ + u.skip(p + 1),
                None => u.skip(p + 1),
            },
            None => u,
        },
    }
}

/// The directory that a clone of `url` goes to when none is given: what
/// follows the last `/` of the URL without its trailing `.git`.
pub open spec fn target_name(url: Seq<char>) -> Seq<char> {
    split_on(strip_trailing(url, ".git"@), '/').last()
}

/// The stages of a clone that git reports.
pub open spec fn is_stage(stage: Seq<char>) -> bool {
    stage == "Cloning into"@ || stage == "Enumerating objects"@ || stage == "Counting objects"@
        || stage == "Compressing objects"@ || stage == "Receiving objects"@ || stage
        == "Resolving deltas"@ || stage == "Updating files"@
}

/// The percentage in a text such as ` 45% (55/123)`: the number before the
/// first `%`, white space around it ignored.
pub open spec fn percent_of(s: Seq<char>) -> Option<u8> {
    let t = trim(s);
    match position(t, '%') {
        Some(i) => byte_number(trim(t.take(i))),
        None => None,
    }
}

/// A line of git's progress output without the `remote:` that may stand
/// before it, and without white space around it.
pub open spec fn progress_body(line: Seq<char>) -> Seq<char> {
    let t = trim(line);
    trim(
        match without_prefix(t, "remote:"@) {
            Some(rest) => rest,
            None => t,
        },
    )
}

/// The stage and the percentage that a line of git's progress output tells,
/// if it tells of a stage: what stands before its first colon must be a
/// stage, and what follows may give a percentage.
pub open spec fn progress_of(line: Seq<char>) -> Option<(Seq<char>, Option<u8>)> {
    let body = progress_body(line);
    match position(body, ':') {
        Some(i) => if is_stage(trim(body.take(i))) {
            Some((trim(body.take(i)), percent_of(body.skip(i + 1))))
        } else {
            None
        },
        None => None,
    }
}

/// What the spinner says for a stage and a percentage.
pub open spec fn progress_text(stage: Seq<char>, percent: Option<u8>) -> Seq<char> {
    match percent {
        Some(p) => "Cloning repository ["@ + stage + ": "@ + decimal(p as nat) + "%]..."@,
        None => "Cloning repository ["@ + stage + "]..."@,
    }
}

/// The reader of git's progress output: the line that is being read and
/// the messages that the lines read so far gave.
pub struct ReaderModel {
    pub line: Seq<char>,
    pub messages: Seq<Seq<char>>,
}

/// The reader after one more character. A carriage return or a line feed
/// ends the line; a line that is not empty and tells of a stage gives a
/// message.
pub open spec fn after_char(state: ReaderModel, c: char) -> ReaderModel {
    if c == '\r' || c == '\n' {
        if state.line.len() > 0 {
            ReaderModel {
                line: Seq::empty(),
                messages: match progress_of(state.line) {
                    Some((stage, percent)) => state.messages.push(progress_text(stage, percent)),
                    None => state.messages,
                },
            }
        } else {
            state
        }
    } else {
        ReaderModel { line: state.line.push(c), ..state }
    }
}

/// The reader after all of `chunk`.
pub open spec fn after_chunk(state: ReaderModel, chunk: Seq<char>) -> ReaderModel
    decreases chunk.len(),
{
    if chunk.len() == 0 {
        state
    } else {
        after_char(after_chunk(state, chunk.drop_last()), chunk.last())
    }
}

/// Extracts the repository name from a URL for display.
pub fn extract_repo_display_name(url: &str) -> (r: String)
    ensures
        r@ == display_name(url@),
{
    let u = stripped_trailing(&chars_of(url), &chars_of(".git"));
    match index_of(&u, ':') {
        Some(c) => {
            let head = slice_of(&u, 0, c);
            assert(head@ =~= u@.take(c as int));
            match find_char(&head, '@', 0) {
                Some(a) => {
                    assert(head@[a as int] == '@');
                    let name = slice_of(&u, c + 1, u.len());
                    assert(name@ =~= u@.skip(c + 1));
                    return string_of(&name);
                },
                None => {},
            }
        },
        None => {},
    }
    match last_index_of(&u, '/') {
        Some(p) => {
            let after = slice_of(&u, p + 1, u.len());
            assert(after@ =~= u@.skip(p + 1));
            let head = slice_of(&u, 0, p);
            assert(head@ =~= u@.take(p as int));
            match last_index_of(&head, '/') {
                Some(o) => {
                    let mut v = slice_of(&u, o + 1, p);
                    append_str(&mut v, "/");
                    append(&mut v, &after);
                    assert(v@ =~= u@.subrange(o + 1, p as int) + "/"@ + u@.skip(p + 1));
                    string_of(&v)
                },
                None => string_of(&after),
            }
        },
        None => string_of(&u),
    }
}

/// Derives the target directory of a clone from the URL.
pub fn derive_target_from_url(url: &str) -> (r: String)
    ensures
        r@ == target_name(url@),
{
    let u = stripped_trailing(&chars_of(url), &chars_of(".git"));
    let pieces = split(&u, '/');
    let last = &pieces[pieces.len() - 1];
    assert(views(pieces@).last() == last@);
    string_of(last)
}

/// The directory that a clone goes to: the one that was asked for, or the
/// one derived from the URL.
pub fn clone_target(url: &str, path: Option<&str>) -> (r: String)
    ensures
        r@ == match path {
            Some(p) => p@,
            None => target_name(url@),
        },
{
    match path {
        Some(p) => string_of(&chars_of(p)),
        None => derive_target_from_url(url),
    }
}

/// Checks whether the given string is a stage of a clone that git reports.
pub fn is_progress_stage(stage: &str) -> (r: bool)
    ensures
        r == is_stage(stage@),
{
    let s = chars_of(stage);
    same_chars(&s, &chars_of("Cloning into")) || same_chars(&s, &chars_of("Enumerating objects"))
        || same_chars(&s, &chars_of("Counting objects")) || same_chars(
        &s,
        &chars_of("Compressing objects"),
    ) || same_chars(&s, &chars_of("Receiving objects")) || same_chars(
        &s,
        &chars_of("Resolving deltas"),
    ) || same_chars(&s, &chars_of("Updating files"))
}

/// The percentage in the characters `s`.
fn percent_in(s: &Vec<char>) -> (r: Option<u8>)
    ensures
        r == percent_of(s@),
{
    let t = trimmed(s);
    match index_of(&t, '%') {
        Some(i) => {
            let head = slice_of(&t, 0, i);
            assert(head@ =~= t@.take(i as int));
            parse_byte(&trimmed(&head))
        },
        None => None,
    }
}

/// Extracts the percentage from a string like ` 45% (55/123)` or
/// `100% (50/50), done.`.
pub fn extract_percent(s: &str) -> (r: Option<u8>)
    ensures
        r == percent_of(s@),
{
    percent_in(&chars_of(s))
}

/// The stage and the percentage in the characters of a progress line.
fn progress_in(line: &Vec<char>) -> (r: Option<(Vec<char>, Option<u8>)>)
    ensures
        match r {
            Some(t) => progress_of(line@) == Some((t.0@, t.1)),
            None => progress_of(line@) is None,
        },
{
    let t = trimmed(line);
    let body = match strip_prefix(&t, "remote:") {
        Some(rest) => trimmed(&rest),
        None => trimmed(&t),
    };
    match index_of(&body, ':') {
        Some(i) => {
            let head = slice_of(&body, 0, i);
            assert(head@ =~= body@.take(i as int));
            let stage = trimmed(&head);
            if is_progress_stage(string_of(&stage).as_str()) {
                let tail = slice_of(&body, i + 1, body.len());
                assert(tail@ =~= body@.skip(i + 1));
                let percent = percent_in(&tail);
                Some((stage, percent))
            } else {
                None
            }
        },
        None => None,
    }
}

/// Parses a line of git's progress output into the stage that it tells of
/// and the percentage, if it gives one.
pub fn parse_git_progress(line: &str) -> (r: Option<(String, Option<u8>)>)
    ensures
        match r {
            Some(t) => progress_of(line@) == Some((t.0@, t.1)),
            None => progress_of(line@) is None,
        },
{
    match progress_in(&chars_of(line)) {
        Some(t) => Some((string_of(&t.0), t.1)),
        None => None,
    }
}

/// What the spinner says for a stage and a percentage, as characters.
fn message_chars(stage: &Vec<char>, percent: Option<u8>) -> (r: Vec<char>)
    ensures
        r@ == progress_text(stage@, percent),
{
    let mut v: Vec<char> = Vec::new();
    append_str(&mut v, "Cloning repository [");
    append(&mut v, stage);
    match percent {
        Some(p) => {
            append_str(&mut v, ": ");
            append(&mut v, &decimal_of(p as u64));
            append_str(&mut v, "%]...");
            assert(v@ =~= "Cloning repository ["@ + stage@ + ": "@ + decimal(p as nat)
                + "%]..."@);
        },
        None => {
            append_str(&mut v, "]...");
            assert(v@ =~= "Cloning repository ["@ + stage@ + "]..."@);
        },
    }
    v
}

/// What the spinner says while a clone is at `stage`, at `percent` if it is
/// known.
pub fn progress_message(stage: &str, percent: Option<u8>) -> (r: String)
    ensures
        r@ == progress_text(stage@, percent),
{
    string_of(&message_chars(&chars_of(stage), percent))
}

/// Reads git's progress output as it arrives, piece by piece.
#[derive(Debug)]
pub struct ProgressReader {
    pub line: String,
}

impl ProgressReader {
    /// A reader that has read nothing.
    pub fn new() -> (r: ProgressReader)
        ensures
            r.line@ == Seq::<char>::empty(),
    {
        ProgressReader { line: String::new() }
    }

    /// Takes in the next piece of output and returns the messages that the
    /// lines ended in it give, in order. The line that the piece leaves
    /// unfinished is kept for the next piece.
    pub fn feed(&mut self, chunk: &str) -> (messages: Vec<String>)
        ensures
            after_chunk(
                ReaderModel { line: old(self).line@, messages: Seq::empty() },
                chunk@,
            ) == (ReaderModel { line: final(self).line@, messages: texts(messages@) }),
    {
        let input = chars_of(chunk);
        let mut line = chars_of(self.line.as_str());
        let mut out: Vec<String> = Vec::new();
        let ghost start = ReaderModel { line: old(self).line@, messages: Seq::empty() };
        let mut i: usize = 0;
        assert(input@.take(0) =~= Seq::<char>::empty());
        assert(texts(out@) =~= Seq::<Seq<char>>::empty());
        while i < input.len()
            invariant
                i <= input.len(),
                input@ == chunk@,
                after_chunk(start, input@.take(i as int)) == (ReaderModel {
                    line: line@,
                    messages: texts(out@),
                }),
            decreases input.len() - i,
        {
            let c = input[i];
            let ghost upto = input@.take(i + 1);
            assert(upto.drop_last() =~= input@.take(i as int));
            assert(upto.last() == c);
            if c == '\r' || c == '\n' {
                if line.len() > 0 {
                    match progress_in(&line) {
                        Some(t) => {
                            let ghost before = out@;
                            let m = message_chars(&t.0, t.1);
                            out.push(string_of(&m));
                            assert(texts(out@) =~= texts(before).push(m@));
                        },
                        None => {},
                    }
                    line = Vec::new();
                    assert(line@ =~= Seq::<char>::empty());
                }
            } else {
                line.push(c);
            }
            i += 1;
        }
        assert(input@.take(input.len() as int) =~= input@);
        self.line = string_of(&line);
        out
    }
}

} // verus!
