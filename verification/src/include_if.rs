//! Conditional includes: the `includeIf` blocks of a git configuration file,
//! and whether one applies to the repository or the URL at hand.

use vstd::prelude::*;
use crate::environment::{canonical_of, EnvModel, Environment};
use crate::glob::{glob_match_chars, glob_matches};
use crate::paths::{expand_tilde, expand_tilde_chars, expanded};
use crate::text::{
    chars_of, ends_with, find_char, has_prefix, has_suffix, lines, lines_of, lowercase, opt_view,
    same_chars, starts_with, string_of, strip_prefix, strip_suffix, strip_trailing,
    stripped_trailing, to_lowercase, trim, trim_start, trimmed, trimmed_start, views,
    without_prefix, without_suffix,
};

verus! {

/// What a profile is resolved for: the repository directory that is acted
/// on, and the URL that is cloned.
#[derive(Debug)]
pub struct ProfileContext {
    /// Target repository path (for `gitdir:` matching).
    pub target_path: Option<String>,
    /// Clone URL (for `hasconfig:remote.*.url:` matching).
    pub clone_url: Option<String>,
}

/// A context as plain values.
pub struct ContextModel {
    pub target_path: Option<Seq<char>>,
    pub clone_url: Option<Seq<char>>,
}

impl View for ProfileContext {
    type V = ContextModel;

    open spec fn view(&self) -> ContextModel {
        ContextModel {
            target_path: opt_view(self.target_path),
            clone_url: opt_view(self.clone_url),
        }
    }
}

impl Default for ProfileContext {
    fn default() -> (r: ProfileContext)
        ensures
            r@.target_path is None,
            r@.clone_url is None,
    {
        ProfileContext { target_path: None, clone_url: None }
    }
}

impl ProfileContext {
    /// The context of the repository at `path`, cloned from `url` if one is
    /// given.
    pub fn new(path: String, url: Option<String>) -> (r: ProfileContext)
        ensures
            r@.target_path == Some(path@),
            r@.clone_url == opt_view(url),
    {
        ProfileContext { target_path: Some(path), clone_url: url }
    }
}

/// An `includeIf` rule read from a gitconfig file.
#[derive(Debug, Clone)]
pub struct IncludeIfRule {
    /// The condition with its kind and pattern (`gitdir:~/work/`).
    pub condition: String,
    /// The configuration file that the rule includes.
    pub target_path: String,
}

/// A rule as plain values.
pub struct RuleModel {
    pub condition: Seq<char>,
    pub target_path: Seq<char>,
}

impl View for IncludeIfRule {
    type V = RuleModel;

    open spec fn view(&self) -> RuleModel {
        RuleModel { condition: self.condition@, target_path: self.target_path@ }
    }
}

/// The models of a sequence of rules.
pub open spec fn rule_models(v: Seq<IncludeIfRule>) -> Seq<RuleModel> {
    Seq::new(v.len(), |i: int| v[i]@)
}

/// `s` in lower case where case is to be ignored, and as it is elsewhere.
pub open spec fn folded(s: Seq<char>, fold: bool) -> Seq<char> {
    if fold {
        lowercase(s)
    } else {
        s
    }
}

/// A `gitdir` pattern that names a directory and all below it: it ends in
/// `/` or in `/**`.
pub open spec fn is_directory_pattern(pattern: Seq<char>) -> bool {
    has_suffix(pattern, "/"@) || has_suffix(pattern, "/**"@)
}

/// The prefix that a directory pattern asks for: the pattern without its
/// trailing separators, and then without trailing `**`.
pub open spec fn directory_prefix(pattern: Seq<char>) -> Seq<char> {
    strip_trailing(strip_trailing(pattern, "/"@), "**"@)
}

/// Whether a `gitdir` pattern applies to the repository at `target`. Both
/// are taken in canonical form, the pattern after `~/` is expanded, and in
/// lower case where `fold` is set. A directory pattern asks for its prefix,
/// a pattern with `*` is matched as a glob, any other must be equal.
pub open spec fn gitdir_matches(
    pattern: Seq<char>,
    target: Option<Seq<char>>,
    fold: bool,
    env: EnvModel,
) -> bool {
    match target {
        None => false,
        Some(t) => {
            let path = folded(canonical_of(env, t), fold);
            let wanted = folded(canonical_of(env, expanded(pattern, env.home)), fold);
            if is_directory_pattern(pattern) {
                has_prefix(path, directory_prefix(wanted))
            } else if pattern.contains('*') {
                glob_matches(wanted, path)
            } else {
                path == wanted
            }
        },
    }
}

/// Whether a URL pattern applies to the URL that is cloned.
pub open spec fn url_matches(pattern: Seq<char>, url: Option<Seq<char>>) -> bool {
    match url {
        Some(u) => glob_matches(pattern, u),
        None => false,
    }
}

/// Whether a condition holds in a context: `gitdir:` and `gitdir/i:` look
/// at the repository path, `hasconfig:remote.*.url:` at the URL, and a
/// condition of any other kind never holds.
pub open spec fn condition_holds(condition: Seq<char>, ctx: ContextModel, env: EnvModel) -> bool {
    match without_prefix(condition, "gitdir:"@) {
        Some(pattern) => gitdir_matches(pattern, ctx.target_path, false, env),
        None => match without_prefix(condition, "gitdir/i:"@) {
            Some(pattern) => gitdir_matches(pattern, ctx.target_path, true, env),
            None => match without_prefix(condition, "hasconfig:remote.*.url:"@) {
                Some(pattern) => url_matches(pattern, ctx.clone_url),
                None => false,
            },
        },
    }
}

/// The path of the pattern of a `gitdir` condition, with `~/` expanded: the
/// path whose canonical form matching looks at. Other conditions have none.
pub open spec fn gitdir_path(condition: Seq<char>, home: Option<Seq<char>>) -> Option<Seq<char>> {
    match without_prefix(condition, "gitdir:"@) {
        Some(pattern) => Some(expanded(pattern, home)),
        None => match without_prefix(condition, "gitdir/i:"@) {
            Some(pattern) => Some(expanded(pattern, home)),
            None => None,
        },
    }
}

/// The condition that a trimmed line opens a block for: the line has the
/// shape `[includeIf "<condition>"]`.
pub open spec fn header_condition(line: Seq<char>) -> Option<Seq<char>> {
    match without_prefix(line, "[includeIf \""@) {
        Some(rest) => without_suffix(rest, "\"]"@),
        None => None,
    }
}

/// The value of a trimmed line of the shape `path = <value>`, with any
/// white space around the `=` and the value.
pub open spec fn path_value(line: Seq<char>) -> Option<Seq<char>> {
    match without_prefix(line, "path"@) {
        Some(rest) => match without_prefix(trim_start(rest), "="@) {
            Some(value) => Some(trim(value)),
            None => None,
        },
        None => None,
    }
}

/// Where the reader of a file stands: the rules found so far and the
/// condition of the block that is open.
pub struct ReaderModel {
    pub rules: Seq<RuleModel>,
    pub open_condition: Option<Seq<char>>,
}

/// The reader after one more line. A block header opens its block, any
/// other line that begins with `[` closes the open one, and a `path` line
/// inside an open block gives a rule.
pub open spec fn after_line(state: ReaderModel, raw: Seq<char>, home: Option<Seq<char>>) -> ReaderModel {
    let line = trim(raw);
    match header_condition(line) {
        Some(c) => ReaderModel { open_condition: Some(c), ..state },
        None => if has_prefix(line, seq!['[']) {
            ReaderModel { open_condition: None, ..state }
        } else {
            match (state.open_condition, path_value(line)) {
                (Some(c), Some(v)) => ReaderModel {
                    rules: state.rules.push(
                        RuleModel { condition: c, target_path: expanded(v, home) },
                    ),
                    ..state
                },
                _ => state,
            }
        },
    }
}

/// The reader after all of `lines`.
pub open spec fn after_lines(lines: Seq<Seq<char>>, home: Option<Seq<char>>) -> ReaderModel
    decreases lines.len(),
{
    if lines.len() == 0 {
        ReaderModel { rules: Seq::empty(), open_condition: None }
    } else {
        after_line(after_lines(lines.drop_last(), home), lines.last(), home)
    }
}

/// The rules in the text of one gitconfig file.
pub open spec fn rules_in(content: Seq<char>, home: Option<Seq<char>>) -> Seq<RuleModel> {
    after_lines(lines(content), home).rules
}

/// The rules in the texts of several files, file after file.
pub open spec fn rules_in_all(contents: Seq<Seq<char>>, home: Option<Seq<char>>) -> Seq<RuleModel>
    decreases contents.len(),
{
    if contents.len() == 0 {
        Seq::empty()
    } else {
        rules_in_all(contents.drop_last(), home) + rules_in(contents.last(), home)
    }
}

impl IncludeIfRule {
    /// A copy of this rule.
    pub fn copy(&self) -> (r: IncludeIfRule)
        ensures
            r == *self,
    {
        IncludeIfRule { condition: self.condition.clone(), target_path: self.target_path.clone() }
    }

    /// The path of the pattern of a `gitdir` rule, with `~/` expanded.
    pub fn gitdir_pattern(&self, home: Option<&str>) -> (r: Option<String>)
        ensures
            opt_view(r) == gitdir_path(self@.condition, crate::paths::opt_text(home)),
    {
        let c = chars_of(self.condition.as_str());
        match strip_prefix(&c, "gitdir:") {
            Some(pattern) => Some(string_of(&expand_tilde_chars(&pattern, home))),
            None => match strip_prefix(&c, "gitdir/i:") {
                Some(pattern) => Some(string_of(&expand_tilde_chars(&pattern, home))),
                None => None,
            },
        }
    }

    /// Checks whether this rule applies in the given context.
    pub fn matches(&self, context: &ProfileContext, env: &Environment) -> (r: bool)
        ensures
            r == condition_holds(self@.condition, context@, env@),
    {
        let c = chars_of(self.condition.as_str());
        match strip_prefix(&c, "gitdir:") {
            Some(pattern) => {
                return Self::matches_gitdir(string_of(&pattern).as_str(), context, false, env);
            },
            None => {},
        }
        match strip_prefix(&c, "gitdir/i:") {
            Some(pattern) => {
                return Self::matches_gitdir(string_of(&pattern).as_str(), context, true, env);
            },
            None => {},
        }
        match strip_prefix(&c, "hasconfig:remote.*.url:") {
            Some(pattern) => {
                return Self::matches_url(string_of(&pattern).as_str(), context);
            },
            None => {},
        }
        false
    }

    /// Matches a `gitdir:` pattern against the target path of the context.
    pub fn matches_gitdir(
        pattern: &str,
        context: &ProfileContext,
        case_insensitive: bool,
        env: &Environment,
    ) -> (r: bool)
        ensures
            r == gitdir_matches(pattern@, context@.target_path, case_insensitive, env@),
    {
        let target = match &context.target_path {
            Some(t) => env.canonical(t.as_str()),
            None => {
                return false;
            },
        };
        let pattern_path = expand_tilde(pattern, env.home_dir());
        let wanted = env.canonical(pattern_path.as_str());
        let path = if case_insensitive {
            chars_of(to_lowercase(target.as_str()).as_str())
        } else {
            chars_of(target.as_str())
        };
        let wanted = if case_insensitive {
            chars_of(to_lowercase(wanted.as_str()).as_str())
        } else {
            chars_of(wanted.as_str())
        };
        let p = chars_of(pattern);
        if ends_with(&p, &chars_of("/")) || ends_with(&p, &chars_of("/**")) {
            let once = stripped_trailing(&wanted, &chars_of("/"));
            let prefix = stripped_trailing(&once, &chars_of("**"));
            starts_with(&path, &prefix)
        } else {
            match find_char(&p, '*', 0) {
                Some(i) => {
                    assert(p@[i as int] == '*');
                    glob_match_chars(&wanted, &path)
                },
                None => same_chars(&path, &wanted),
            }
        }
    }

    /// Matches a `hasconfig:remote.*.url:` pattern against the clone URL of
    /// the context.
    pub fn matches_url(pattern: &str, context: &ProfileContext) -> (r: bool)
        ensures
            r == url_matches(pattern@, context@.clone_url),
    {
        match &context.clone_url {
            Some(url) => crate::glob::glob_match(pattern, url.as_str()),
            None => false,
        }
    }
}

/// Parses the `includeIf` rules out of the text of one gitconfig file.
pub fn parse_include_if_from_file(content: &str, home: Option<&str>) -> (r: Vec<IncludeIfRule>)
    ensures
        rule_models(r@) == rules_in(content@, crate::paths::opt_text(home)),
{
    let all = lines_of(&chars_of(content));
    let ghost wanted = lines(content@);
    let ghost h = crate::paths::opt_text(home);
    let mut rules: Vec<IncludeIfRule> = Vec::new();
    let mut current: Option<String> = None;
    let mut i: usize = 0;
    assert(wanted.take(0) =~= Seq::<Seq<char>>::empty());
    assert(rule_models(rules@) =~= Seq::<RuleModel>::empty());
    while i < all.len()
        invariant
            i <= all.len(),
            views(all@) == wanted,
            h == crate::paths::opt_text(home),
            after_lines(wanted.take(i as int), h) == (ReaderModel {
                rules: rule_models(rules@),
                open_condition: opt_view(current),
            }),
        decreases all.len() - i,
    {
        let ghost upto = wanted.take(i + 1);
        assert(upto.drop_last() =~= wanted.take(i as int));
        assert(upto.last() == all@[i as int]@);
        let line = trimmed(&all[i]);
        let header = match strip_prefix(&line, "[includeIf \"") {
            Some(rest) => strip_suffix(&rest, "\"]"),
            None => None,
        };
        let mut bracket: Vec<char> = Vec::new();
        bracket.push('[');
        assert(bracket@ =~= seq!['[']);
        match header {
            Some(c) => {
                current = Some(string_of(&c));
            },
            None => {
                if starts_with(&line, &bracket) {
                    current = None;
                } else {
                    let value = match strip_prefix(&line, "path") {
                        Some(rest) => match strip_prefix(&trimmed_start(&rest), "=") {
                            Some(v) => Some(trimmed(&v)),
                            None => None,
                        },
                        None => None,
                    };
                    match &current {
                        Some(c) => match value {
                            Some(v) => {
                                let target = expand_tilde_chars(&v, home);
                                let ghost before = rules@;
                                rules.push(
                                    IncludeIfRule {
                                        condition: c.clone(),
                                        target_path: string_of(&target),
                                    },
                                );
                                assert(rule_models(rules@) =~= rule_models(before).push(
                                    RuleModel { condition: c@, target_path: target@ },
                                ));
                            },
                            None => {},
                        },
                        None => {},
                    }
                }
            },
        }
        i += 1;
    }
    assert(wanted.take(all.len() as int) =~= wanted);
    rules
}

/// Parses the `includeIf` rules out of the texts of the user's global
/// gitconfig files, in the order in which the files are given.
pub fn parse_include_if_rules(contents: &Vec<String>, home: Option<&str>) -> (r: Vec<IncludeIfRule>)
    ensures
        rule_models(r@) == rules_in_all(crate::text::texts(contents@), crate::paths::opt_text(home)),
{
    let ghost all = crate::text::texts(contents@);
    let ghost h = crate::paths::opt_text(home);
    let mut rules: Vec<IncludeIfRule> = Vec::new();
    let mut i: usize = 0;
    assert(all.take(0) =~= Seq::<Seq<char>>::empty());
    assert(rule_models(rules@) =~= Seq::<RuleModel>::empty());
    while i < contents.len()
        invariant
            i <= contents.len(),
            all == crate::text::texts(contents@),
            h == crate::paths::opt_text(home),
            rule_models(rules@) == rules_in_all(all.take(i as int), h),
        decreases contents.len() - i,
    {
        let ghost upto = all.take(i + 1);
        assert(upto.drop_last() =~= all.take(i as int));
        assert(upto.last() == contents@[i as int]@);
        let found = parse_include_if_from_file(contents[i].as_str(), home);
        let ghost start = rules@;
        let mut k: usize = 0;
        while k < found.len()
            invariant
                k <= found.len(),
                rule_models(rules@) == rule_models(start) + rule_models(found@).take(k as int),
            decreases found.len() - k,
        {
            let ghost before = rules@;
            rules.push(found[k].copy());
            assert(rule_models(rules@) =~= rule_models(before).push(found@[k as int]@));
            assert(rule_models(found@).take(k + 1) =~= rule_models(found@).take(k as int).push(
                found@[k as int]@,
            ));
            k += 1;
        }
        assert(rule_models(found@).take(found.len() as int) =~= rule_models(found@));
        i += 1;
    }
    assert(all.take(contents.len() as int) =~= all);
    rules
}

} // verus!
