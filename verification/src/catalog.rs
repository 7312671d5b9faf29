//! The catalog of discovered profiles: how it is put together, ordered for
//! the context at hand, and searched by name.

use vstd::prelude::*;
use crate::environment::{canonical_of, EnvModel, Environment};
use crate::include_if::{
    condition_holds, gitdir_path, rule_models, ContextModel, IncludeIfRule, ProfileContext,
    RuleModel,
};
use crate::paths::{join, join_chars, opt_text};
use crate::profile::{
    by_name, display_text, format_profile_display, labelled, models, names, sort_by_name, Profile,
    ProfileModel,
};
use crate::seqs::{
    lemma_move_to_front, lemma_pick_partition,
    first_index, lemma_first_index, lemma_first_index_is, lemma_first_index_none, negated, pick,
};
use crate::text::{
    append, append_str, chars_of, chars_of_all, ends_with, has_prefix, has_suffix, join_with,
    joined, opt_view, same_chars, same_text, starts_with, string_of, strings_of, texts, trim,
    trimmed, views,
};

verus! {

/// Error message when no profiles are found.
pub const NO_PROFILES_ERROR: &'static str =
    "No git profiles found. Configure user.name/user.email in a gitconfig file.";

/// Why no profile could be given.
#[derive(Debug)]
pub enum ProfileError {
    /// No profile was discovered at all.
    NoProfiles,
    /// No profile goes by the name that was asked for.
    NotFound { name: String, available: Vec<String> },
    /// The directory that a profile was to be applied to is no repository.
    NotARepository { path: String },
    /// The answer of the selection is none of the profiles offered.
    SelectionLost,
}

/// What the error says.
pub open spec fn error_text(e: ProfileError) -> Seq<char> {
    match e {
        ProfileError::NoProfiles => NO_PROFILES_ERROR@,
        ProfileError::NotFound { name, available } => "Profile '"@ + name@
            + "' not found. Available profiles: "@ + join_with(texts(available@), ", "@),
        ProfileError::NotARepository { path } => "Not a git repository: "@ + path@,
        ProfileError::SelectionLost => "Failed to find selected profile"@,
    }
}

impl ProfileError {
    /// The message of this error.
    pub fn message(&self) -> (r: String)
        ensures
            r@ == error_text(*self),
    {
        let mut v: Vec<char> = Vec::new();
        match self {
            ProfileError::NoProfiles => {
                append_str(&mut v, NO_PROFILES_ERROR);
                assert(v@ =~= NO_PROFILES_ERROR@);
            },
            ProfileError::NotFound { name, available } => {
                append_str(&mut v, "Profile '");
                append_str(&mut v, name.as_str());
                append_str(&mut v, "' not found. Available profiles: ");
                let list = joined(&crate::text::chars_of_all(available), ", ");
                append(&mut v, &list);
                assert(v@ =~= "Profile '"@ + name@ + "' not found. Available profiles: "@
                    + join_with(texts(available@), ", "@));
            },
            ProfileError::NotARepository { path } => {
                append_str(&mut v, "Not a git repository: ");
                append_str(&mut v, path.as_str());
                assert(v@ =~= "Not a git repository: "@ + path@);
            },
            ProfileError::SelectionLost => {
                append_str(&mut v, "Failed to find selected profile");
                assert(v@ =~= "Failed to find selected profile"@);
            },
        }
        string_of(&v)
    }
}

/// A profile that the query names outright: by its name or by its source.
pub open spec fn is_exact(p: ProfileModel, query: Seq<char>) -> bool {
    p.name == query || p.source == query
}

/// The name that the query stands for in short, behind a dot.
pub open spec fn dotted_name(query: Seq<char>) -> Seq<char> {
    "."@ + query
}

/// The name that the query stands for in short, behind `.gitconfig-`.
pub open spec fn prefixed_name(query: Seq<char>) -> Seq<char> {
    ".gitconfig-"@ + query
}

/// The property of being named outright by `query`.
pub open spec fn exact(query: Seq<char>) -> spec_fn(ProfileModel) -> bool {
    |p: ProfileModel| is_exact(p, query)
}

/// The property of going by the name `name`.
pub open spec fn named(name: Seq<char>) -> spec_fn(ProfileModel) -> bool {
    |p: ProfileModel| p.name == name
}

/// The property of having the e-mail address `email`.
pub open spec fn mailed(email: Seq<char>) -> spec_fn(ProfileModel) -> bool {
    |p: ProfileModel| p.user_email == Some(email)
}

/// Where the query finds its profile, in three steps of which the first
/// that finds one decides: the first profile that it names outright, by
/// name or by source; the first whose name is the query behind a dot; the
/// first whose name is the query behind `.gitconfig-`.
pub open spec fn lookup_index(v: Seq<ProfileModel>, query: Seq<char>) -> Option<int> {
    match first_index(v, exact(query)) {
        Some(i) => Some(i),
        None => match first_index(v, named(dotted_name(query))) {
            Some(i) => Some(i),
            None => first_index(v, named(prefixed_name(query))),
        },
    }
}

/// The catalog with the profile of the default name, if there is one, moved
/// to the front and all else in place.
pub open spec fn promoted(v: Seq<ProfileModel>, default_name: Option<Seq<char>>) -> Seq<
    ProfileModel,
> {
    match default_name {
        None => v,
        Some(n) => match first_index(v, named(n)) {
            Some(i) => seq![v[i]] + v.remove(i),
            None => v,
        },
    }
}

/// Some rule holds in the context.
pub open spec fn any_rule_holds(rules: Seq<RuleModel>, ctx: ContextModel, env: EnvModel) -> bool {
    exists|i: int| 0 <= i < rules.len() && condition_holds(#[trigger] rules[i].condition, ctx, env)
}

/// A rule that holds in the context includes the file `source`: the two
/// paths have the same canonical form.
pub open spec fn is_bound(
    source: Seq<char>,
    rules: Seq<RuleModel>,
    ctx: ContextModel,
    env: EnvModel,
) -> bool {
    exists|i: int|
        0 <= i < rules.len() && condition_holds(#[trigger] rules[i].condition, ctx, env)
            && canonical_of(env, rules[i].target_path) == canonical_of(env, source)
}

/// For each profile, whether a rule that holds includes its source.
pub open spec fn bound_flags(
    v: Seq<ProfileModel>,
    rules: Seq<RuleModel>,
    ctx: ContextModel,
    env: EnvModel,
) -> Seq<bool> {
    Seq::new(v.len(), |i: int| is_bound(v[i].source, rules, ctx, env))
}

/// The catalog ordered by the rules: where a rule holds, the profiles that
/// such a rule includes come first and the others after them, each group in
/// its old order; where none holds, the default profile is promoted.
pub open spec fn reordered(
    v: Seq<ProfileModel>,
    rules: Seq<RuleModel>,
    ctx: ContextModel,
    env: EnvModel,
    default_name: Option<Seq<char>>,
) -> Seq<ProfileModel> {
    if any_rule_holds(rules, ctx, env) {
        let flags = bound_flags(v, rules, ctx, env);
        pick(v, flags) + pick(v, negated(flags))
    } else {
        promoted(v, default_name)
    }
}

/// The catalog ordered for a context: by the rules where the context names
/// a path or a URL, and with the default promoted where it names neither.
pub open spec fn reordered_for(
    v: Seq<ProfileModel>,
    rules: Seq<RuleModel>,
    ctx: ContextModel,
    env: EnvModel,
    default_name: Option<Seq<char>>,
) -> Seq<ProfileModel> {
    if ctx.target_path is Some || ctx.clone_url is Some {
        reordered(v, rules, ctx, env, default_name)
    } else {
        promoted(v, default_name)
    }
}

/// The index of the first profile that satisfies `hit`, found by trying each
/// in turn with `test`.
fn first_exact(profiles: &Vec<Profile>, query: &Vec<char>) -> (r: Option<usize>)
    ensures
        match r {
            Some(i) => first_index(models(profiles@), exact(query@)) == Some(i as int),
            None => first_index(models(profiles@), exact(query@)) is None,
        },
{
    let ghost v = models(profiles@);
    let mut i: usize = 0;
    while i < profiles.len()
        invariant
            i <= profiles.len(),
            v == models(profiles@),
            forall|j: int| 0 <= j < i ==> !exact(query@)(v[j]),
        decreases profiles.len() - i,
    {
        let p = &profiles[i];
        if same_chars(&chars_of(p.name.as_str()), query) || same_chars(
            &chars_of(p.source.as_str()),
            query,
        ) {
            proof {
                lemma_first_index_is(v, exact(query@), i as int);
            }
            return Some(i);
        }
        i += 1;
    }
    proof {
        lemma_first_index_none(v, exact(query@));
    }
    None
}

/// The index of the first profile whose name is the text `wanted`.
fn first_with_name(profiles: &Vec<Profile>, wanted: &Vec<char>) -> (r: Option<usize>)
    ensures
        match r {
            Some(i) => first_index(models(profiles@), named(wanted@)) == Some(i as int) && i
                < profiles.len(),
            None => first_index(models(profiles@), named(wanted@)) is None,
        },
{
    let ghost v = models(profiles@);
    let mut i: usize = 0;
    while i < profiles.len()
        invariant
            i <= profiles.len(),
            v == models(profiles@),
            forall|j: int| 0 <= j < i ==> !named(wanted@)(v[j]),
        decreases profiles.len() - i,
    {
        if same_chars(&chars_of(profiles[i].name.as_str()), wanted) {
            proof {
                lemma_first_index_is(v, named(wanted@), i as int);
            }
            return Some(i);
        }
        i += 1;
    }
    proof {
        lemma_first_index_none(v, named(wanted@));
    }
    None
}

/// The index of the first profile that goes by `name`.
fn first_named(profiles: &Vec<Profile>, name: &str) -> (r: Option<usize>)
    ensures
        match r {
            Some(i) => first_index(models(profiles@), named(name@)) == Some(i as int) && i
                < profiles.len(),
            None => first_index(models(profiles@), named(name@)) is None,
        },
{
    first_with_name(profiles, &chars_of(name))
}

/// The names of the profiles, in order.
fn names_of(profiles: &Vec<Profile>) -> (r: Vec<String>)
    ensures
        texts(r@) == names(models(profiles@)),
{
    let mut r: Vec<String> = Vec::new();
    let mut i: usize = 0;
    while i < profiles.len()
        invariant
            i <= profiles.len(),
            r.len() == i,
            forall|j: int| 0 <= j < i ==> r@[j]@ == profiles@[j].name@,
        decreases profiles.len() - i,
    {
        r.push(profiles[i].name.clone());
        i += 1;
    }
    assert(texts(r@) =~= names(models(profiles@)));
    r
}

/// Finds a profile by name, in three steps of which the first that finds a
/// profile decides. A profile whose name or source path equals the query is
/// taken first; failing that, one whose name is the query behind a dot; and
/// failing that, one whose name is the query behind `.gitconfig-`. Within a
/// step the first hit wins. With no hit, the error names the query and
/// every profile there is.
pub fn find_profile_by_name(profiles: &Vec<Profile>, name: &str) -> (r: Result<
    Profile,
    ProfileError,
>)
    ensures
        match r {
            Ok(p) => {
                &&& lookup_index(models(profiles@), name@) matches Some(i)
                &&& p@ == models(profiles@)[i]
            },
            Err(e) => {
                &&& lookup_index(models(profiles@), name@) is None
                &&& e matches ProfileError::NotFound { name: asked, available }
                &&& asked@ == name@
                &&& texts(available@) == names(models(profiles@))
            },
        },
{
    let query = chars_of(name);
    proof {
        lemma_first_index(models(profiles@), exact(name@));
        lemma_first_index(models(profiles@), named(dotted_name(name@)));
        lemma_first_index(models(profiles@), named(prefixed_name(name@)));
    }
    match first_exact(profiles, &query) {
        Some(i) => {
            return Ok(profiles[i].copy());
        },
        None => {},
    }
    let mut dotted: Vec<char> = Vec::new();
    append_str(&mut dotted, ".");
    append(&mut dotted, &query);
    assert(dotted@ =~= dotted_name(name@));
    match first_with_name(profiles, &dotted) {
        Some(i) => {
            return Ok(profiles[i].copy());
        },
        None => {},
    }
    let mut prefixed: Vec<char> = Vec::new();
    append_str(&mut prefixed, ".gitconfig-");
    append(&mut prefixed, &query);
    assert(prefixed@ =~= prefixed_name(name@));
    match first_with_name(profiles, &prefixed) {
        Some(i) => {
            return Ok(profiles[i].copy());
        },
        None => {},
    }
    Err(ProfileError::NotFound { name: string_of(&query), available: names_of(profiles) })
}

/// The three steps of the lookup are ranked: a profile named outright goes
/// before every short form, and the dot form goes before the `.gitconfig-`
/// form, wherever in the catalog they stand.
pub proof fn law_lookup_priority(v: Seq<ProfileModel>, query: Seq<char>, i: int)
    requires
        0 <= i < v.len(),
    ensures
        is_exact(v[i], query) ==> ({
            &&& lookup_index(v, query) matches Some(k)
            &&& is_exact(v[k], query)
        }),
        v[i].name == dotted_name(query) ==> ({
            &&& lookup_index(v, query) matches Some(k)
            &&& (is_exact(v[k], query) || v[k].name == dotted_name(query))
        }),
        v[i].name == prefixed_name(query) ==> lookup_index(v, query) is Some,
        lookup_index(v, query) matches Some(k) ==> 0 <= k < v.len() && (is_exact(v[k], query)
            || v[k].name == dotted_name(query) || v[k].name == prefixed_name(query)),
{
    lemma_first_index(v, exact(query));
    lemma_first_index(v, named(dotted_name(query)));
    lemma_first_index(v, named(prefixed_name(query)));
    if is_exact(v[i], query) {
        assert(exact(query)(v[i]));
    }
    if v[i].name == dotted_name(query) {
        assert(named(dotted_name(query))(v[i]));
    }
    if v[i].name == prefixed_name(query) {
        assert(named(prefixed_name(query))(v[i]));
    }
}

/// Promotes the configured default profile to the top of the list.
pub fn promote_default(profiles: Vec<Profile>, default_name: Option<&str>) -> (r: Vec<Profile>)
    ensures
        models(r@) == promoted(models(profiles@), opt_text(default_name)),
{
    let mut profiles = profiles;
    let name = match default_name {
        Some(n) => n,
        None => {
            return profiles;
        },
    };
    let ghost before = profiles@;
    proof {
        lemma_first_index(models(before), named(name@));
    }
    match first_named(&profiles, name) {
        Some(i) => {
            let chosen = profiles.remove(i);
            profiles.insert(0, chosen);
            assert(models(profiles@) =~= seq![models(before)[i as int]] + models(before).remove(
                i as int,
            ));
        },
        None => {},
    }
    profiles
}

/// For each rule, whether it holds in the context.
fn holding_rules(rules: &Vec<IncludeIfRule>, context: &ProfileContext, env: &Environment) -> (r:
    Vec<bool>)
    ensures
        r.len() == rules.len(),
        forall|i: int|
            0 <= i < rules.len() ==> r@[i] == condition_holds(
                #[trigger] rules@[i]@.condition,
                context@,
                env@,
            ),
{
    let mut r: Vec<bool> = Vec::new();
    let mut i: usize = 0;
    while i < rules.len()
        invariant
            i <= rules.len(),
            r.len() == i,
            forall|j: int|
                0 <= j < i ==> r@[j] == condition_holds(
                    #[trigger] rules@[j]@.condition,
                    context@,
                    env@,
                ),
        decreases rules.len() - i,
    {
        r.push(rules[i].matches(context, env));
        i += 1;
    }
    r
}

/// Whether a rule that holds includes the file `source`.
fn source_is_bound(
    source: &str,
    rules: &Vec<IncludeIfRule>,
    holds: &Vec<bool>,
    Ghost(ctx): Ghost<ContextModel>,
    env: &Environment,
) -> (r: bool)
    requires
        holds.len() == rules.len(),
        forall|i: int|
            0 <= i < rules.len() ==> holds@[i] == condition_holds(
                #[trigger] rules@[i]@.condition,
                ctx,
                env@,
            ),
    ensures
        r == is_bound(source@, rule_models(rules@), ctx, env@),
{
    let wanted = chars_of(env.canonical(source).as_str());
    let ghost ms = rule_models(rules@);
    let mut i: usize = 0;
    while i < rules.len()
        invariant
            i <= rules.len(),
            holds.len() == rules.len(),
            ms == rule_models(rules@),
            wanted@ == canonical_of(env@, source@),
            forall|k: int|
                0 <= k < rules.len() ==> holds@[k] == condition_holds(
                    #[trigger] rules@[k]@.condition,
                    ctx,
                    env@,
                ),
            forall|k: int|
                0 <= k < i ==> !(condition_holds(#[trigger] ms[k].condition, ctx, env@)
                    && canonical_of(env@, ms[k].target_path) == canonical_of(env@, source@)),
        decreases rules.len() - i,
    {
        assert(ms[i as int] == rules@[i as int]@);
        if holds[i] {
            let target = chars_of(env.canonical(rules[i].target_path.as_str()).as_str());
            if same_chars(&target, &wanted) {
                assert(condition_holds(ms[i as int].condition, ctx, env@));
                return true;
            }
        }
        i += 1;
    }
    false
}

/// Reorders profiles by matching against the given `includeIf` rules: the
/// profiles that a matching rule includes come first. Falls back to
/// promoting the configured default profile if no rule matches.
pub fn reorder_profiles_by_rules(
    profiles: Vec<Profile>,
    context: &ProfileContext,
    rules: &Vec<IncludeIfRule>,
    default_profile: Option<&str>,
    env: &Environment,
) -> (r: Vec<Profile>)
    ensures
        models(r@) == reordered(
            models(profiles@),
            rule_models(rules@),
            context@,
            env@,
            opt_text(default_profile),
        ),
{
    let holds = holding_rules(rules, context, env);
    let ghost ms = rule_models(rules@);
    let mut any = false;
    let mut i: usize = 0;
    while i < holds.len()
        invariant
            i <= holds.len(),
            holds.len() == rules.len(),
            ms == rule_models(rules@),
            forall|k: int|
                0 <= k < rules.len() ==> holds@[k] == condition_holds(
                    #[trigger] rules@[k]@.condition,
                    context@,
                    env@,
                ),
            any == exists|k: int|
                0 <= k < i && condition_holds(#[trigger] ms[k].condition, context@, env@),
        decreases holds.len() - i,
    {
        assert(ms[i as int] == rules@[i as int]@);
        if holds[i] {
            any = true;
            assert(condition_holds(ms[i as int].condition, context@, env@));
        }
        i += 1;
    }
    if !any {
        return promote_default(profiles, default_profile);
    }
    let ghost v = models(profiles@);
    let ghost flags = bound_flags(v, ms, context@, env@);
    let mut matching: Vec<Profile> = Vec::new();
    let mut others: Vec<Profile> = Vec::new();
    let mut k: usize = 0;
    assert(v.take(0) =~= Seq::<ProfileModel>::empty());
    assert(models(matching@) =~= pick(v.take(0), flags.take(0)));
    assert(models(others@) =~= pick(v.take(0), negated(flags.take(0))));
    while k < profiles.len()
        invariant
            k <= profiles.len(),
            holds.len() == rules.len(),
            ms == rule_models(rules@),
            v == models(profiles@),
            flags == bound_flags(v, ms, context@, env@),
            forall|j: int|
                0 <= j < rules.len() ==> holds@[j] == condition_holds(
                    #[trigger] rules@[j]@.condition,
                    context@,
                    env@,
                ),
            models(matching@) == pick(v.take(k as int), flags.take(k as int)),
            models(others@) == pick(v.take(k as int), negated(flags.take(k as int))),
        decreases profiles.len() - k,
    {
        let bound = source_is_bound(
            profiles[k].source.as_str(),
            rules,
            &holds,
            Ghost(context@),
            env,
        );
        proof {
            assert(v.take(k + 1).drop_last() =~= v.take(k as int));
            assert(flags.take(k + 1).drop_last() =~= flags.take(k as int));
            assert(negated(flags.take(k + 1)).drop_last() =~= negated(flags.take(k as int)));
            assert(v.take(k + 1).last() == profiles@[k as int]@);
            assert(flags.take(k + 1).last() == bound);
            assert(negated(flags.take(k + 1)).last() == !bound);
        }
        if bound {
            let ghost before = matching@;
            matching.push(profiles[k].copy());
            assert(models(matching@) =~= models(before).push(profiles@[k as int]@));
        } else {
            let ghost before = others@;
            others.push(profiles[k].copy());
            assert(models(others@) =~= models(before).push(profiles@[k as int]@));
        }
        k += 1;
    }
    assert(v.take(profiles.len() as int) =~= v);
    assert(flags.take(profiles.len() as int) =~= flags);
    let ghost first = matching@;
    let mut j: usize = 0;
    while j < others.len()
        invariant
            j <= others.len(),
            models(matching@) == models(first) + models(others@).take(j as int),
        decreases others.len() - j,
    {
        let ghost before = matching@;
        matching.push(others[j].copy());
        assert(models(matching@) =~= models(before).push(others@[j as int]@));
        assert(models(others@).take(j + 1) =~= models(others@).take(j as int).push(
            others@[j as int]@,
        ));
        j += 1;
    }
    assert(models(others@).take(others.len() as int) =~= models(others@));
    matching
}

/// Reorders profiles so that those matching `includeIf` rules come first.
/// Falls back to promoting the configured default profile if the context
/// names neither a path nor a URL, or if no rule matches.
pub fn reorder_profiles_by_context(
    profiles: Vec<Profile>,
    context: &ProfileContext,
    rules: &Vec<IncludeIfRule>,
    default_profile: Option<&str>,
    env: &Environment,
) -> (r: Vec<Profile>)
    ensures
        models(r@) == reordered_for(
            models(profiles@),
            rule_models(rules@),
            context@,
            env@,
            opt_text(default_profile),
        ),
{
    if context.target_path.is_some() || context.clone_url.is_some() {
        return reorder_profiles_by_rules(profiles, context, rules, default_profile, env);
    }
    promote_default(profiles, default_profile)
}

/// What resolving a profile comes to: the profile that was asked for by
/// name, or the catalog in the order in which it is to be offered.
#[derive(Debug)]
pub enum Resolution {
    /// The profile that the name finds.
    Chosen(Profile),
    /// No name was given: these profiles are to be offered, in this order.
    Offer(Vec<Profile>),
}

/// How each profile reads in the selection list.
pub open spec fn offered(v: Seq<ProfileModel>, home: Option<Seq<char>>) -> Seq<Seq<char>> {
    Seq::new(v.len(), |i: int| display_text(v[i], home))
}

/// The property of being the text `t`.
pub open spec fn is_text(t: Seq<char>) -> spec_fn(Seq<char>) -> bool {
    |s: Seq<char>| s == t
}

/// The git-known profiles with the active one, if there is one, in front.
pub open spec fn active_first(v: Seq<ProfileModel>, email: Option<Seq<char>>) -> Seq<ProfileModel> {
    match email {
        None => v,
        Some(e) => match first_index(v, mailed(e)) {
            Some(i) => seq![v[i]] + v.remove(i),
            None => v,
        },
    }
}

/// The catalog with the default marked: a profile is the default exactly if
/// its name is the configured default name. Nothing else is changed.
pub open spec fn marked(v: Seq<ProfileModel>, default_name: Option<Seq<char>>) -> Seq<
    ProfileModel,
> {
    Seq::new(
        v.len(),
        |i: int| ProfileModel { is_default: default_name == Some(v[i].name), ..v[i] },
    )
}

/// The catalog: the profiles from files that git knows, sorted by name, the
/// one whose e-mail address is in force moved to the very front; behind
/// them the profiles from further files, sorted by name; and every profile
/// of the default name marked as the default.
pub open spec fn catalog(
    git_known: Seq<ProfileModel>,
    additional: Seq<ProfileModel>,
    current_email: Option<Seq<char>>,
    default_name: Option<Seq<char>>,
) -> Seq<ProfileModel> {
    marked(active_first(by_name(git_known), current_email) + by_name(additional), default_name)
}

/// The files among `files` that are still to be read: those that are no
/// source in `seen`, each once, in their order.
pub open spec fn unseen(files: Seq<Seq<char>>, seen: Seq<Seq<char>>) -> Seq<Seq<char>>
    decreases files.len(),
{
    if files.len() == 0 {
        Seq::empty()
    } else {
        let before = unseen(files.drop_last(), seen);
        if seen.contains(files.last()) || before.contains(files.last()) {
            before
        } else {
            before.push(files.last())
        }
    }
}

/// The sources of a sequence of profile models.
pub open spec fn sources(v: Seq<ProfileModel>) -> Seq<Seq<char>> {
    Seq::new(v.len(), |i: int| v[i].source)
}

/// How a switch is written into a configuration file.
pub open spec fn opt_bool_text(b: Option<bool>) -> Option<Seq<char>> {
    match b {
        Some(true) => Some("true"@),
        Some(false) => Some("false"@),
        None => None,
    }
}

/// The settings that applying a profile writes, in order: one for each
/// field that is set, none for a field that is not.
pub open spec fn settings(p: ProfileModel) -> Seq<(Seq<char>, Seq<char>)> {
    labelled("user.name"@, p.user_name) + labelled("user.email"@, p.user_email) + labelled(
        "user.signingkey"@,
        p.signing_key,
    ) + labelled("gpg.format"@, p.gpg_format) + labelled(
        "commit.gpgsign"@,
        opt_bool_text(p.gpg_sign),
    ) + labelled("tag.gpgsign"@, opt_bool_text(p.tag_gpg_sign))
}

/// Keys and values as plain texts.
pub open spec fn pairs_of(v: Seq<(String, String)>) -> Seq<(Seq<char>, Seq<char>)> {
    Seq::new(v.len(), |i: int| (v[i].0@, v[i].1@))
}

/// The value that git printed for one key: the output without white space
/// around it, unless nothing is left.
pub open spec fn printed_value(output: Seq<char>) -> Option<Seq<char>> {
    if trim(output).len() > 0 {
        Some(trim(output))
    } else {
        None
    }
}

/// A file in the home directory that holds a profile by its name: it begins
/// with `.gitconfig-` or `.gitconfig.`.
pub open spec fn is_home_profile(name: Seq<char>) -> bool {
    has_prefix(name, ".gitconfig-"@) || has_prefix(name, ".gitconfig."@)
}

/// A file in git's configuration directory that holds a profile by its
/// name: it ends in `.gitconfig`.
pub open spec fn is_xdg_profile(name: Seq<char>) -> bool {
    has_suffix(name, ".gitconfig"@) && name != "config"@
}

/// The files of `names` in `dir` that `keep` accepts, as paths.
pub open spec fn kept_in(dir: Seq<char>, names: Seq<Seq<char>>, keep: spec_fn(Seq<char>) -> bool) -> Seq<
    Seq<char>,
>
    decreases names.len(),
{
    if names.len() == 0 {
        Seq::empty()
    } else if keep(names.last()) {
        kept_in(dir, names.drop_last(), keep).push(join(dir, names.last()))
    } else {
        kept_in(dir, names.drop_last(), keep)
    }
}

/// The property of being a home profile file.
pub open spec fn home_profile() -> spec_fn(Seq<char>) -> bool {
    |n: Seq<char>| is_home_profile(n)
}

/// The property of being a profile file of git's configuration directory.
pub open spec fn xdg_profile() -> spec_fn(Seq<char>) -> bool {
    |n: Seq<char>| is_xdg_profile(n)
}

/// The files in which further profiles are looked for: the named gitconfig
/// files of the home directory, those of `.config/git` below it, and every
/// file of the directories that the configuration adds.
pub open spec fn profile_files(
    home: Option<Seq<char>>,
    home_names: Seq<Seq<char>>,
    xdg_names: Seq<Seq<char>>,
    extra_files: Seq<Seq<char>>,
) -> Seq<Seq<char>> {
    match home {
        Some(h) => kept_in(h, home_names, home_profile()) + kept_in(
            join(h, ".config/git"@),
            xdg_names,
            xdg_profile(),
        ) + extra_files,
        None => extra_files,
    }
}

/// How each profile reads in the selection list.
pub fn profile_options(profiles: &Vec<Profile>, home: Option<&str>) -> (r: Vec<String>)
    ensures
        texts(r@) == offered(models(profiles@), opt_text(home)),
{
    let mut r: Vec<String> = Vec::new();
    let mut i: usize = 0;
    while i < profiles.len()
        invariant
            i <= profiles.len(),
            r.len() == i,
            forall|j: int| 0 <= j < i ==> r@[j]@ == display_text(profiles@[j]@, opt_text(home)),
        decreases profiles.len() - i,
    {
        r.push(format_profile_display(&profiles[i], home));
        i += 1;
    }
    assert(texts(r@) =~= offered(models(profiles@), opt_text(home)));
    r
}

/// The profile that the user picked. `answer` is the line that was chosen
/// from `profile_options`, or nothing if the selection was cancelled, which
/// is no error. A line that stands for none of the profiles is one.
pub fn select_profile(profiles: Vec<Profile>, answer: Option<&str>, home: Option<&str>) -> (r:
    Result<Option<Profile>, ProfileError>)
    ensures
        answer is None ==> r matches Ok(None),
        answer matches Some(a) ==> match first_index(
            offered(models(profiles@), opt_text(home)),
            is_text(a@),
        ) {
            Some(i) => r matches Ok(Some(p)) && p@ == models(profiles@)[i],
            None => r matches Err(ProfileError::SelectionLost),
        },
{
    let chosen = match answer {
        Some(a) => a,
        None => {
            return Ok(None);
        },
    };
    let options = profile_options(&profiles, home);
    let ghost lines = offered(models(profiles@), opt_text(home));
    let mut i: usize = 0;
    while i < options.len()
        invariant
            i <= options.len(),
            options.len() == profiles.len(),
            answer == Some(chosen),
            lines == offered(models(profiles@), opt_text(home)),
            texts(options@) == lines,
            forall|j: int| 0 <= j < i ==> !is_text(chosen@)(lines[j]),
        decreases options.len() - i,
    {
        assert(texts(options@)[i as int] == options@[i as int]@);
        if same_text(options[i].as_str(), chosen) {
            proof {
                lemma_first_index_is(lines, is_text(chosen@), i as int);
            }
            return Ok(Some(profiles[i].copy()));
        }
        i += 1;
    }
    proof {
        lemma_first_index_none(lines, is_text(chosen@));
    }
    Err(ProfileError::SelectionLost)
}

/// Resolves a profile for a context. With no profile at all this is an
/// error, before anything else is looked at. Otherwise the catalog is
/// ordered for the context; a name is then looked up in it, and without a
/// name the ordered catalog is handed back to be offered.
pub fn resolve_profile_with_context(
    profile_name: Option<&str>,
    context: &ProfileContext,
    profiles: Vec<Profile>,
    rules: &Vec<IncludeIfRule>,
    default_profile: Option<&str>,
    env: &Environment,
) -> (r: Result<Resolution, ProfileError>)
    ensures
        profiles.len() == 0 ==> r matches Err(ProfileError::NoProfiles),
        profiles.len() > 0 ==> ({
            let ordered = reordered_for(
                models(profiles@),
                rule_models(rules@),
                context@,
                env@,
                opt_text(default_profile),
            );
            match profile_name {
                Some(n) => match lookup_index(ordered, n@) {
                    Some(i) => r matches Ok(Resolution::Chosen(p)) && p@ == ordered[i],
                    None => {
                        &&& r matches Err(ProfileError::NotFound { name: asked, available })
                        &&& asked@ == n@
                        &&& texts(available@) == names(ordered)
                    },
                },
                None => r matches Ok(Resolution::Offer(list)) && models(list@) == ordered,
            }
        }),
{
    if profiles.len() == 0 {
        return Err(ProfileError::NoProfiles);
    }
    let ordered = reorder_profiles_by_context(profiles, context, rules, default_profile, env);
    match profile_name {
        Some(n) => match find_profile_by_name(&ordered, n) {
            Ok(p) => Ok(Resolution::Chosen(p)),
            Err(e) => Err(e),
        },
        None => Ok(Resolution::Offer(ordered)),
    }
}

/// The index of the first profile whose e-mail address is `email`.
fn first_mailed(profiles: &Vec<Profile>, email: &str) -> (r: Option<usize>)
    ensures
        match r {
            Some(i) => first_index(models(profiles@), mailed(email@)) == Some(i as int) && i
                < profiles.len(),
            None => first_index(models(profiles@), mailed(email@)) is None,
        },
{
    let ghost v = models(profiles@);
    let mut i: usize = 0;
    while i < profiles.len()
        invariant
            i <= profiles.len(),
            v == models(profiles@),
            forall|j: int| 0 <= j < i ==> !mailed(email@)(v[j]),
        decreases profiles.len() - i,
    {
        let hit = match &profiles[i].user_email {
            Some(e) => same_text(e.as_str(), email),
            None => false,
        };
        if hit {
            proof {
                lemma_first_index_is(v, mailed(email@), i as int);
            }
            return Some(i);
        }
        i += 1;
    }
    proof {
        lemma_first_index_none(v, mailed(email@));
    }
    None
}

/// Puts the catalog together from the profiles of the files that git knows
/// and those of further files. Each group is sorted by name; the profile
/// whose e-mail address is the one in force comes first of all; a profile
/// is marked as the default exactly if it goes by the default name.
pub fn discover_profiles(
    git_known: Vec<Profile>,
    additional: Vec<Profile>,
    current_email: Option<&str>,
    default_name: Option<&str>,
) -> (r: Vec<Profile>)
    ensures
        models(r@) == catalog(
            models(git_known@),
            models(additional@),
            opt_text(current_email),
            opt_text(default_name),
        ),
{
    let mut profiles = sort_by_name(git_known);
    let extra = sort_by_name(additional);
    let ghost sorted_known = models(profiles@);
    match current_email {
        Some(email) => {
            proof {
                lemma_first_index(sorted_known, mailed(email@));
            }
            match first_mailed(&profiles, email) {
                Some(i) => {
                    let active = profiles.remove(i);
                    profiles.insert(0, active);
                    assert(models(profiles@) =~= seq![sorted_known[i as int]]
                        + sorted_known.remove(i as int));
                },
                None => {},
            }
        },
        None => {},
    }
    let ghost front = models(profiles@);
    let mut k: usize = 0;
    while k < extra.len()
        invariant
            k <= extra.len(),
            models(profiles@) == front + models(extra@).take(k as int),
        decreases extra.len() - k,
    {
        let ghost before = profiles@;
        profiles.push(extra[k].copy());
        assert(models(profiles@) =~= models(before).push(extra@[k as int]@));
        assert(models(extra@).take(k + 1) =~= models(extra@).take(k as int).push(
            extra@[k as int]@,
        ));
        k += 1;
    }
    assert(models(extra@).take(extra.len() as int) =~= models(extra@));
    let ghost all = models(profiles@);
    let mut i: usize = 0;
    while i < profiles.len()
        invariant
            i <= profiles.len(),
            profiles.len() == all.len(),
            forall|j: int|
                0 <= j < i ==> (#[trigger] profiles@[j])@ == marked(all, opt_text(default_name))[j],
            forall|j: int| i <= j < profiles.len() ==> (#[trigger] profiles@[j])@ == all[j],
        decreases profiles.len() - i,
    {
        let is_default = match default_name {
            Some(n) => same_text(profiles[i].name.as_str(), n),
            None => false,
        };
        let mut p = profiles[i].copy();
        p.is_default = is_default;
        profiles.set(i, p);
        i += 1;
    }
    assert(models(profiles@) =~= marked(all, opt_text(default_name)));
    profiles
}

/// In the catalog a profile is the default exactly if its name is the
/// configured default name, and the catalog holds one profile for each that
/// went in.
pub proof fn law_default_is_marked(
    git_known: Seq<ProfileModel>,
    additional: Seq<ProfileModel>,
    current_email: Option<Seq<char>>,
    default_name: Option<Seq<char>>,
)
    ensures
        catalog(git_known, additional, current_email, default_name).len() == git_known.len()
            + additional.len(),
        forall|i: int|
            0 <= i < catalog(git_known, additional, current_email, default_name).len() ==> (
            #[trigger] catalog(git_known, additional, current_email, default_name)[i]).is_default
                == (default_name == Some(
                catalog(git_known, additional, current_email, default_name)[i].name,
            )),
{
    crate::seqs::lemma_stable_order(names(git_known));
    crate::seqs::lemma_stable_order(names(additional));
    let sorted_known = by_name(git_known);
    match current_email {
        Some(e) => {
            lemma_first_index(sorted_known, mailed(e));
        },
        None => {},
    }
}

/// The files that are still to be read for further profiles: those of
/// `files` that are not the source of a profile that git knows, each once.
pub fn additional_sources(files: &Vec<String>, git_known: &Vec<Profile>) -> (r: Vec<String>)
    ensures
        texts(r@) == unseen(texts(files@), sources(models(git_known@))),
{
    let ghost all = texts(files@);
    let ghost seen = sources(models(git_known@));
    let mut known: Vec<Vec<char>> = Vec::new();
    let mut g: usize = 0;
    while g < git_known.len()
        invariant
            g <= git_known.len(),
            known.len() == g,
            forall|j: int| 0 <= j < g ==> known@[j]@ == git_known@[j].source@,
        decreases git_known.len() - g,
    {
        known.push(chars_of(git_known[g].source.as_str()));
        g += 1;
    }
    assert(views(known@) =~= seen);
    let mut r: Vec<Vec<char>> = Vec::new();
    let mut i: usize = 0;
    assert(all.take(0) =~= Seq::<Seq<char>>::empty());
    assert(views(r@) =~= unseen(all.take(0), seen));
    while i < files.len()
        invariant
            i <= files.len(),
            all == texts(files@),
            views(known@) == seen,
            views(r@) == unseen(all.take(i as int), seen),
        decreases files.len() - i,
    {
        let ghost upto = all.take(i + 1);
        assert(upto.drop_last() =~= all.take(i as int));
        assert(upto.last() == files@[i as int]@);
        let f = chars_of(files[i].as_str());
        let in_known = crate::seqs::index_of_text(&known, &f);
        let in_found = crate::seqs::index_of_text(&r, &f);
        proof {
            match in_known {
                Some(j) => {
                    assert(views(known@)[j as int] == f@);
                },
                None => {
                    if seen.contains(f@) {
                        let j = choose|j: int| 0 <= j < seen.len() && seen[j] == f@;
                        assert(views(known@)[j] == known@[j]@);
                    }
                },
            }
            match in_found {
                Some(j) => {
                    assert(views(r@)[j as int] == f@);
                },
                None => {
                    if views(r@).contains(f@) {
                        let j = choose|j: int| 0 <= j < views(r@).len() && views(r@)[j] == f@;
                        assert(views(r@)[j] == r@[j]@);
                    }
                },
            }
        }
        if in_known.is_none() && in_found.is_none() {
            let ghost before = r@;
            r.push(f);
            assert(views(r@) =~= views(before).push(f@));
        }
        i += 1;
    }
    assert(all.take(files.len() as int) =~= all);
    strings_of(&r)
}

/// The word that git reads for a switch.
fn bool_word(on: bool) -> (r: &'static str)
    ensures
        opt_bool_text(Some(on)) == Some(r@),
{
    if on {
        "true"
    } else {
        "false"
    }
}

/// Adds the setting `key = value` to the plan where the value is set.
fn plan_setting(plan: &mut Vec<(String, String)>, key: &str, value: Option<&str>)
    ensures
        pairs_of(final(plan)@) == pairs_of(old(plan)@) + labelled(key@, opt_text(value)),
{
    match value {
        Some(v) => {
            let k = string_of(&chars_of(key));
            let t = string_of(&chars_of(v));
            plan.push((k, t));
            assert(pairs_of(plan@) =~= pairs_of(old(plan)@).push((key@, v@)));
        },
        None => {
            assert(pairs_of(plan@) =~= pairs_of(old(plan)@) + labelled(key@, opt_text(value)));
        },
    }
}

/// The optional string as an optional slice.
fn as_opt_str(o: &Option<String>) -> (r: Option<&str>)
    ensures
        opt_text(r) == opt_view(*o),
{
    match o {
        Some(s) => Some(s.as_str()),
        None => None,
    }
}

/// Applies profile settings to a repository: the keys to write into its
/// configuration, with their values, in the order in which they are to be
/// written. Only fields that are set are written; what the repository has
/// beside them stays. A directory that is no repository is refused.
pub fn apply_profile(repo_path: &str, is_repository: bool, profile: &Profile) -> (r: Result<
    Vec<(String, String)>,
    ProfileError,
>)
    ensures
        !is_repository ==> (r matches Err(ProfileError::NotARepository { path }) && path@
            == repo_path@),
        is_repository ==> (r matches Ok(plan) && pairs_of(plan@) == settings(profile@)),
{
    if !is_repository {
        return Err(ProfileError::NotARepository { path: string_of(&chars_of(repo_path)) });
    }
    let mut plan: Vec<(String, String)> = Vec::new();
    assert(pairs_of(plan@) =~= Seq::<(Seq<char>, Seq<char>)>::empty());
    plan_setting(&mut plan, "user.name", as_opt_str(&profile.user_name));
    plan_setting(&mut plan, "user.email", as_opt_str(&profile.user_email));
    plan_setting(&mut plan, "user.signingkey", as_opt_str(&profile.signing_key));
    plan_setting(&mut plan, "gpg.format", as_opt_str(&profile.gpg_format));
    let commit = match profile.gpg_sign {
        Some(b) => Some(bool_word(b)),
        None => None,
    };
    plan_setting(&mut plan, "commit.gpgsign", commit);
    let tag = match profile.tag_gpg_sign {
        Some(b) => Some(bool_word(b)),
        None => None,
    };
    plan_setting(&mut plan, "tag.gpgsign", tag);
    assert(pairs_of(plan@) =~= settings(profile@));
    Ok(plan)
}

/// The value that `git config <key>` printed: its output without the white
/// space around it, and nothing where that leaves nothing.
pub fn get_current_git_config(output: &str) -> (r: Option<String>)
    ensures
        opt_view(r) == printed_value(output@),
{
    let t = trimmed(&chars_of(output));
    if t.len() > 0 {
        Some(string_of(&t))
    } else {
        None
    }
}

/// The files of `names` in `dir` that are profiles of the home directory
/// (`home` set) or of git's configuration directory.
fn keep_profiles(dir: &Vec<char>, names: &Vec<String>, home: bool, out: &mut Vec<Vec<char>>)
    ensures
        views(final(out)@) == views(old(out)@) + kept_in(
            dir@,
            texts(names@),
            if home {
                home_profile()
            } else {
                xdg_profile()
            },
        ),
{
    let ghost all = texts(names@);
    let ghost keep = if home {
        home_profile()
    } else {
        xdg_profile()
    };
    let mut i: usize = 0;
    assert(all.take(0) =~= Seq::<Seq<char>>::empty());
    assert(views(out@) =~= views(old(out)@) + kept_in(dir@, all.take(0), keep));
    while i < names.len()
        invariant
            i <= names.len(),
            all == texts(names@),
            keep == if home {
                home_profile()
            } else {
                xdg_profile()
            },
            views(out@) == views(old(out)@) + kept_in(dir@, all.take(i as int), keep),
        decreases names.len() - i,
    {
        let ghost upto = all.take(i + 1);
        assert(upto.drop_last() =~= all.take(i as int));
        assert(upto.last() == names@[i as int]@);
        let n = chars_of(names[i].as_str());
        let wanted = if home {
            starts_with(&n, &chars_of(".gitconfig-")) || starts_with(&n, &chars_of(".gitconfig."))
        } else {
            ends_with(&n, &chars_of(".gitconfig")) && !same_chars(&n, &chars_of("config"))
        };
        assert(wanted == keep(n@));
        if wanted {
            let ghost before = out@;
            let path = join_chars(dir, &n);
            out.push(path);
            assert(views(out@) =~= views(before).push(join(dir@, n@)));
        }
        i += 1;
    }
    assert(all.take(names.len() as int) =~= all);
}

/// Finds gitconfig files in the common locations and the configured
/// directories. `home_names` are the entries of the home directory,
/// `xdg_names` those of `.config/git` below it, and `extra_files` the files
/// in the directories that the configuration adds.
pub fn find_gitconfig_files(
    home: Option<&str>,
    home_names: &Vec<String>,
    xdg_names: &Vec<String>,
    extra_files: &Vec<String>,
) -> (r: Vec<String>)
    ensures
        texts(r@) == profile_files(
            opt_text(home),
            texts(home_names@),
            texts(xdg_names@),
            texts(extra_files@),
        ),
{
    let mut files: Vec<Vec<char>> = Vec::new();
    assert(views(files@) =~= Seq::<Seq<char>>::empty());
    match home {
        Some(h) => {
            let base = chars_of(h);
            keep_profiles(&base, home_names, true, &mut files);
            let xdg = join_chars(&base, &chars_of(".config/git"));
            keep_profiles(&xdg, xdg_names, false, &mut files);
        },
        None => {},
    }
    let ghost front = views(files@);
    let extra = chars_of_all(extra_files);
    let mut i: usize = 0;
    while i < extra.len()
        invariant
            i <= extra.len(),
            views(files@) == front + views(extra@).take(i as int),
        decreases extra.len() - i,
    {
        let ghost before = files@;
        files.push(crate::text::copy_chars(&extra[i]));
        assert(views(files@) =~= views(before).push(extra@[i as int]@));
        assert(views(extra@).take(i + 1) =~= views(extra@).take(i as int).push(extra@[i as int]@));
        i += 1;
    }
    assert(views(extra@).take(extra.len() as int) =~= views(extra@));
    let r = strings_of(&files);
    assert(texts(r@) =~= profile_files(
        opt_text(home),
        texts(home_names@),
        texts(xdg_names@),
        texts(extra_files@),
    ));
    r
}

/// The paths that a gitdir rule asks to be resolved, one or none.
pub open spec fn pattern_paths(rules: Seq<RuleModel>, home: Option<Seq<char>>) -> Seq<Seq<char>>
    decreases rules.len(),
{
    if rules.len() == 0 {
        Seq::empty()
    } else {
        match gitdir_path(rules.last().condition, home) {
            Some(p) => pattern_paths(rules.drop_last(), home).push(p),
            None => pattern_paths(rules.drop_last(), home),
        }
    }
}

/// The targets of a sequence of rules.
pub open spec fn targets(rules: Seq<RuleModel>) -> Seq<Seq<char>> {
    Seq::new(rules.len(), |i: int| rules[i].target_path)
}

/// The path of the context, if it has one.
pub open spec fn context_paths(ctx: ContextModel) -> Seq<Seq<char>> {
    match ctx.target_path {
        Some(p) => seq![p],
        None => Seq::empty(),
    }
}

/// Every path whose canonical form ordering the catalog looks at: the path
/// of the context, the paths of the gitdir patterns, the targets of the
/// rules, and the sources of the profiles.
pub open spec fn looked_up(
    v: Seq<ProfileModel>,
    rules: Seq<RuleModel>,
    ctx: ContextModel,
    home: Option<Seq<char>>,
) -> Seq<Seq<char>> {
    context_paths(ctx) + pattern_paths(rules, home) + targets(rules) + sources(v)
}

/// The paths that are to be resolved before the catalog is ordered for a
/// context, so that the environment can be told their canonical form.
pub fn paths_to_resolve(
    profiles: &Vec<Profile>,
    rules: &Vec<IncludeIfRule>,
    context: &ProfileContext,
    home: Option<&str>,
) -> (r: Vec<String>)
    ensures
        texts(r@) == looked_up(models(profiles@), rule_models(rules@), context@, opt_text(home)),
{
    let ghost ms = rule_models(rules@);
    let ghost h = opt_text(home);
    let mut r: Vec<String> = Vec::new();
    match &context.target_path {
        Some(p) => {
            r.push(p.clone());
        },
        None => {},
    }
    assert(texts(r@) =~= context_paths(context@));
    let ghost first = texts(r@);
    let mut i: usize = 0;
    assert(ms.take(0) =~= Seq::<RuleModel>::empty());
    assert(texts(r@) =~= first + pattern_paths(ms.take(0), h));
    while i < rules.len()
        invariant
            i <= rules.len(),
            ms == rule_models(rules@),
            h == opt_text(home),
            texts(r@) == first + pattern_paths(ms.take(i as int), h),
        decreases rules.len() - i,
    {
        let ghost upto = ms.take(i + 1);
        assert(upto.drop_last() =~= ms.take(i as int));
        assert(upto.last() == rules@[i as int]@);
        match rules[i].gitdir_pattern(home) {
            Some(p) => {
                let ghost before = r@;
                r.push(p);
                assert(texts(r@) =~= texts(before).push(p@));
            },
            None => {},
        }
        i += 1;
    }
    assert(ms.take(rules.len() as int) =~= ms);
    let ghost second = texts(r@);
    let mut k: usize = 0;
    while k < rules.len()
        invariant
            k <= rules.len(),
            ms == rule_models(rules@),
            texts(r@) == second + targets(ms).take(k as int),
        decreases rules.len() - k,
    {
        let ghost before = r@;
        r.push(rules[k].target_path.clone());
        assert(texts(r@) =~= texts(before).push(rules@[k as int].target_path@));
        assert(targets(ms).take(k + 1) =~= targets(ms).take(k as int).push(
            rules@[k as int].target_path@,
        ));
        k += 1;
    }
    assert(targets(ms).take(rules.len() as int) =~= targets(ms));
    let ghost third = texts(r@);
    let ghost srcs = sources(models(profiles@));
    let mut j: usize = 0;
    while j < profiles.len()
        invariant
            j <= profiles.len(),
            srcs == sources(models(profiles@)),
            texts(r@) == third + srcs.take(j as int),
        decreases profiles.len() - j,
    {
        let ghost before = r@;
        r.push(profiles[j].source.clone());
        assert(texts(r@) =~= texts(before).push(profiles@[j as int].source@));
        assert(srcs.take(j + 1) =~= srcs.take(j as int).push(profiles@[j as int].source@));
        j += 1;
    }
    assert(srcs.take(profiles.len() as int) =~= srcs);
    r
}

/// Promoting the default keeps the catalog: every profile is still there,
/// as often as before, and none is changed.
pub proof fn law_promoting_rearranges(v: Seq<ProfileModel>, default_name: Option<Seq<char>>)
    ensures
        promoted(v, default_name).to_multiset() == v.to_multiset(),
        promoted(v, default_name).len() == v.len(),
{
    match default_name {
        Some(n) => {
            lemma_first_index(v, named(n));
            match first_index(v, named(n)) {
                Some(i) => {
                    lemma_move_to_front(v, i);
                },
                None => {},
            }
        },
        None => {},
    }
}

/// The promoted default stands first.
pub proof fn law_promoted_is_first(v: Seq<ProfileModel>, name: Seq<char>)
    requires
        exists|i: int| 0 <= i < v.len() && (#[trigger] v[i]).name == name,
    ensures
        promoted(v, Some(name)).len() > 0,
        promoted(v, Some(name))[0].name == name,
{
    lemma_first_index(v, named(name));
    let i = choose|i: int| 0 <= i < v.len() && (#[trigger] v[i]).name == name;
    assert(named(name)(v[i]));
}

/// Ordering the catalog for a context only rearranges it: every profile is
/// still there, as often as before, and none is changed.
pub proof fn law_reordering_rearranges(
    v: Seq<ProfileModel>,
    rules: Seq<RuleModel>,
    ctx: ContextModel,
    env: EnvModel,
    default_name: Option<Seq<char>>,
)
    ensures
        reordered(v, rules, ctx, env, default_name).to_multiset() == v.to_multiset(),
        reordered_for(v, rules, ctx, env, default_name).to_multiset() == v.to_multiset(),
{
    law_promoting_rearranges(v, default_name);
    lemma_pick_partition(v, bound_flags(v, rules, ctx, env));
}

/// The files that are still to be read are exactly the files that are no
/// source of a profile that git knows, and none of them comes twice.
pub proof fn law_unseen(files: Seq<Seq<char>>, seen: Seq<Seq<char>>)
    ensures
        forall|x: Seq<char>|
            unseen(files, seen).contains(x) <==> files.contains(x) && !seen.contains(x),
        unseen(files, seen).no_duplicates(),
    decreases files.len(),
{
    if files.len() > 0 {
        let front = files.drop_last();
        let last = files.last();
        let n = files.len() - 1;
        law_unseen(front, seen);
        let before = unseen(front, seen);
        let all = unseen(files, seen);
        assert forall|x: Seq<char>| all.contains(x) <==> files.contains(x) && !seen.contains(
            x,
        ) by {
            if all.contains(x) {
                let k = choose|k: int| 0 <= k < all.len() && all[k] == x;
                if k < before.len() {
                    assert(before[k] == x);
                    assert(before.contains(x));
                    assert(front.contains(x));
                    let i = choose|i: int| 0 <= i < front.len() && front[i] == x;
                    assert(files[i] == x);
                } else {
                    assert(files[n] == x);
                }
            }
            if files.contains(x) && !seen.contains(x) {
                let i = choose|i: int| 0 <= i < files.len() && files[i] == x;
                if i < n {
                    assert(front[i] == x);
                    assert(front.contains(x));
                    assert(before.contains(x));
                    let k = choose|k: int| 0 <= k < before.len() && before[k] == x;
                    assert(all[k] == x);
                } else if before.contains(x) {
                    let k = choose|k: int| 0 <= k < before.len() && before[k] == x;
                    assert(all[k] == x);
                } else {
                    assert(all[all.len() - 1] == x);
                }
            }
        }
        assert forall|a: int, b: int| 0 <= a < all.len() && 0 <= b < all.len() && a != b implies all[a]
            != all[b] by {
            if a < before.len() && b < before.len() {
                assert(before[a] != before[b]);
            } else if a < before.len() {
                assert(before[a] == all[a]);
                assert(before.contains(all[a]));
            } else if b < before.len() {
                assert(before[b] == all[b]);
                assert(before.contains(all[b]));
            }
        }
    }
}

/// Every profile names a user: it has a user name or an e-mail address.
pub open spec fn all_name_user(v: Seq<ProfileModel>) -> bool {
    forall|i: int|
        0 <= i < v.len() ==> (#[trigger] v[i]).user_name is Some || v[i].user_email is Some
}

/// No two profiles come from the same file.
pub open spec fn sources_differ(v: Seq<ProfileModel>) -> bool {
    forall|a: int, b: int|
        0 <= a < v.len() && 0 <= b < v.len() && a != b ==> (#[trigger] v[a]).source != (
        #[trigger] v[b]).source
}

/// `out` holds profiles of `v`, each from a place of its own.
pub open spec fn is_arrangement(
    out: Seq<ProfileModel>,
    v: Seq<ProfileModel>,
    places: Seq<int>,
) -> bool {
    &&& places.len() == out.len()
    &&& forall|k: int|
        0 <= k < out.len() ==> 0 <= #[trigger] places[k] < v.len() && out[k] == v[places[k]]
    &&& forall|a: int, b: int|
        0 <= a < out.len() && 0 <= b < out.len() && a != b ==> #[trigger] places[a]
            != #[trigger] places[b]
}

/// An arrangement of profiles that name users and differ in their sources
/// is one of the same kind, and holds only profiles that were there.
proof fn lemma_arrangement_is_sound(
    out: Seq<ProfileModel>,
    v: Seq<ProfileModel>,
    places: Seq<int>,
)
    requires
        is_arrangement(out, v, places),
        all_name_user(v),
        sources_differ(v),
    ensures
        all_name_user(out),
        sources_differ(out),
        forall|k: int| 0 <= k < out.len() ==> v.contains(#[trigger] out[k]),
{
    assert forall|i: int| 0 <= i < out.len() implies (#[trigger] out[i]).user_name is Some
        || out[i].user_email is Some by {
        assert(out[i] == v[places[i]]);
    }
    assert forall|a: int, b: int| 0 <= a < out.len() && 0 <= b < out.len() && a != b implies (
    #[trigger] out[a]).source != (#[trigger] out[b]).source by {
        assert(out[a] == v[places[a]] && out[b] == v[places[b]]);
        assert(places[a] != places[b]);
    }
    assert forall|k: int| 0 <= k < out.len() implies v.contains(#[trigger] out[k]) by {
        assert(v[places[k]] == out[k]);
    }
}

/// Sorting by name keeps that the profiles name users and differ in their
/// sources, and holds only profiles that were there.
proof fn lemma_by_name_is_sound(v: Seq<ProfileModel>)
    requires
        all_name_user(v),
        sources_differ(v),
    ensures
        all_name_user(by_name(v)),
        sources_differ(by_name(v)),
        by_name(v).len() == v.len(),
        forall|k: int| 0 <= k < by_name(v).len() ==> v.contains(#[trigger] by_name(v)[k]),
{
    crate::seqs::lemma_stable_order(names(v));
    let order = crate::seqs::stable_order(names(v));
    assert(is_arrangement(by_name(v), v, order)) by {
        assert forall|a: int, b: int|
            0 <= a < order.len() && 0 <= b < order.len() && a != b implies #[trigger] order[a]
            != #[trigger] order[b] by {
            if a < b {
                assert(order[a] != order[b]);
            } else {
                assert(order[b] != order[a]);
            }
        }
    }
    lemma_arrangement_is_sound(by_name(v), v, order);
}

/// Moving the active profile to the front keeps that the profiles name
/// users and differ in their sources, and holds only profiles that were
/// there.
proof fn lemma_active_first_is_sound(v: Seq<ProfileModel>, email: Option<Seq<char>>)
    requires
        all_name_user(v),
        sources_differ(v),
    ensures
        all_name_user(active_first(v, email)),
        sources_differ(active_first(v, email)),
        active_first(v, email).len() == v.len(),
        forall|k: int|
            0 <= k < active_first(v, email).len() ==> v.contains(
                #[trigger] active_first(v, email)[k],
            ),
{
    let out = active_first(v, email);
    let same = Seq::new(v.len(), |k: int| k);
    match email {
        Some(e) => {
            lemma_first_index(v, mailed(e));
            match first_index(v, mailed(e)) {
                Some(i) => {
                    let places = Seq::new(
                        v.len(),
                        |k: int|
                            if k == 0 {
                                i
                            } else if k <= i {
                                k - 1
                            } else {
                                k
                            },
                    );
                    assert(is_arrangement(out, v, places));
                    lemma_arrangement_is_sound(out, v, places);
                },
                None => {
                    assert(is_arrangement(out, v, same));
                    lemma_arrangement_is_sound(out, v, same);
                },
            }
        },
        None => {
            assert(is_arrangement(out, v, same));
            lemma_arrangement_is_sound(out, v, same);
        },
    }
}

/// The catalog is sound where what goes in is: if every profile of the two
/// groups names a user and no two of them come from the same file, then
/// every profile of the catalog names a user and no two of them come from
/// the same file.
pub proof fn law_catalog_is_sound(
    git_known: Seq<ProfileModel>,
    additional: Seq<ProfileModel>,
    current_email: Option<Seq<char>>,
    default_name: Option<Seq<char>>,
)
    requires
        all_name_user(git_known + additional),
        sources_differ(git_known + additional),
    ensures
        all_name_user(catalog(git_known, additional, current_email, default_name)),
        sources_differ(catalog(git_known, additional, current_email, default_name)),
{
    let both = git_known + additional;
    let n = git_known.len() as int;
    assert forall|i: int| 0 <= i < git_known.len() implies (#[trigger] git_known[i]).user_name
        is Some || git_known[i].user_email is Some by {
        assert(both[i] == git_known[i]);
    }
    assert forall|i: int| 0 <= i < additional.len() implies (#[trigger] additional[i]).user_name
        is Some || additional[i].user_email is Some by {
        assert(both[n + i] == additional[i]);
    }
    assert forall|a: int, b: int|
        0 <= a < git_known.len() && 0 <= b < git_known.len() && a != b implies (
    #[trigger] git_known[a]).source != (#[trigger] git_known[b]).source by {
        assert(both[a] == git_known[a] && both[b] == git_known[b]);
    }
    assert forall|a: int, b: int|
        0 <= a < additional.len() && 0 <= b < additional.len() && a != b implies (
    #[trigger] additional[a]).source != (#[trigger] additional[b]).source by {
        assert(both[n + a] == additional[a] && both[n + b] == additional[b]);
    }
    lemma_by_name_is_sound(git_known);
    lemma_by_name_is_sound(additional);
    let known = by_name(git_known);
    let front = active_first(known, current_email);
    let back = by_name(additional);
    lemma_active_first_is_sound(known, current_email);
    let joined = front + back;
    let all = catalog(git_known, additional, current_email, default_name);
    assert(all == marked(joined, default_name));
    assert forall|i: int| 0 <= i < joined.len() implies (#[trigger] joined[i]).user_name is Some
        || joined[i].user_email is Some by {
        if i < front.len() {
            assert(joined[i] == front[i]);
        } else {
            assert(joined[i] == back[i - front.len()]);
        }
    }
    assert forall|a: int, b: int|
        0 <= a < joined.len() && 0 <= b < joined.len() && a != b implies (
    #[trigger] joined[a]).source != (#[trigger] joined[b]).source by {
        if a < front.len() && b < front.len() {
            assert(joined[a] == front[a] && joined[b] == front[b]);
        } else if a >= front.len() && b >= front.len() {
            assert(joined[a] == back[a - front.len()] && joined[b] == back[b - front.len()]);
        } else {
            let f = if a < front.len() {
                a
            } else {
                b
            };
            let k = if a < front.len() {
                b - front.len()
            } else {
                a - front.len()
            };
            assert(joined[f] == front[f]);
            assert(joined[front.len() + k] == back[k]);
            assert(known.contains(front[f]));
            let p = choose|p: int| 0 <= p < known.len() && known[p] == front[f];
            assert(git_known.contains(known[p]));
            let g = choose|g: int| 0 <= g < git_known.len() && git_known[g] == known[p];
            assert(additional.contains(back[k]));
            let x = choose|x: int| 0 <= x < additional.len() && additional[x] == back[k];
            assert(both[g] == git_known[g]);
            assert(both[n + x] == additional[x]);
            assert(both[g].source != both[n + x].source);
        }
    }
    assert forall|i: int| 0 <= i < all.len() implies (#[trigger] all[i]).user_name is Some
        || all[i].user_email is Some by {
        assert(all[i].user_name == joined[i].user_name);
        assert(all[i].user_email == joined[i].user_email);
    }
    assert forall|a: int, b: int| 0 <= a < all.len() && 0 <= b < all.len() && a != b implies (
    #[trigger] all[a]).source != (#[trigger] all[b]).source by {
        assert(all[a].source == joined[a].source);
        assert(all[b].source == joined[b].source);
    }
}

} // verus!
