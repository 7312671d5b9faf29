//! Managing profiles: what the menus offer, which profiles may be deleted,
//! and what editing or creating a profile writes into its file.

use vstd::prelude::*;
use crate::paths::{join, join_chars, opt_text};
use crate::profile::{models, option_text, Profile, ProfileModel};
use crate::seqs::{first_index, lemma_first_index_is, lemma_first_index_none, pick};
use crate::text::{
    append_str, chars_of, contains, contains_text, decimal, decimal_of, ends_with, has_prefix,
    has_suffix, is_space, is_whitespace, opt_view, same_chars, same_text, slice_of, starts_with,
    string_of, texts, trim_start, trimmed_start,
};

verus! {

/// What the menu of all profiles offers.
#[derive(Debug, Clone, Copy, PartialEq, Eq)]
pub enum MenuOption {
    Edit,
    Create,
    Delete,
    List,
}

/// What the menu of one profile offers.
#[derive(Debug, Clone, Copy, PartialEq, Eq)]
pub enum ProfileAction {
    Show,
    Edit,
    Delete,
}

impl MenuOption {
    /// How the option reads in the menu.
    pub fn label(&self) -> (r: &'static str)
        ensures
            r@ == match *self {
                MenuOption::Edit => "Edit profile"@,
                MenuOption::Create => "Create new profile"@,
                MenuOption::Delete => "Delete profile"@,
                MenuOption::List => "List profiles"@,
            },
    {
        match self {
            MenuOption::Edit => "Edit profile",
            MenuOption::Create => "Create new profile",
            MenuOption::Delete => "Delete profile",
            MenuOption::List => "List profiles",
        }
    }
}

impl ProfileAction {
    /// How the action reads in the menu.
    pub fn label(&self) -> (r: &'static str)
        ensures
            r@ == match *self {
                ProfileAction::Show => "Show details"@,
                ProfileAction::Edit => "Edit profile"@,
                ProfileAction::Delete => "Delete profile"@,
            },
    {
        match self {
            ProfileAction::Show => "Show details",
            ProfileAction::Edit => "Edit profile",
            ProfileAction::Delete => "Delete profile",
        }
    }
}

/// The options of the menu of all profiles: with profiles at hand one can
/// edit, create, delete and list; without any, create and list.
pub fn menu_options(has_profiles: bool) -> (r: Vec<MenuOption>)
    ensures
        r@ == if has_profiles {
            seq![MenuOption::Edit, MenuOption::Create, MenuOption::Delete, MenuOption::List]
        } else {
            seq![MenuOption::Create, MenuOption::List]
        },
{
    let mut r: Vec<MenuOption> = Vec::new();
    if has_profiles {
        r.push(MenuOption::Edit);
    }
    r.push(MenuOption::Create);
    if has_profiles {
        r.push(MenuOption::Delete);
    }
    r.push(MenuOption::List);
    assert(r@ =~= if has_profiles {
        seq![MenuOption::Edit, MenuOption::Create, MenuOption::Delete, MenuOption::List]
    } else {
        seq![MenuOption::Create, MenuOption::List]
    });
    r
}

/// A file that is not a profile of its own to delete: the main gitconfig of
/// a user, a system file, or the configuration of a repository.
pub open spec fn is_protected(source: Seq<char>) -> bool {
    has_suffix(source, "/.gitconfig"@) || contains_text(source, "/etc/"@) || has_suffix(
        source,
        "/.git/config"@,
    )
}

/// Checks whether a profile can be deleted: it can unless its file is the
/// main gitconfig, a system file or a repository's configuration.
pub fn is_deletable(profile: &Profile) -> (r: bool)
    ensures
        r == !is_protected(profile@.source),
{
    let s = chars_of(profile.source.as_str());
    !ends_with(&s, &chars_of("/.gitconfig")) && !contains(&s, &chars_of("/etc/")) && !ends_with(
        &s,
        &chars_of("/.git/config"),
    )
}

/// How each profile reads in the list to pick from.
pub open spec fn option_texts(v: Seq<ProfileModel>, home: Option<Seq<char>>) -> Seq<Seq<char>> {
    Seq::new(v.len(), |i: int| option_text(v[i], home))
}

/// The property of being the text `t`.
pub open spec fn is_line(t: Seq<char>) -> spec_fn(Seq<char>) -> bool {
    |s: Seq<char>| s == t
}

/// The profile to edit: the first one that reads as the line that was
/// picked from the list of profiles.
pub fn edit_profile(profiles: &Vec<Profile>, selection: &str, home: Option<&str>) -> (r: Option<
    Profile,
>)
    ensures
        match first_index(option_texts(models(profiles@), opt_text(home)), is_line(selection@)) {
            Some(i) => r matches Some(p) && p@ == models(profiles@)[i],
            None => r is None,
        },
{
    let ghost lines = option_texts(models(profiles@), opt_text(home));
    let mut i: usize = 0;
    while i < profiles.len()
        invariant
            i <= profiles.len(),
            lines == option_texts(models(profiles@), opt_text(home)),
            forall|j: int| 0 <= j < i ==> !is_line(selection@)(lines[j]),
        decreases profiles.len() - i,
    {
        let shown = profiles[i].display_option(home);
        if same_text(shown.as_str(), selection) {
            proof {
                lemma_first_index_is(lines, is_line(selection@), i as int);
            }
            return Some(profiles[i].copy());
        }
        i += 1;
    }
    proof {
        lemma_first_index_none(lines, is_line(selection@));
    }
    None
}

/// For each profile, whether it can be deleted.
pub open spec fn deletable_flags(v: Seq<ProfileModel>) -> Seq<bool> {
    Seq::new(v.len(), |i: int| !is_protected(v[i].source))
}

/// The profiles that can be deleted, in order.
pub fn deletable_profiles(profiles: &Vec<Profile>) -> (r: Vec<Profile>)
    ensures
        models(r@) == pick(models(profiles@), deletable_flags(models(profiles@))),
{
    let ghost all = models(profiles@);
    let ghost flags = deletable_flags(all);
    let mut r: Vec<Profile> = Vec::new();
    let mut i: usize = 0;
    assert(all.take(0) =~= Seq::<ProfileModel>::empty());
    assert(models(r@) =~= pick(all.take(0), flags.take(0)));
    while i < profiles.len()
        invariant
            i <= profiles.len(),
            all == models(profiles@),
            flags == deletable_flags(all),
            models(r@) == pick(all.take(i as int), flags.take(i as int)),
        decreases profiles.len() - i,
    {
        proof {
            assert(all.take(i + 1).drop_last() =~= all.take(i as int));
            assert(flags.take(i + 1).drop_last() =~= flags.take(i as int));
            assert(all.take(i + 1).last() == profiles@[i as int]@);
            assert(flags.take(i + 1).last() == !is_protected(profiles@[i as int]@.source));
        }
        if is_deletable(&profiles[i]) {
            let ghost before = r@;
            r.push(profiles[i].copy());
            assert(models(r@) =~= models(before).push(profiles@[i as int]@));
        }
        i += 1;
    }
    assert(all.take(profiles.len() as int) =~= all);
    assert(flags.take(profiles.len() as int) =~= flags);
    r
}

/// What was answered when a profile was edited or created.
#[derive(Debug)]
pub struct Answers {
    /// The user name; never empty.
    pub name: String,
    /// The e-mail address; empty for none.
    pub email: String,
    /// The signing key; empty for none.
    pub signing_key: String,
    /// The signing format, where it is not the default one.
    pub format: Option<String>,
    /// Whether commits are signed.
    pub sign_commits: bool,
    /// Whether tags are signed.
    pub sign_tags: bool,
}

/// The answers as plain values.
pub struct AnswersModel {
    pub name: Seq<char>,
    pub email: Seq<char>,
    pub signing_key: Seq<char>,
    pub format: Option<Seq<char>>,
    pub sign_commits: bool,
    pub sign_tags: bool,
}

impl View for Answers {
    type V = AnswersModel;

    open spec fn view(&self) -> AnswersModel {
        AnswersModel {
            name: self.name@,
            email: self.email@,
            signing_key: self.signing_key@,
            format: opt_view(self.format),
            sign_commits: self.sign_commits,
            sign_tags: self.sign_tags,
        }
    }
}

/// A text that is set if it is not empty.
pub open spec fn if_given(value: Seq<char>) -> Option<Seq<char>> {
    if value.len() == 0 {
        None
    } else {
        Some(value)
    }
}

/// `true` where the switch is on, and nothing where it is off.
pub open spec fn if_on(on: bool) -> Option<Seq<char>> {
    if on {
        Some("true"@)
    } else {
        None
    }
}

/// What editing writes: each key with its new value, or with nothing where
/// the key is unset. Without a signing key all signing settings are unset.
pub open spec fn edit_writes(a: AnswersModel) -> Seq<(Seq<char>, Option<Seq<char>>)> {
    seq![("user.name"@, Some(a.name)), ("user.email"@, if_given(a.email))] + (if a.signing_key.len()
        == 0 {
        seq![
            ("user.signingkey"@, None::<Seq<char>>),
            ("gpg.format"@, None::<Seq<char>>),
            ("commit.gpgsign"@, None::<Seq<char>>),
            ("tag.gpgsign"@, None::<Seq<char>>),
        ]
    } else {
        seq![
            ("user.signingkey"@, Some(a.signing_key)),
            ("gpg.format"@, a.format),
            ("commit.gpgsign"@, if_on(a.sign_commits)),
            ("tag.gpgsign"@, if_on(a.sign_tags)),
        ]
    })
}

/// One setting where the value is set, none where it is not.
pub open spec fn setting(key: Seq<char>, value: Option<Seq<char>>) -> Seq<(Seq<char>, Seq<char>)> {
    match value {
        Some(v) => seq![(key, v)],
        None => Seq::empty(),
    }
}

/// What creating writes into the new file: the name, and every further
/// setting that was given.
pub open spec fn create_writes(a: AnswersModel) -> Seq<(Seq<char>, Seq<char>)> {
    seq![("user.name"@, a.name)] + setting("user.email"@, if_given(a.email)) + setting(
        "user.signingkey"@,
        if_given(a.signing_key),
    ) + setting("gpg.format"@, a.format) + setting("commit.gpgsign"@, if_on(a.sign_commits))
        + setting("tag.gpgsign"@, if_on(a.sign_tags))
}

/// Keys with their optional values as plain texts.
pub open spec fn write_texts(v: Seq<(String, Option<String>)>) -> Seq<(Seq<char>, Option<Seq<char>>)> {
    Seq::new(v.len(), |i: int| (v[i].0@, opt_view(v[i].1)))
}

/// Keys with their values as plain texts.
pub open spec fn setting_texts(v: Seq<(String, String)>) -> Seq<(Seq<char>, Seq<char>)> {
    Seq::new(v.len(), |i: int| (v[i].0@, v[i].1@))
}

/// The string of a literal.
fn owned(s: &str) -> (r: String)
    ensures
        r@ == s@,
{
    string_of(&chars_of(s))
}

/// The string, if it is not empty.
fn given(s: &String) -> (r: Option<String>)
    ensures
        opt_view(r) == if_given(s@),
{
    if chars_of(s.as_str()).len() == 0 {
        None
    } else {
        Some(s.clone())
    }
}

/// `true`, if the switch is on.
fn on_word(on: bool) -> (r: Option<String>)
    ensures
        opt_view(r) == if_on(on),
{
    if on {
        Some(owned("true"))
    } else {
        None
    }
}

/// What editing a profile writes into its file: each key with its new
/// value, or with nothing where the key is to be unset.
pub fn edit_changes(answers: &Answers) -> (r: Vec<(String, Option<String>)>)
    ensures
        write_texts(r@) == edit_writes(answers@),
{
    let mut r: Vec<(String, Option<String>)> = Vec::new();
    r.push((owned("user.name"), Some(answers.name.clone())));
    r.push((owned("user.email"), given(&answers.email)));
    if chars_of(answers.signing_key.as_str()).len() == 0 {
        r.push((owned("user.signingkey"), None));
        r.push((owned("gpg.format"), None));
        r.push((owned("commit.gpgsign"), None));
        r.push((owned("tag.gpgsign"), None));
    } else {
        r.push((owned("user.signingkey"), Some(answers.signing_key.clone())));
        r.push((owned("gpg.format"), crate::text::copy_opt(&answers.format)));
        r.push((owned("commit.gpgsign"), on_word(answers.sign_commits)));
        r.push((owned("tag.gpgsign"), on_word(answers.sign_tags)));
    }
    assert(write_texts(r@) =~= edit_writes(answers@));
    r
}

/// Adds the setting to the list where the value is given.
fn add_setting(list: &mut Vec<(String, String)>, key: &str, value: Option<String>)
    ensures
        setting_texts(final(list)@) == setting_texts(old(list)@) + setting(key@, opt_view(value)),
{
    match value {
        Some(v) => {
            list.push((owned(key), v));
            assert(setting_texts(list@) =~= setting_texts(old(list)@).push((key@, v@)));
        },
        None => {
            assert(setting_texts(list@) =~= setting_texts(old(list)@) + setting(
                key@,
                opt_view(value),
            ));
        },
    }
}

/// What creating a profile writes into its new file.
pub fn create_settings(answers: &Answers) -> (r: Vec<(String, String)>)
    ensures
        setting_texts(r@) == create_writes(answers@),
{
    let mut r: Vec<(String, String)> = Vec::new();
    r.push((owned("user.name"), answers.name.clone()));
    assert(setting_texts(r@) =~= seq![("user.name"@, answers@.name)]);
    add_setting(&mut r, "user.email", given(&answers.email));
    add_setting(&mut r, "user.signingkey", given(&answers.signing_key));
    add_setting(&mut r, "gpg.format", crate::text::copy_opt(&answers.format));
    add_setting(&mut r, "commit.gpgsign", on_word(answers.sign_commits));
    add_setting(&mut r, "tag.gpgsign", on_word(answers.sign_tags));
    r
}

/// The first word of `s`: what stands between its leading white space and
/// the next white space.
pub open spec fn first_word(s: Seq<char>) -> Seq<char> {
    until_space(trim_start(s))
}

/// `s` up to its first white space.
pub open spec fn until_space(s: Seq<char>) -> Seq<char>
    decreases s.len(),
{
    if s.len() == 0 || is_space(s[0]) {
        Seq::empty()
    } else {
        seq![s[0]] + until_space(s.drop_first())
    }
}

/// The signing format that a choice of the list stands for: its first
/// word, unless that is `openpgp`, the default, or there is none.
pub open spec fn chosen_format(choice: Seq<char>) -> Option<Seq<char>> {
    if first_word(choice) == "openpgp"@ || first_word(choice).len() == 0 {
        None
    } else {
        Some(first_word(choice))
    }
}

/// The place in the list of formats where the cursor starts.
pub open spec fn format_place(current: Option<Seq<char>>) -> nat {
    if current == Some("ssh"@) {
        1
    } else if current == Some("x509"@) {
        2
    } else {
        0
    }
}

/// The signing format that a choice of the list stands for.
pub fn signing_format(choice: &str) -> (r: Option<String>)
    ensures
        opt_view(r) == chosen_format(choice@),
{
    let t = trimmed_start(&chars_of(choice));
    let mut n: usize = 0;
    assert(t@.skip(0) =~= t@);
    assert(t@.take(0) =~= Seq::<char>::empty());
    while n < t.len() && !is_whitespace(t[n])
        invariant
            n <= t.len(),
            until_space(t@) == t@.take(n as int) + until_space(t@.skip(n as int)),
        decreases t.len() - n,
    {
        let ghost rest = t@.skip(n as int);
        assert(rest.drop_first() =~= t@.skip(n + 1));
        assert(t@.take(n + 1) =~= t@.take(n as int) + seq![rest[0]]);
        assert(until_space(t@) =~= t@.take(n + 1) + until_space(t@.skip(n + 1)));
        n += 1;
    }
    let word = slice_of(&t, 0, n);
    assert(word@ =~= t@.take(n as int));
    assert(until_space(t@) =~= word@) by {
        let rest = t@.skip(n as int);
        if n < t.len() {
            assert(rest[0] == t@[n as int]);
        }
        assert(until_space(rest) =~= Seq::<char>::empty());
    }
    if word.len() == 0 || same_chars(&word, &chars_of("openpgp")) {
        None
    } else {
        Some(string_of(&word))
    }
}

/// The place in the list of formats where the cursor starts for a profile
/// with this format.
pub fn format_index(current: Option<&str>) -> (r: usize)
    ensures
        r == format_place(opt_text(current)),
{
    match current {
        Some(f) => {
            if same_text(f, "ssh") {
                1
            } else if same_text(f, "x509") {
                2
            } else {
                0
            }
        },
        None => 0,
    }
}

/// How a field changed.
#[derive(Debug, PartialEq, Eq)]
pub enum FieldChange {
    /// The field is as it was.
    Unchanged,
    /// The field has another value.
    Changed { old: String, new: String },
    /// The field was not set and is now.
    Added { new: String },
    /// The field was set and is no more.
    Removed { old: String },
}

/// A change as plain values.
pub enum ChangeModel {
    Unchanged,
    Changed { old: Seq<char>, new: Seq<char> },
    Added { new: Seq<char> },
    Removed { old: Seq<char> },
}

impl View for FieldChange {
    type V = ChangeModel;

    open spec fn view(&self) -> ChangeModel {
        match *self {
            FieldChange::Unchanged => ChangeModel::Unchanged,
            FieldChange::Changed { old, new } => ChangeModel::Changed { old: old@, new: new@ },
            FieldChange::Added { new } => ChangeModel::Added { new: new@ },
            FieldChange::Removed { old } => ChangeModel::Removed { old: old@ },
        }
    }
}

/// How a field changed from `old` to `new`: not at all if both are the
/// same, and otherwise by a new value, by being set, or by being unset.
pub open spec fn change(old: Option<Seq<char>>, new: Option<Seq<char>>) -> ChangeModel {
    match (old, new) {
        (Some(o), Some(n)) => if o == n {
            ChangeModel::Unchanged
        } else {
            ChangeModel::Changed { old: o, new: n }
        },
        (None, Some(n)) => ChangeModel::Added { new: n },
        (Some(o), None) => ChangeModel::Removed { old: o },
        (None, None) => ChangeModel::Unchanged,
    }
}

/// How a field changed from `old` to `new`.
pub fn field_diff(old: Option<&str>, new: Option<&str>) -> (r: FieldChange)
    ensures
        r@ == change(opt_text(old), opt_text(new)),
{
    match old {
        Some(o) => match new {
            Some(n) => {
                if same_text(o, n) {
                    FieldChange::Unchanged
                } else {
                    FieldChange::Changed { old: owned(o), new: owned(n) }
                }
            },
            None => FieldChange::Removed { old: owned(o) },
        },
        None => match new {
            Some(n) => FieldChange::Added { new: owned(n) },
            None => FieldChange::Unchanged,
        },
    }
}

/// The format in force where there is a signing key: the one that is set,
/// or `openpgp`; without a key there is none.
pub open spec fn format_in_force(has_key: bool, format: Option<Seq<char>>) -> Option<Seq<char>> {
    if has_key {
        match format {
            Some(f) => Some(f),
            None => Some("openpgp"@),
        }
    } else {
        None
    }
}

/// How a switch reads where there is a signing key; without a key it does
/// not read at all.
pub open spec fn switch_in_force(has_key: bool, on: bool) -> Option<Seq<char>> {
    if has_key {
        Some(crate::profile::switch_text(on))
    } else {
        None
    }
}

/// What editing changed, field by field: name, e-mail address and signing
/// key always, and format and the two switches where there was or is a
/// signing key.
pub open spec fn edit_changes_shown(p: ProfileModel, a: AnswersModel) -> Seq<
    (Seq<char>, ChangeModel),
> {
    let had = p.signing_key is Some;
    let has = a.signing_key.len() > 0;
    seq![
        ("Name"@, change(p.user_name, Some(a.name))),
        ("Email"@, change(p.user_email, if_given(a.email))),
        ("Signing key"@, change(p.signing_key, if_given(a.signing_key))),
    ] + (if had || has {
        seq![
            (
                "Format"@,
                change(format_in_force(had, p.gpg_format), format_in_force(has, a.format)),
            ),
            (
                "Sign commits"@,
                change(
                    switch_in_force(had, p.gpg_sign == Some(true)),
                    switch_in_force(has, a.sign_commits),
                ),
            ),
            (
                "Sign tags"@,
                change(
                    switch_in_force(had, p.tag_gpg_sign == Some(true)),
                    switch_in_force(has, a.sign_tags),
                ),
            ),
        ]
    } else {
        Seq::empty()
    })
}

/// Labels with their changes as plain values.
pub open spec fn diff_texts(v: Seq<(String, FieldChange)>) -> Seq<(Seq<char>, ChangeModel)> {
    Seq::new(v.len(), |i: int| (v[i].0@, v[i].1@))
}

/// The optional string as an optional slice.
fn as_str_opt(o: &Option<String>) -> (r: Option<&str>)
    ensures
        opt_text(r) == opt_view(*o),
{
    match o {
        Some(s) => Some(s.as_str()),
        None => None,
    }
}

/// The string as a slice, if it is not empty.
fn given_str(s: &String) -> (r: Option<&str>)
    ensures
        opt_text(r) == if_given(s@),
{
    if chars_of(s.as_str()).len() == 0 {
        None
    } else {
        Some(s.as_str())
    }
}

/// The format in force.
fn format_shown<'a>(has_key: bool, format: &'a Option<String>) -> (r: Option<&'a str>)
    ensures
        opt_text(r) == format_in_force(has_key, opt_view(*format)),
{
    if has_key {
        match format {
            Some(f) => Some(f.as_str()),
            None => Some("openpgp"),
        }
    } else {
        None
    }
}

/// How a switch reads where there is a signing key.
fn switch_shown(has_key: bool, on: bool) -> (r: Option<&'static str>)
    ensures
        opt_text(r) == switch_in_force(has_key, on),
{
    if has_key {
        if on {
            Some("enabled")
        } else {
            Some("disabled")
        }
    } else {
        None
    }
}

/// Whether an optional switch is set and on.
fn is_on(o: Option<bool>) -> (r: bool)
    ensures
        r == (o == Some(true)),
{
    match o {
        Some(b) => b,
        None => false,
    }
}

/// What editing a profile changed, field by field, for the report that
/// follows the edit.
pub fn edit_diffs(profile: &Profile, answers: &Answers) -> (r: Vec<(String, FieldChange)>)
    ensures
        diff_texts(r@) == edit_changes_shown(profile@, answers@),
{
    let had = profile.signing_key.is_some();
    let has = chars_of(answers.signing_key.as_str()).len() > 0;
    let mut r: Vec<(String, FieldChange)> = Vec::new();
    r.push(
        (owned("Name"), field_diff(as_str_opt(&profile.user_name), Some(answers.name.as_str()))),
    );
    r.push((owned("Email"), field_diff(as_str_opt(&profile.user_email), given_str(&answers.email))));
    r.push(
        (
            owned("Signing key"),
            field_diff(as_str_opt(&profile.signing_key), given_str(&answers.signing_key)),
        ),
    );
    if had || has {
        r.push(
            (
                owned("Format"),
                field_diff(
                    format_shown(had, &profile.gpg_format),
                    format_shown(has, &answers.format),
                ),
            ),
        );
        r.push(
            (
                owned("Sign commits"),
                field_diff(
                    switch_shown(had, is_on(profile.gpg_sign)),
                    switch_shown(has, answers.sign_commits),
                ),
            ),
        );
        r.push(
            (
                owned("Sign tags"),
                field_diff(
                    switch_shown(had, is_on(profile.tag_gpg_sign)),
                    switch_shown(has, answers.sign_tags),
                ),
            ),
        );
    }
    assert(diff_texts(r@) =~= edit_changes_shown(profile@, answers@));
    r
}

/// The two places where a new profile of this name can be kept, below the
/// home directory: `.gitconfig-<name>` and `.config/git/<name>.gitconfig`.
pub fn profile_locations(home: &str, name: &str) -> (r: (String, String))
    ensures
        r.0@ == join(home@, ".gitconfig-"@ + name@),
        r.1@ == join(home@, ".config/git/"@ + name@ + ".gitconfig"@),
{
    let h = chars_of(home);
    let mut plain: Vec<char> = Vec::new();
    append_str(&mut plain, ".gitconfig-");
    append_str(&mut plain, name);
    assert(plain@ =~= ".gitconfig-"@ + name@);
    let mut xdg: Vec<char> = Vec::new();
    append_str(&mut xdg, ".config/git/");
    append_str(&mut xdg, name);
    append_str(&mut xdg, ".gitconfig");
    assert(xdg@ =~= ".config/git/"@ + name@ + ".gitconfig"@);
    (string_of(&join_chars(&h, &plain)), string_of(&join_chars(&h, &xdg)))
}

/// How the two places read in the list to pick from.
pub fn location_options(name: &str) -> (r: Vec<String>)
    ensures
        texts(r@) == seq![
            "~/.gitconfig-"@ + name@,
            "~/.config/git/"@ + name@ + ".gitconfig"@,
        ],
{
    let mut plain: Vec<char> = Vec::new();
    append_str(&mut plain, "~/.gitconfig-");
    append_str(&mut plain, name);
    assert(plain@ =~= "~/.gitconfig-"@ + name@);
    let mut xdg: Vec<char> = Vec::new();
    append_str(&mut xdg, "~/.config/git/");
    append_str(&mut xdg, name);
    append_str(&mut xdg, ".gitconfig");
    assert(xdg@ =~= "~/.config/git/"@ + name@ + ".gitconfig"@);
    let mut r: Vec<String> = Vec::new();
    r.push(string_of(&plain));
    r.push(string_of(&xdg));
    assert(texts(r@) =~= seq![plain@, xdg@]);
    r
}

/// Whether the place that was picked is the one in git's configuration
/// directory.
pub fn is_xdg_location(location: &str) -> (r: bool)
    ensures
        r == has_prefix(location@, "~/.config"@),
{
    starts_with(&chars_of(location), &chars_of("~/.config"))
}

/// What is said of the number of profiles found.
pub fn profiles_found(count: usize) -> (r: String)
    ensures
        r@ == decimal(count as nat) + (if count == 1 {
            " profile found"@
        } else {
            " profiles found"@
        }),
{
    let mut v = decimal_of(count as u64);
    if count == 1 {
        append_str(&mut v, " profile found");
    } else {
        append_str(&mut v, " profiles found");
    }
    string_of(&v)
}

} // verus!
