//! Git identities: what a profile holds, how it is shown, and how profiles
//! are sorted by name.

use vstd::prelude::*;
use crate::paths::{format_home_path, home_display, opt_text};
use crate::seqs::{arranged, as_order, sort_order, stable_order};
use crate::text::{
    append, append_str, chars_of, copy_opt, join_with, joined, opt_view, string_of, views,
};

verus! {

/// A discovered git identity.
#[derive(Debug, Clone, PartialEq, Eq)]
pub struct Profile {
    /// Derived from the file's name (`work` for `work.gitconfig`).
    pub name: String,
    /// The file it was read from.
    pub source: String,
    /// Git's `user.name`.
    pub user_name: Option<String>,
    /// Git's `user.email`.
    pub user_email: Option<String>,
    /// Git's `user.signingkey`.
    pub signing_key: Option<String>,
    /// Git's `commit.gpgsign`.
    pub gpg_sign: Option<bool>,
    /// Git's `gpg.format` (`openpgp`, `x509`, `ssh`).
    pub gpg_format: Option<String>,
    /// Git's `tag.gpgsign`.
    pub tag_gpg_sign: Option<bool>,
    /// Whether this profile is the configured default.
    pub is_default: bool,
}

/// What a profile says, as plain values.
pub struct ProfileModel {
    pub name: Seq<char>,
    pub source: Seq<char>,
    pub user_name: Option<Seq<char>>,
    pub user_email: Option<Seq<char>>,
    pub signing_key: Option<Seq<char>>,
    pub gpg_sign: Option<bool>,
    pub gpg_format: Option<Seq<char>>,
    pub tag_gpg_sign: Option<bool>,
    pub is_default: bool,
}

impl View for Profile {
    type V = ProfileModel;

    open spec fn view(&self) -> ProfileModel {
        ProfileModel {
            name: self.name@,
            source: self.source@,
            user_name: opt_view(self.user_name),
            user_email: opt_view(self.user_email),
            signing_key: opt_view(self.signing_key),
            gpg_sign: self.gpg_sign,
            gpg_format: opt_view(self.gpg_format),
            tag_gpg_sign: self.tag_gpg_sign,
            is_default: self.is_default,
        }
    }
}

/// The models of a sequence of profiles.
pub open spec fn models(v: Seq<Profile>) -> Seq<ProfileModel> {
    Seq::new(v.len(), |i: int| v[i]@)
}

/// The names of a sequence of profile models.
pub open spec fn names(v: Seq<ProfileModel>) -> Seq<Seq<char>> {
    Seq::new(v.len(), |i: int| v[i].name)
}

/// A profile field with its display label and value.
pub struct ProfileField<'a> {
    pub label: &'static str,
    pub value: &'a str,
}

/// The label and value of each field, as texts.
pub open spec fn field_texts(v: Seq<ProfileField>) -> Seq<(Seq<char>, Seq<char>)> {
    Seq::new(v.len(), |i: int| (v[i].label@, v[i].value@))
}

/// How a profile's identity reads: `Name <Email>`, `Name` or `<Email>`.
pub open spec fn identity_text(p: ProfileModel) -> Option<Seq<char>> {
    match (p.user_name, p.user_email) {
        (Some(name), Some(email)) => Some(name + " <"@ + email + ">"@),
        (Some(name), None) => Some(name),
        (None, Some(email)) => Some("<"@ + email + ">"@),
        (None, None) => None,
    }
}

/// How a switch reads.
pub open spec fn switch_text(on: bool) -> Seq<char> {
    if on {
        "enabled"@
    } else {
        "disabled"@
    }
}

/// One labelled field where the value is set, none where it is not.
pub open spec fn labelled(label: Seq<char>, value: Option<Seq<char>>) -> Seq<
    (Seq<char>, Seq<char>),
> {
    match value {
        Some(v) => seq![(label, v)],
        None => Seq::empty(),
    }
}

/// How an optional switch reads.
pub open spec fn opt_switch_text(on: Option<bool>) -> Option<Seq<char>> {
    match on {
        Some(b) => Some(switch_text(b)),
        None => None,
    }
}

/// The fields of a profile beside its identity, those that are set, each
/// with its label: signing key, signing format, commit signing, tag signing.
pub open spec fn extra_fields(p: ProfileModel) -> Seq<(Seq<char>, Seq<char>)> {
    labelled("Signing key"@, p.signing_key) + labelled("Signing format"@, p.gpg_format) + labelled(
        "Sign commits"@,
        opt_switch_text(p.gpg_sign),
    ) + labelled("Sign tags"@, opt_switch_text(p.tag_gpg_sign))
}

/// Each field written as `label: value`.
pub open spec fn field_lines(fields: Seq<(Seq<char>, Seq<char>)>) -> Seq<Seq<char>> {
    Seq::new(fields.len(), |i: int| fields[i].0 + ": "@ + fields[i].1)
}

/// The identity, where there is one, as a list of one.
pub open spec fn identity_part(p: ProfileModel) -> Seq<Seq<char>> {
    match identity_text(p) {
        Some(t) => seq![t],
        None => Seq::empty(),
    }
}

/// The one-line summary of what a profile sets: the identity, then each
/// further field as `label: value`, separated by `, `.
pub open spec fn summary_text(p: ProfileModel) -> Seq<char> {
    join_with(identity_part(p) + field_lines(extra_fields(p)), ", "@)
}

/// How a profile reads in a menu: `name (source)`, the source shortened by
/// the home directory.
pub open spec fn option_text(p: ProfileModel, home: Option<Seq<char>>) -> Seq<char> {
    p.name + " ("@ + home_display(p.source, home) + ")"@
}

/// The signing attributes that the long form shows.
pub open spec fn display_attrs(p: ProfileModel) -> Seq<Seq<char>> {
    (match p.signing_key {
        Some(k) => seq!["signing key: "@ + k],
        None => Seq::empty(),
    }) + (if p.gpg_sign == Some(true) {
        seq!["gpgsign"@]
    } else {
        Seq::empty()
    })
}

/// The attributes in square brackets, where there are any.
pub open spec fn attrs_part(p: ProfileModel) -> Seq<Seq<char>> {
    if display_attrs(p).len() > 0 {
        seq!["["@ + join_with(display_attrs(p), ", "@) + "]"@]
    } else {
        Seq::empty()
    }
}

/// The long form of a profile: identity, signing attributes in square
/// brackets, and the source in round ones, separated by spaces.
pub open spec fn display_text(p: ProfileModel, home: Option<Seq<char>>) -> Seq<char> {
    join_with(
        identity_part(p) + attrs_part(p) + seq!["("@ + home_display(p.source, home) + ")"@],
        " "@,
    )
}

/// The word for a switch.
fn switch_word(on: bool) -> (r: &'static str)
    ensures
        r@ == switch_text(on),
{
    if on {
        "enabled"
    } else {
        "disabled"
    }
}

impl Profile {
    /// A copy of this profile.
    pub fn copy(&self) -> (r: Profile)
        ensures
            r == *self,
    {
        Profile {
            name: self.name.clone(),
            source: self.source.clone(),
            user_name: copy_opt(&self.user_name),
            user_email: copy_opt(&self.user_email),
            signing_key: copy_opt(&self.signing_key),
            gpg_sign: self.gpg_sign,
            gpg_format: copy_opt(&self.gpg_format),
            tag_gpg_sign: self.tag_gpg_sign,
            is_default: self.is_default,
        }
    }

    /// The identity as characters.
    fn identity_chars(&self) -> (r: Option<Vec<char>>)
        ensures
            match r {
                Some(t) => identity_text(self@) == Some(t@),
                None => identity_text(self@) is None,
            },
    {
        match &self.user_name {
            Some(name) => match &self.user_email {
                Some(email) => {
                    let mut v: Vec<char> = Vec::new();
                    append_str(&mut v, name.as_str());
                    append_str(&mut v, " <");
                    append_str(&mut v, email.as_str());
                    append_str(&mut v, ">");
                    assert(v@ =~= name@ + " <"@ + email@ + ">"@);
                    Some(v)
                },
                None => {
                    let v = chars_of(name.as_str());
                    Some(v)
                },
            },
            None => match &self.user_email {
                Some(email) => {
                    let mut v: Vec<char> = Vec::new();
                    append_str(&mut v, "<");
                    append_str(&mut v, email.as_str());
                    append_str(&mut v, ">");
                    assert(v@ =~= "<"@ + email@ + ">"@);
                    Some(v)
                },
                None => None,
            },
        }
    }

    /// Returns the identity as `Name <Email>`, `Name` or `<Email>`,
    /// depending on the fields that are set, and nothing where neither is.
    pub fn identity(&self) -> (r: Option<String>)
        ensures
            opt_view(r) == identity_text(self@),
    {
        match self.identity_chars() {
            Some(v) => Some(string_of(&v)),
            None => None,
        }
    }

    /// Returns the profile's fields beside the identity, those that are set.
    pub fn fields(&self) -> (r: Vec<ProfileField<'_>>)
        ensures
            field_texts(r@) == extra_fields(self@),
    {
        let mut r: Vec<ProfileField<'_>> = Vec::new();
        match &self.signing_key {
            Some(v) => {
                r.push(ProfileField { label: "Signing key", value: v.as_str() });
            },
            None => {},
        }
        assert(field_texts(r@) =~= labelled("Signing key"@, self@.signing_key));
        let ghost one = field_texts(r@);
        match &self.gpg_format {
            Some(v) => {
                r.push(ProfileField { label: "Signing format", value: v.as_str() });
            },
            None => {},
        }
        assert(field_texts(r@) =~= one + labelled("Signing format"@, self@.gpg_format));
        let ghost two = field_texts(r@);
        match self.gpg_sign {
            Some(b) => {
                r.push(ProfileField { label: "Sign commits", value: switch_word(b) });
            },
            None => {},
        }
        assert(field_texts(r@) =~= two + labelled(
            "Sign commits"@,
            opt_switch_text(self@.gpg_sign),
        ));
        let ghost three = field_texts(r@);
        match self.tag_gpg_sign {
            Some(b) => {
                r.push(ProfileField { label: "Sign tags", value: switch_word(b) });
            },
            None => {},
        }
        assert(field_texts(r@) =~= three + labelled(
            "Sign tags"@,
            opt_switch_text(self@.tag_gpg_sign),
        ));
        r
    }

    /// Returns a display string of the values that the profile sets.
    pub fn config_summary(&self) -> (r: String)
        ensures
            r@ == summary_text(self@),
    {
        let mut parts: Vec<Vec<char>> = Vec::new();
        match self.identity_chars() {
            Some(t) => {
                parts.push(t);
            },
            None => {},
        }
        assert(views(parts@) =~= identity_part(self@));
        let fields = self.fields();
        let ghost head = views(parts@);
        let ghost wanted = field_lines(extra_fields(self@));
        let mut i: usize = 0;
        while i < fields.len()
            invariant
                i <= fields.len(),
                field_texts(fields@) == extra_fields(self@),
                wanted == field_lines(extra_fields(self@)),
                views(parts@) == head + wanted.take(i as int),
            decreases fields.len() - i,
        {
            let mut line: Vec<char> = Vec::new();
            append_str(&mut line, fields[i].label);
            append_str(&mut line, ": ");
            append_str(&mut line, fields[i].value);
            assert(field_texts(fields@)[i as int] == (fields@[i as int].label@, fields@[i as int].value@));
            assert(line@ =~= wanted[i as int]);
            let ghost before = parts@;
            parts.push(line);
            assert(views(parts@) =~= views(before).push(line@));
            assert(wanted.take(i + 1) =~= wanted.take(i as int).push(wanted[i as int]));
            i += 1;
        }
        assert(wanted.take(fields.len() as int) =~= wanted);
        let text = joined(&parts, ", ");
        string_of(&text)
    }

    /// Returns a display string for menu selection: `name (source)`, the
    /// source with the home directory shortened to `~`.
    pub fn display_option(&self, home: Option<&str>) -> (r: String)
        ensures
            r@ == option_text(self@, opt_text(home)),
    {
        let shown = format_home_path(self.source.as_str(), home);
        let mut v: Vec<char> = Vec::new();
        append_str(&mut v, self.name.as_str());
        append_str(&mut v, " (");
        append_str(&mut v, shown.as_str());
        append_str(&mut v, ")");
        assert(v@ =~= self.name@ + " ("@ + shown@ + ")"@);
        string_of(&v)
    }
}

/// Formats a profile for display in the selection list.
pub fn format_profile_display(profile: &Profile, home: Option<&str>) -> (r: String)
    ensures
        r@ == display_text(profile@, opt_text(home)),
{
    let mut parts: Vec<Vec<char>> = Vec::new();
    match profile.identity_chars() {
        Some(t) => {
            parts.push(t);
        },
        None => {},
    }
    assert(views(parts@) =~= identity_part(profile@));
    let mut attrs: Vec<Vec<char>> = Vec::new();
    match &profile.signing_key {
        Some(key) => {
            let mut a: Vec<char> = Vec::new();
            append_str(&mut a, "signing key: ");
            append_str(&mut a, key.as_str());
            assert(a@ =~= "signing key: "@ + key@);
            attrs.push(a);
        },
        None => {},
    }
    let ghost first = views(attrs@);
    assert(first =~= match profile@.signing_key {
        Some(k) => seq!["signing key: "@ + k],
        None => Seq::empty(),
    });
    let signs = match profile.gpg_sign {
        Some(b) => b,
        None => false,
    };
    if signs {
        attrs.push(chars_of("gpgsign"));
    }
    assert(views(attrs@) =~= display_attrs(profile@));
    if attrs.len() > 0 {
        let inner = joined(&attrs, ", ");
        let mut a: Vec<char> = Vec::new();
        append_str(&mut a, "[");
        append(&mut a, &inner);
        append_str(&mut a, "]");
        assert(a@ =~= "["@ + inner@ + "]"@);
        let ghost before = parts@;
        parts.push(a);
        assert(views(parts@) =~= views(before).push(a@));
    }
    assert(views(parts@) =~= identity_part(profile@) + attrs_part(profile@));
    let shown = format_home_path(profile.source.as_str(), home);
    let mut last: Vec<char> = Vec::new();
    append_str(&mut last, "(");
    append_str(&mut last, shown.as_str());
    append_str(&mut last, ")");
    assert(last@ =~= "("@ + shown@ + ")"@);
    let ghost before = parts@;
    parts.push(last);
    assert(views(parts@) =~= views(before).push(last@));
    assert(views(parts@) =~= identity_part(profile@) + attrs_part(profile@) + seq![last@]);
    let text = joined(&parts, " ");
    string_of(&text)
}

/// `v` sorted by profile name, profiles of one name in the order of `v`.
pub open spec fn by_name(v: Seq<ProfileModel>) -> Seq<ProfileModel> {
    arranged(v, stable_order(names(v)))
}

/// The profiles sorted by name in the order of strings; profiles of one
/// name keep their order.
pub fn sort_by_name(profiles: Vec<Profile>) -> (r: Vec<Profile>)
    ensures
        models(r@) == by_name(models(profiles@)),
{
    let mut keys: Vec<Vec<char>> = Vec::new();
    let mut i: usize = 0;
    while i < profiles.len()
        invariant
            i <= profiles.len(),
            keys.len() == i,
            forall|k: int| 0 <= k < i ==> keys@[k]@ == profiles@[k].name@,
        decreases profiles.len() - i,
    {
        keys.push(chars_of(profiles[i].name.as_str()));
        i += 1;
    }
    assert(views(keys@) =~= names(models(profiles@)));
    let order = sort_order(&keys);
    let ghost wanted = by_name(models(profiles@));
    let mut r: Vec<Profile> = Vec::new();
    let mut k: usize = 0;
    while k < order.len()
        invariant
            k <= order.len(),
            order.len() == profiles.len(),
            forall|j: int| 0 <= j < order.len() ==> order@[j] < profiles.len(),
            as_order(order@) == stable_order(names(models(profiles@))),
            wanted == by_name(models(profiles@)),
            r.len() == k,
            forall|j: int| 0 <= j < k ==> r@[j]@ == wanted[j],
        decreases order.len() - k,
    {
        let p = profiles[order[k]].copy();
        assert(as_order(order@)[k as int] == order@[k as int]);
        assert(wanted[k as int] == models(profiles@)[order@[k as int] as int]);
        r.push(p);
        k += 1;
    }
    assert(models(r@) =~= wanted);
    r
}

/// `count` spaces.
pub open spec fn spaces(count: nat) -> Seq<char> {
    Seq::new(count, |i: int| ' ')
}

/// `label` filled up with spaces to `width` characters; a longer label is
/// left as it is.
pub open spec fn padded(label: Seq<char>, width: nat) -> Seq<char> {
    if label.len() < width {
        label + spaces((width - label.len()) as nat)
    } else {
        label
    }
}

/// Each field as a line of the details: indented, the label filled up to
/// sixteen characters, then the value.
pub open spec fn detail_fields(fields: Seq<(Seq<char>, Seq<char>)>) -> Seq<Seq<char>> {
    Seq::new(fields.len(), |i: int| "    "@ + padded(fields[i].0, 16) + fields[i].1)
}

/// The identity as a line of the details, where there is one.
pub open spec fn detail_identity(p: ProfileModel) -> Seq<Seq<char>> {
    match identity_text(p) {
        Some(t) => seq!["    "@ + t],
        None => Seq::empty(),
    }
}

/// The lines that show what a profile holds, below its heading.
pub open spec fn detail_text(p: ProfileModel) -> Seq<Seq<char>> {
    detail_identity(p) + detail_fields(extra_fields(p))
}

/// `label` filled up with spaces to `width` characters.
fn pad(label: &str, width: usize) -> (r: Vec<char>)
    ensures
        r@ == padded(label@, width as nat),
{
    let mut v = chars_of(label);
    let start = v.len();
    if start >= width {
        return v;
    }
    while v.len() < width
        invariant
            start <= v.len() <= width,
            start < width,
            v@ == label@ + spaces((v.len() - start) as nat),
            start == label@.len(),
        decreases width - v.len(),
    {
        let ghost before = v@;
        v.push(' ');
        assert(v@ =~= label@ + spaces((v.len() - start) as nat));
    }
    v
}

impl Profile {
    /// The lines that show what the profile holds, below its heading: the
    /// identity, then each further field with its label.
    pub fn detail_lines(&self) -> (r: Vec<String>)
        ensures
            crate::text::texts(r@) == detail_text(self@),
    {
        let mut lines: Vec<String> = Vec::new();
        match self.identity_chars() {
            Some(t) => {
                let mut v: Vec<char> = Vec::new();
                append_str(&mut v, "    ");
                append(&mut v, &t);
                assert(v@ =~= "    "@ + t@);
                lines.push(string_of(&v));
            },
            None => {},
        }
        assert(crate::text::texts(lines@) =~= detail_identity(self@));
        let fields = self.fields();
        let ghost head = crate::text::texts(lines@);
        let ghost wanted = detail_fields(extra_fields(self@));
        let mut i: usize = 0;
        while i < fields.len()
            invariant
                i <= fields.len(),
                field_texts(fields@) == extra_fields(self@),
                wanted == detail_fields(extra_fields(self@)),
                crate::text::texts(lines@) == head + wanted.take(i as int),
            decreases fields.len() - i,
        {
            let mut v: Vec<char> = Vec::new();
            append_str(&mut v, "    ");
            append(&mut v, &pad(fields[i].label, 16));
            append_str(&mut v, fields[i].value);
            assert(field_texts(fields@)[i as int] == (
                fields@[i as int].label@,
                fields@[i as int].value@,
            ));
            assert(v@ =~= wanted[i as int]);
            let ghost before = lines@;
            lines.push(string_of(&v));
            assert(crate::text::texts(lines@) =~= crate::text::texts(before).push(v@));
            assert(wanted.take(i + 1) =~= wanted.take(i as int).push(wanted[i as int]));
            i += 1;
        }
        assert(wanted.take(fields.len() as int) =~= wanted);
        lines
    }
}

} // verus!
