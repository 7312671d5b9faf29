//! Reading identities out of git's listings of configuration values: the
//! listing of one file (`key=value` lines) and the listing of all effective
//! values with their origin (`file:<path><TAB>key=value` lines).

use vstd::prelude::*;
use crate::paths::{file_name, file_name_chars, parent_name, parent_name_chars};
use crate::profile::{by_name, models, names, sort_by_name, Profile, ProfileModel};
use crate::seqs::index_of_text;
use crate::text::{
    chars_of, copy_opt, lines, lines_of, lowercase, opt_view, same_chars, same_text, split_first,
    split_once, string_of, strip_prefix, strip_trailing, stripped_trailing, to_lowercase, views,
    without_prefix,
};

verus! {

/// What a boolean value of git's means once it is in lower case: `true`,
/// `yes`, `on` and `1` are true, `false`, `no`, `off` and `0` are false, and
/// anything else is no boolean.
pub open spec fn flag_of(lowered: Seq<char>) -> Option<bool> {
    if lowered == "true"@ || lowered == "yes"@ || lowered == "on"@ || lowered == "1"@ {
        Some(true)
    } else if lowered == "false"@ || lowered == "no"@ || lowered == "off"@ || lowered == "0"@ {
        Some(false)
    } else {
        None
    }
}

/// The name of the profile that the file at `path` holds. The global files
/// `.gitconfig` and `config` are `local` inside a `.git` directory and
/// `global` elsewhere; any other file is named by its file name without
/// trailing `.gitconfig` and `.git`.
pub open spec fn profile_name(path: Seq<char>) -> Seq<char> {
    let base = match file_name(path) {
        Some(n) => n,
        None => "unknown"@,
    };
    if base == ".gitconfig"@ || base == "config"@ {
        if parent_name(path) == Some(".git"@) {
            "local"@
        } else {
            "global"@
        }
    } else {
        strip_trailing(strip_trailing(base, ".gitconfig"@), ".git"@)
    }
}

/// One line of the listing with origins, taken apart: the file, the key and
/// the value. The line is cut at its first tab, the origin must begin with
/// `file:`, and the rest is cut at its first `=`.
pub open spec fn config_record(line: Seq<char>) -> Option<(Seq<char>, Seq<char>, Seq<char>)> {
    match split_first(line, '\t') {
        Some((origin, rest)) => match without_prefix(origin, "file:"@) {
            Some(path) => match split_first(rest, '=') {
                Some((key, value)) => Some((path, key, value)),
                None => None,
            },
            None => None,
        },
        None => None,
    }
}

/// The identity values gathered from one file so far.
pub struct FieldsModel {
    pub user_name: Option<Seq<char>>,
    pub user_email: Option<Seq<char>>,
    pub signing_key: Option<Seq<char>>,
    pub gpg_sign: Option<bool>,
    pub gpg_format: Option<Seq<char>>,
    pub tag_gpg_sign: Option<bool>,
}

/// No value gathered yet.
pub open spec fn no_fields() -> FieldsModel {
    FieldsModel {
        user_name: None,
        user_email: None,
        signing_key: None,
        gpg_sign: None,
        gpg_format: None,
        tag_gpg_sign: None,
    }
}

/// The values after `key=value` has been read: a known key replaces what
/// was there, an unknown one changes nothing.
pub open spec fn applied(f: FieldsModel, key: Seq<char>, value: Seq<char>) -> FieldsModel {
    if key == "user.name"@ {
        FieldsModel { user_name: Some(value), ..f }
    } else if key == "user.email"@ {
        FieldsModel { user_email: Some(value), ..f }
    } else if key == "user.signingkey"@ {
        FieldsModel { signing_key: Some(value), ..f }
    } else if key == "commit.gpgsign"@ {
        FieldsModel { gpg_sign: flag_of(lowercase(value)), ..f }
    } else if key == "gpg.format"@ {
        FieldsModel { gpg_format: Some(value), ..f }
    } else if key == "tag.gpgsign"@ {
        FieldsModel { tag_gpg_sign: flag_of(lowercase(value)), ..f }
    } else {
        f
    }
}

/// Whether the values name a user: a name or an e-mail address is set.
pub open spec fn names_user(f: FieldsModel) -> bool {
    f.user_name is Some || f.user_email is Some
}

/// The profile that the values gathered from the file `source` make.
pub open spec fn profile_of(f: FieldsModel, source: Seq<char>) -> ProfileModel {
    ProfileModel {
        name: profile_name(source),
        source: source,
        user_name: f.user_name,
        user_email: f.user_email,
        signing_key: f.signing_key,
        gpg_sign: f.gpg_sign,
        gpg_format: f.gpg_format,
        tag_gpg_sign: f.tag_gpg_sign,
        is_default: false,
    }
}

/// The values after every `key=value` line of `lines` has been read in
/// order; a line without `=` is passed over.
pub open spec fn fields_of_lines(lines: Seq<Seq<char>>) -> FieldsModel
    decreases lines.len(),
{
    if lines.len() == 0 {
        no_fields()
    } else {
        let before = fields_of_lines(lines.drop_last());
        match split_first(lines.last(), '=') {
            Some((key, value)) => applied(before, key, value),
            None => before,
        }
    }
}

/// The profile in the listing of the one file `source`, if it names a user.
pub open spec fn listed_profile(listing: Seq<char>, source: Seq<char>) -> Option<ProfileModel> {
    let f = fields_of_lines(lines(listing));
    if names_user(f) {
        Some(profile_of(f, source))
    } else {
        None
    }
}

/// The records among `lines`, in order; a line that is no record is passed
/// over.
pub open spec fn records_of(lines: Seq<Seq<char>>) -> Seq<(Seq<char>, Seq<char>, Seq<char>)>
    decreases lines.len(),
{
    if lines.len() == 0 {
        Seq::empty()
    } else {
        match config_record(lines.last()) {
            Some(r) => records_of(lines.drop_last()).push(r),
            None => records_of(lines.drop_last()),
        }
    }
}

/// The files that the records come from, each once, in the order in which
/// they first appear.
pub open spec fn origins(records: Seq<(Seq<char>, Seq<char>, Seq<char>)>) -> Seq<Seq<char>>
    decreases records.len(),
{
    if records.len() == 0 {
        Seq::empty()
    } else {
        let before = origins(records.drop_last());
        if before.contains(records.last().0) {
            before
        } else {
            before.push(records.last().0)
        }
    }
}

/// The values that the records give for the file `source`: its records read
/// in order, each replacing what an earlier one set for the same key.
pub open spec fn fields_for(
    records: Seq<(Seq<char>, Seq<char>, Seq<char>)>,
    source: Seq<char>,
) -> FieldsModel
    decreases records.len(),
{
    if records.len() == 0 {
        no_fields()
    } else {
        let before = fields_for(records.drop_last(), source);
        if records.last().0 == source {
            applied(before, records.last().1, records.last().2)
        } else {
            before
        }
    }
}

/// The profiles of the files `sources`, in that order, without the files
/// whose values name no user.
pub open spec fn profiles_for(
    records: Seq<(Seq<char>, Seq<char>, Seq<char>)>,
    sources: Seq<Seq<char>>,
) -> Seq<ProfileModel>
    decreases sources.len(),
{
    if sources.len() == 0 {
        Seq::empty()
    } else {
        let before = profiles_for(records, sources.drop_last());
        let f = fields_for(records, sources.last());
        if names_user(f) {
            before.push(profile_of(f, sources.last()))
        } else {
            before
        }
    }
}

/// The profiles in a listing with origins: one for each file that names a
/// user, sorted by name, files of one name in the order of their first
/// lines.
pub open spec fn listed_profiles(output: Seq<char>) -> Seq<ProfileModel> {
    let records = records_of(lines(output));
    by_name(profiles_for(records, origins(records)))
}

/// The values that name a text setting can be read back by key.
pub open spec fn text_field(f: FieldsModel, key: Seq<char>) -> Option<Seq<char>> {
    if key == "user.name"@ {
        f.user_name
    } else if key == "user.email"@ {
        f.user_email
    } else if key == "user.signingkey"@ {
        f.signing_key
    } else if key == "gpg.format"@ {
        f.gpg_format
    } else {
        None
    }
}

/// The keys whose value is kept as text.
pub open spec fn is_text_key(key: Seq<char>) -> bool {
    key == "user.name"@ || key == "user.email"@ || key == "user.signingkey"@ || key
        == "gpg.format"@
}

/// The switches can be read back by key.
pub open spec fn switch_field(f: FieldsModel, key: Seq<char>) -> Option<bool> {
    if key == "commit.gpgsign"@ {
        f.gpg_sign
    } else if key == "tag.gpgsign"@ {
        f.tag_gpg_sign
    } else {
        None
    }
}

/// The keys whose value is a switch.
pub open spec fn is_switch_key(key: Seq<char>) -> bool {
    key == "commit.gpgsign"@ || key == "tag.gpgsign"@
}

/// The six keys are six different texts.
proof fn lemma_keys_differ()
    ensures
        "user.name"@ != "user.email"@,
        "user.name"@ != "user.signingkey"@,
        "user.name"@ != "commit.gpgsign"@,
        "user.name"@ != "gpg.format"@,
        "user.name"@ != "tag.gpgsign"@,
        "user.email"@ != "user.signingkey"@,
        "user.email"@ != "commit.gpgsign"@,
        "user.email"@ != "gpg.format"@,
        "user.email"@ != "tag.gpgsign"@,
        "user.signingkey"@ != "commit.gpgsign"@,
        "user.signingkey"@ != "gpg.format"@,
        "user.signingkey"@ != "tag.gpgsign"@,
        "commit.gpgsign"@ != "gpg.format"@,
        "commit.gpgsign"@ != "tag.gpgsign"@,
        "gpg.format"@ != "tag.gpgsign"@,
{
    reveal_strlit("user.name");
    reveal_strlit("user.email");
    reveal_strlit("user.signingkey");
    reveal_strlit("commit.gpgsign");
    reveal_strlit("gpg.format");
    reveal_strlit("tag.gpgsign");
    assert("user.name"@[5] == 'n');
    assert("user.email"@[5] == 'e');
    assert("user.signingkey"@[5] == 's');
    assert("commit.gpgsign"@[0] == 'c');
    assert("gpg.format"@[0] == 'g');
    assert("tag.gpgsign"@[0] == 't');
    assert("user.name"@[0] == 'u');
    assert("user.email"@[0] == 'u');
    assert("user.signingkey"@[0] == 'u');
}

/// The last value wins: where record `i` is the last one of its file with
/// its key, the file's values hold what that record says, whatever earlier
/// records said for the key.
pub proof fn law_last_value_wins(
    records: Seq<(Seq<char>, Seq<char>, Seq<char>)>,
    i: int,
)
    requires
        0 <= i < records.len(),
        forall|j: int|
            i < j < records.len() ==> !(#[trigger] records[j].0 == records[i].0 && records[j].1
                == records[i].1),
    ensures
        is_text_key(records[i].1) ==> text_field(fields_for(records, records[i].0), records[i].1)
            == Some(records[i].2),
        is_switch_key(records[i].1) ==> switch_field(
            fields_for(records, records[i].0),
            records[i].1,
        ) == flag_of(lowercase(records[i].2)),
    decreases records.len(),
{
    lemma_keys_differ();
    let source = records[i].0;
    let key = records[i].1;
    let front = records.drop_last();
    if i == records.len() - 1 {
    } else {
        assert(front[i] == records[i]);
        assert forall|j: int| i < j < front.len() implies !(#[trigger] front[j].0 == front[i].0
            && front[j].1 == front[i].1) by {
            assert(front[j] == records[j]);
        }
        law_last_value_wins(front, i);
        let last = records.last();
        assert(last == records[records.len() - 1]);
        assert(!(last.0 == source && last.1 == key));
    }
}

/// Accumulates git config key-value pairs into profile fields.
pub struct ProfileFields {
    pub user_name: Option<String>,
    pub user_email: Option<String>,
    pub signing_key: Option<String>,
    pub gpg_sign: Option<bool>,
    pub gpg_format: Option<String>,
    pub tag_gpg_sign: Option<bool>,
}

impl View for ProfileFields {
    type V = FieldsModel;

    open spec fn view(&self) -> FieldsModel {
        FieldsModel {
            user_name: opt_view(self.user_name),
            user_email: opt_view(self.user_email),
            signing_key: opt_view(self.signing_key),
            gpg_sign: self.gpg_sign,
            gpg_format: opt_view(self.gpg_format),
            tag_gpg_sign: self.tag_gpg_sign,
        }
    }
}

impl Default for ProfileFields {
    fn default() -> (r: ProfileFields)
        ensures
            r@ == no_fields(),
    {
        ProfileFields {
            user_name: None,
            user_email: None,
            signing_key: None,
            gpg_sign: None,
            gpg_format: None,
            tag_gpg_sign: None,
        }
    }
}

/// Parses a boolean value of git's that is in lower case already.
pub fn parse_lowered_bool(lowered: &str) -> (r: Option<bool>)
    ensures
        r == flag_of(lowered@),
{
    if same_text(lowered, "true") || same_text(lowered, "yes") || same_text(lowered, "on")
        || same_text(lowered, "1") {
        Some(true)
    } else if same_text(lowered, "false") || same_text(lowered, "no") || same_text(lowered, "off")
        || same_text(lowered, "0") {
        Some(false)
    } else {
        None
    }
}

/// Parses a git boolean value, whatever its case.
pub fn parse_bool(value: &str) -> (r: Option<bool>)
    ensures
        r == flag_of(lowercase(value@)),
{
    let lowered = to_lowercase(value);
    parse_lowered_bool(lowered.as_str())
}

/// Derives a profile name from a gitconfig file path.
pub fn derive_profile_name(path: &str) -> (r: String)
    ensures
        r@ == profile_name(path@),
{
    let p = chars_of(path);
    let base = match file_name_chars(&p) {
        Some(n) => n,
        None => chars_of("unknown"),
    };
    if same_chars(&base, &chars_of(".gitconfig")) || same_chars(&base, &chars_of("config")) {
        let local = match parent_name_chars(&p) {
            Some(parent) => same_chars(&parent, &chars_of(".git")),
            None => false,
        };
        if local {
            string_of(&chars_of("local"))
        } else {
            string_of(&chars_of("global"))
        }
    } else {
        let once = stripped_trailing(&base, &chars_of(".gitconfig"));
        let twice = stripped_trailing(&once, &chars_of(".git"));
        string_of(&twice)
    }
}

/// Parses a single line of the listing with origins, as characters.
fn parse_record(line: &Vec<char>) -> (r: Option<(Vec<char>, Vec<char>, Vec<char>)>)
    ensures
        match r {
            Some(t) => config_record(line@) == Some((t.0@, t.1@, t.2@)),
            None => config_record(line@) is None,
        },
{
    match split_once(line, '\t') {
        Some(pair) => match strip_prefix(&pair.0, "file:") {
            Some(path) => match split_once(&pair.1, '=') {
                Some(kv) => Some((path, kv.0, kv.1)),
                None => None,
            },
            None => None,
        },
        None => None,
    }
}

/// Parses a single line of git's listing with origins, of the form
/// `file:/path/to/file<TAB>key=value`, into the file, the key and the value.
pub fn parse_config_line(line: &str) -> (r: Option<(String, String, String)>)
    ensures
        match r {
            Some(t) => config_record(line@) == Some((t.0@, t.1@, t.2@)),
            None => config_record(line@) is None,
        },
{
    match parse_record(&chars_of(line)) {
        Some(t) => Some((string_of(&t.0), string_of(&t.1), string_of(&t.2))),
        None => None,
    }
}

impl ProfileFields {
    /// A copy of these values.
    pub fn copy(&self) -> (r: ProfileFields)
        ensures
            r@ == self@,
    {
        ProfileFields {
            user_name: copy_opt(&self.user_name),
            user_email: copy_opt(&self.user_email),
            signing_key: copy_opt(&self.signing_key),
            gpg_sign: self.gpg_sign,
            gpg_format: copy_opt(&self.gpg_format),
            tag_gpg_sign: self.tag_gpg_sign,
        }
    }

    /// Reads `key=value`: a known key replaces what was there.
    pub fn apply(&mut self, key: &str, value: String)
        ensures
            final(self)@ == applied(old(self)@, key@, value@),
    {
        if same_text(key, "user.name") {
            self.user_name = Some(value);
        } else if same_text(key, "user.email") {
            self.user_email = Some(value);
        } else if same_text(key, "user.signingkey") {
            self.signing_key = Some(value);
        } else if same_text(key, "commit.gpgsign") {
            self.gpg_sign = parse_bool(value.as_str());
        } else if same_text(key, "gpg.format") {
            self.gpg_format = Some(value);
        } else if same_text(key, "tag.gpgsign") {
            self.tag_gpg_sign = parse_bool(value.as_str());
        }
    }

    /// Whether a name or an e-mail address is set.
    pub fn has_user_config(&self) -> (r: bool)
        ensures
            r == names_user(self@),
    {
        self.user_name.is_some() || self.user_email.is_some()
    }

    /// The profile that these values make for the file `source`.
    pub fn into_profile(self, source: String) -> (r: Profile)
        ensures
            r@ == profile_of(self@, source@),
    {
        let name = derive_profile_name(source.as_str());
        Profile {
            name,
            source,
            user_name: self.user_name,
            user_email: self.user_email,
            signing_key: self.signing_key,
            gpg_sign: self.gpg_sign,
            gpg_format: self.gpg_format,
            tag_gpg_sign: self.tag_gpg_sign,
            is_default: false,
        }
    }
}

/// Parses git's listing of the one file `source` (`key=value` lines) into
/// the profile that it holds, if it names a user.
pub fn parse_gitconfig_listing(listing: &str, source: &str) -> (r: Option<Profile>)
    ensures
        match r {
            Some(p) => listed_profile(listing@, source@) == Some(p@),
            None => listed_profile(listing@, source@) is None,
        },
{
    let all = lines_of(&chars_of(listing));
    let mut fields = ProfileFields::default();
    let ghost wanted = lines(listing@);
    let mut i: usize = 0;
    assert(wanted.take(0) =~= Seq::<Seq<char>>::empty());
    while i < all.len()
        invariant
            i <= all.len(),
            views(all@) == wanted,
            fields@ == fields_of_lines(wanted.take(i as int)),
        decreases all.len() - i,
    {
        let ghost upto = wanted.take(i + 1);
        assert(upto.drop_last() =~= wanted.take(i as int));
        assert(upto.last() == all@[i as int]@);
        match split_once(&all[i], '=') {
            Some(kv) => {
                let key = string_of(&kv.0);
                fields.apply(key.as_str(), string_of(&kv.1));
            },
            None => {},
        }
        i += 1;
    }
    assert(wanted.take(all.len() as int) =~= wanted);
    if !fields.has_user_config() {
        return None;
    }
    Some(fields.into_profile(string_of(&chars_of(source))))
}

/// A file that no record comes from has no values.
proof fn lemma_unseen_origin(records: Seq<(Seq<char>, Seq<char>, Seq<char>)>, source: Seq<char>)
    requires
        !origins(records).contains(source),
    ensures
        fields_for(records, source) == no_fields(),
    decreases records.len(),
{
    if records.len() > 0 {
        let front = records.drop_last();
        let before = origins(front);
        if before.contains(records.last().0) {
        } else {
            assert(origins(records)[before.len() as int] == records.last().0);
            if before.contains(source) {
                let k = choose|k: int| 0 <= k < before.len() && before[k] == source;
                assert(origins(records)[k] == source);
            }
        }
        lemma_unseen_origin(front, source);
    }
}

/// Parses the output of `git config --list --show-origin` into the profiles
/// of the files that name a user, sorted by name.
pub fn parse_git_config_output(output: &str) -> (r: Vec<Profile>)
    ensures
        models(r@) == listed_profiles(output@),
{
    let all = lines_of(&chars_of(output));
    let ghost wanted = lines(output@);
    let mut sources: Vec<Vec<char>> = Vec::new();
    let mut gathered: Vec<ProfileFields> = Vec::new();
    let mut i: usize = 0;
    assert(wanted.take(0) =~= Seq::<Seq<char>>::empty());
    assert(views(sources@) =~= origins(records_of(wanted.take(0))));
    while i < all.len()
        invariant
            i <= all.len(),
            views(all@) == wanted,
            sources.len() == gathered.len(),
            views(sources@) == origins(records_of(wanted.take(i as int))),
            forall|a: int, b: int| 0 <= a < b < sources.len() ==> sources@[a]@ != sources@[b]@,
            forall|k: int|
                0 <= k < gathered.len() ==> (#[trigger] gathered@[k])@ == fields_for(
                    records_of(wanted.take(i as int)),
                    sources@[k]@,
                ),
        decreases all.len() - i,
    {
        let ghost upto = wanted.take(i + 1);
        let ghost records = records_of(wanted.take(i as int));
        assert(upto.drop_last() =~= wanted.take(i as int));
        assert(upto.last() == all@[i as int]@);
        match parse_record(&all[i]) {
            Some(rec) => {
                let ghost next = records.push((rec.0@, rec.1@, rec.2@));
                assert(records_of(upto) == next);
                assert(next.drop_last() =~= records);
                assert(next.last() == (rec.0@, rec.1@, rec.2@));
                let key = string_of(&rec.1);
                let value = string_of(&rec.2);
                match index_of_text(&sources, &rec.0) {
                    Some(j) => {
                        assert(views(sources@)[j as int] == rec.0@);
                        assert(origins(records).contains(rec.0@));
                        let mut f = gathered[j].copy();
                        f.apply(key.as_str(), value);
                        gathered.set(j, f);
                    },
                    None => {
                        assert(!origins(records).contains(rec.0@)) by {
                            if origins(records).contains(rec.0@) {
                                let k = choose|k: int|
                                    0 <= k < origins(records).len() && origins(records)[k]
                                        == rec.0@;
                                assert(views(sources@)[k] == sources@[k]@);
                            }
                        }
                        proof {
                            lemma_unseen_origin(records, rec.0@);
                        }
                        let mut f = ProfileFields::default();
                        f.apply(key.as_str(), value);
                        let ghost before = sources@;
                        sources.push(rec.0);
                        gathered.push(f);
                        assert(views(sources@) =~= views(before).push(rec.0@));
                    },
                }
            },
            None => {},
        }
        i += 1;
    }
    assert(wanted.take(all.len() as int) =~= wanted);
    let ghost records = records_of(wanted);
    let ghost files = views(sources@);
    let mut found: Vec<Profile> = Vec::new();
    let mut k: usize = 0;
    assert(files.take(0) =~= Seq::<Seq<char>>::empty());
    assert(models(found@) =~= profiles_for(records, files.take(0)));
    while k < sources.len()
        invariant
            k <= sources.len(),
            sources.len() == gathered.len(),
            files == views(sources@),
            forall|j: int|
                0 <= j < gathered.len() ==> (#[trigger] gathered@[j])@ == fields_for(
                    records,
                    sources@[j]@,
                ),
            models(found@) == profiles_for(records, files.take(k as int)),
        decreases sources.len() - k,
    {
        let ghost upto = files.take(k + 1);
        assert(upto.drop_last() =~= files.take(k as int));
        assert(upto.last() == sources@[k as int]@);
        if gathered[k].has_user_config() {
            let p = gathered[k].copy().into_profile(string_of(&sources[k]));
            let ghost before = found@;
            found.push(p);
            assert(models(found@) =~= models(before).push(p@));
        }
        k += 1;
    }
    assert(files.take(sources.len() as int) =~= files);
    sort_by_name(found)
}

/// Every profile made for a list of files names a user.
proof fn lemma_profiles_for_name_user(
    records: Seq<(Seq<char>, Seq<char>, Seq<char>)>,
    sources: Seq<Seq<char>>,
)
    ensures
        forall|i: int|
            0 <= i < profiles_for(records, sources).len() ==> (#[trigger] profiles_for(
                records,
                sources,
            )[i]).user_name is Some || profiles_for(records, sources)[i].user_email is Some,
    decreases sources.len(),
{
    if sources.len() > 0 {
        lemma_profiles_for_name_user(records, sources.drop_last());
        let before = profiles_for(records, sources.drop_last());
        let all = profiles_for(records, sources);
        assert forall|i: int| 0 <= i < all.len() implies (#[trigger] all[i]).user_name is Some
            || all[i].user_email is Some by {
            if i < before.len() {
                assert(all[i] == before[i]);
            }
        }
    }
}

/// A file without identity is no profile: every profile read from a
/// listing with origins has a user name or an e-mail address.
pub proof fn law_parsed_profiles_name_user(output: Seq<char>)
    ensures
        forall|i: int|
            0 <= i < listed_profiles(output).len() ==> (#[trigger] listed_profiles(
                output,
            )[i]).user_name is Some || listed_profiles(output)[i].user_email is Some,
{
    let records = records_of(lines(output));
    let found = profiles_for(records, origins(records));
    lemma_profiles_for_name_user(records, origins(records));
    crate::seqs::lemma_stable_order(names(found));
    let order = crate::seqs::stable_order(names(found));
    let all = listed_profiles(output);
    assert forall|i: int| 0 <= i < all.len() implies (#[trigger] all[i]).user_name is Some
        || all[i].user_email is Some by {
        assert(all[i] == found[order[i]]);
    }
}

/// The profile read from the listing of one file names a user.
pub proof fn law_listed_profile_names_user(listing: Seq<char>, source: Seq<char>)
    ensures
        listed_profile(listing, source) matches Some(p) ==> p.user_name is Some || p.user_email
            is Some,
{
}

} // verus!
