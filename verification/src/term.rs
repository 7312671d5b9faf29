//! What the terminal layer decides without touching a terminal: the help
//! lines of menus, the filter of a long selection list, when a menu line is
//! cleared, and how long ago something happened.

use vstd::prelude::*;
use crate::text::{
    append, append_str, chars_of, contains, contains_text, decimal, decimal_of, lowercase,
    same_text, string_of, texts, to_lowercase,
};

verus! {

/// Says that a command has printed what it had to say and wants the program
/// to end with this exit code, without a further message.
#[derive(Debug)]
pub struct SilentExit(pub i32);

/// `i` written in decimal, with a minus sign where it is negative.
pub open spec fn signed_decimal(i: int) -> Seq<char> {
    if i < 0 {
        "-"@ + decimal((-i) as nat)
    } else {
        decimal(i as nat)
    }
}

impl SilentExit {
    /// How the exit reads: `exit` and the code.
    pub fn message(&self) -> (r: String)
        ensures
            r@ == "exit "@ + signed_decimal(self.0 as int),
    {
        let mut v: Vec<char> = Vec::new();
        append_str(&mut v, "exit ");
        let code: i64 = self.0 as i64;
        if code < 0 {
            append_str(&mut v, "-");
            append(&mut v, &decimal_of((-code) as u64));
        } else {
            append(&mut v, &decimal_of(code as u64));
        }
        assert(v@ =~= "exit "@ + signed_decimal(self.0 as int));
        string_of(&v)
    }
}

/// Menu hierarchy level for contextual help messages.
#[derive(Debug, Clone, Copy, PartialEq, Eq)]
pub enum MenuLevel {
    /// Top-level menu (esc quits the application).
    Top,
    /// Sub-level menu or prompt (esc cancels and returns to the parent).
    Sub,
}

/// The help line of a menu at this level.
pub open spec fn help_text(level: MenuLevel) -> Seq<char> {
    match level {
        MenuLevel::Top => "esc to quit"@,
        MenuLevel::Sub => "esc to cancel"@,
    }
}

/// The help line of a menu with a filter at this level.
pub open spec fn filter_help_text(level: MenuLevel) -> Seq<char> {
    match level {
        MenuLevel::Top => "type to filter \u{2014} esc to quit"@,
        MenuLevel::Sub => "type to filter \u{2014} esc to cancel"@,
    }
}

/// A selection list that can be narrowed by typing: the question, the
/// options, and the help line below them.
#[derive(Debug)]
pub struct FilterableSelect<'a> {
    pub message: &'a str,
    pub options: Vec<String>,
    pub help: &'a str,
}

/// The text shown in place of the options when the filter leaves none.
pub const NO_MATCHES_TEXT: &'static str = "(no matches)";

/// Some option holds `input`, case ignored.
pub open spec fn some_option_holds(options: Seq<Seq<char>>, input: Seq<char>) -> bool {
    exists|i: int|
        0 <= i < options.len() && contains_text(lowercase(#[trigger] options[i]), lowercase(input))
}

/// Whether a line of the list is shown for what was typed, as the score
/// that shows it (`Some`) or hides it (`None`). An option is shown if it
/// holds the input, case ignored. The placeholder is shown if something was
/// typed and no option holds it.
pub open spec fn filter_score(
    options: Seq<Seq<char>>,
    placeholder: Seq<char>,
    input: Seq<char>,
    line: Seq<char>,
) -> Option<i64> {
    if line == placeholder {
        if input.len() == 0 || some_option_holds(options, input) {
            None
        } else {
            Some(0i64)
        }
    } else if contains_text(lowercase(line), lowercase(input)) {
        Some(0i64)
    } else {
        None
    }
}

impl MenuLevel {
    /// Returns the appropriate help message for this menu level.
    pub fn help(&self) -> (r: &'static str)
        ensures
            r@ == help_text(*self),
    {
        match self {
            MenuLevel::Top => "esc to quit",
            MenuLevel::Sub => "esc to cancel",
        }
    }

    /// Returns the help message for filterable menus.
    pub fn help_filterable(&self) -> (r: &'static str)
        ensures
            r@ == filter_help_text(*self),
    {
        match self {
            MenuLevel::Top => "type to filter \u{2014} esc to quit",
            MenuLevel::Sub => "type to filter \u{2014} esc to cancel",
        }
    }

    /// Returns the help message with additional context prepended.
    pub fn help_with(&self, prefix: &str) -> (r: String)
        ensures
            r@ == prefix@ + " \u{2014} "@ + help_text(*self),
    {
        let mut v: Vec<char> = Vec::new();
        append_str(&mut v, prefix);
        append_str(&mut v, " \u{2014} ");
        append_str(&mut v, self.help());
        assert(v@ =~= prefix@ + " \u{2014} "@ + help_text(*self));
        string_of(&v)
    }

    /// Creates a selection list with filtering enabled (for long lists).
    pub fn select_filterable<'a>(&self, message: &'a str, options: Vec<String>) -> (r:
        FilterableSelect<'a>)
        ensures
            r.message@ == message@,
            r.options == options,
            r.help@ == filter_help_text(*self),
    {
        FilterableSelect::new(message, options, self.help_filterable())
    }
}

impl<'a> FilterableSelect<'a> {
    /// A selection list with this question, these options and this help
    /// line.
    pub fn new(message: &'a str, options: Vec<String>, help: &'a str) -> (r: FilterableSelect<'a>)
        ensures
            r.message@ == message@,
            r.options == options,
            r.help@ == help@,
    {
        FilterableSelect { message, options, help }
    }

    /// The score of the line `line` of the list for the typed `input`, when
    /// the lowercase forms are at hand: `lowered_options` are the options,
    /// `lowered_input` the input and `lowered_line` the line in lower case.
    pub fn score_lowered(
        lowered_options: &Vec<String>,
        is_placeholder: bool,
        input_is_empty: bool,
        lowered_input: &str,
        lowered_line: &str,
    ) -> (r: Option<i64>)
        ensures
            r == if is_placeholder {
                if input_is_empty || exists|i: int|
                    0 <= i < lowered_options.len() && contains_text(
                        #[trigger] lowered_options@[i]@,
                        lowered_input@,
                    ) {
                    None
                } else {
                    Some(0i64)
                }
            } else if contains_text(lowered_line@, lowered_input@) {
                Some(0i64)
            } else {
                None
            },
    {
        let needle = chars_of(lowered_input);
        if is_placeholder {
            if input_is_empty {
                return None;
            }
            let mut i: usize = 0;
            while i < lowered_options.len()
                invariant
                    i <= lowered_options.len(),
                    needle@ == lowered_input@,
                    is_placeholder,
                    !input_is_empty,
                    forall|j: int|
                        0 <= j < i ==> !contains_text(
                            #[trigger] lowered_options@[j]@,
                            lowered_input@,
                        ),
                decreases lowered_options.len() - i,
            {
                if contains(&chars_of(lowered_options[i].as_str()), &needle) {
                    assert(contains_text(lowered_options@[i as int]@, lowered_input@));
                    return None;
                }
                i += 1;
            }
            Some(0)
        } else if contains(&chars_of(lowered_line), &needle) {
            Some(0)
        } else {
            None
        }
    }

    /// The score of the line `line` of the list for the typed `input`:
    /// `Some` shows the line and `None` hides it. `placeholder` is the line
    /// that stands for "no matches".
    pub fn score(&self, placeholder: &str, input: &str, line: &str) -> (r: Option<i64>)
        ensures
            r == filter_score(texts(self.options@), placeholder@, input@, line@),
    {
        let mut lowered: Vec<String> = Vec::new();
        let mut i: usize = 0;
        while i < self.options.len()
            invariant
                i <= self.options.len(),
                lowered.len() == i,
                forall|j: int| 0 <= j < i ==> lowered@[j]@ == lowercase(self.options@[j]@),
            decreases self.options.len() - i,
        {
            lowered.push(to_lowercase(self.options[i].as_str()));
            i += 1;
        }
        let is_placeholder = same_text(line, placeholder);
        let input_is_empty = chars_of(input).len() == 0;
        let r = Self::score_lowered(
            &lowered,
            is_placeholder,
            input_is_empty,
            to_lowercase(input).as_str(),
            to_lowercase(line).as_str(),
        );
        proof {
            let options = texts(self.options@);
            if some_option_holds(options, input@) {
                let k = choose|k: int|
                    0 <= k < options.len() && contains_text(
                        lowercase(#[trigger] options[k]),
                        lowercase(input@),
                    );
                assert(contains_text(lowered@[k]@, lowercase(input@)));
            }
            if exists|k: int|
                0 <= k < lowered.len() && contains_text(#[trigger] lowered@[k]@, lowercase(input@)) {
                let k = choose|k: int|
                    0 <= k < lowered.len() && contains_text(
                        #[trigger] lowered@[k]@,
                        lowercase(input@),
                    );
                assert(contains_text(lowercase(options[k]), lowercase(input@)));
            }
        }
        r
    }

    /// Whether the answer is the placeholder, so that the list is to be
    /// shown again.
    pub fn asks_again(answer: &str, placeholder: &str) -> (r: bool)
        ensures
            r == (answer@ == placeholder@),
    {
        same_text(answer, placeholder)
    }
}

/// Keeps track of a menu that is shown again and again: whether the line of
/// the menu before is to be cleared when the menu comes up the next time.
#[derive(Debug)]
pub struct MenuSession {
    pub started: bool,
    pub skip_next_clear: bool,
}

impl MenuSession {
    /// A session in which no menu has been shown yet.
    pub fn new() -> (r: MenuSession)
        ensures
            !r.started,
            !r.skip_next_clear,
    {
        MenuSession { started: false, skip_next_clear: false }
    }

    /// Call before showing each menu prompt. Says whether the line of the
    /// previous menu is to be cleared: it is, unless this is the first menu
    /// or output was printed since the last one.
    pub fn prepare(&mut self) -> (clear: bool)
        ensures
            clear == (old(self).started && !old(self).skip_next_clear),
            final(self).started,
            !final(self).skip_next_clear,
    {
        let clear = self.started && !self.skip_next_clear;
        self.started = true;
        self.skip_next_clear = false;
        clear
    }

    /// Call after an action that prints output to the terminal, so that the
    /// next `prepare` leaves that output alone.
    pub fn printed_output(&mut self)
        ensures
            final(self).started == old(self).started,
            final(self).skip_next_clear,
    {
        self.skip_next_clear = true;
    }
}

/// A count with its unit, and `ago`: the unit in the plural unless the
/// count is one.
pub open spec fn ago_text(count: nat, unit: Seq<char>) -> Seq<char> {
    decimal(count) + " "@ + unit + (if count == 1 {
        ""@
    } else {
        "s"@
    }) + " ago"@
}

/// How long ago something happened, for a number of elapsed seconds: under
/// a minute it was just now, under an hour it is told in minutes, under a
/// day in hours, and beyond that in days. With no elapsed time at hand (the
/// moment lies in the future) it was just now as well.
pub open spec fn elapsed_text(elapsed: Option<u64>) -> Seq<char> {
    match elapsed {
        None => "just now"@,
        Some(secs) => if secs < 60 {
            "just now"@
        } else if secs / 60 < 60 {
            ago_text((secs / 60) as nat, "minute"@)
        } else if secs / 60 / 60 < 24 {
            ago_text((secs / 60 / 60) as nat, "hour"@)
        } else {
            ago_text((secs / 60 / 60 / 24) as nat, "day"@)
        },
    }
}

/// A count with its unit, and `ago`.
fn ago(count: u64, unit: &str) -> (r: Vec<char>)
    ensures
        r@ == ago_text(count as nat, unit@),
{
    let mut v: Vec<char> = Vec::new();
    append(&mut v, &decimal_of(count));
    append_str(&mut v, " ");
    append_str(&mut v, unit);
    if count == 1 {
        append_str(&mut v, "");
    } else {
        append_str(&mut v, "s");
    }
    append_str(&mut v, " ago");
    assert(v@ =~= ago_text(count as nat, unit@));
    v
}

/// Formats an elapsed time as a human-readable duration (`3 hours ago`).
/// `elapsed` is the number of seconds since the moment, or nothing if the
/// moment lies in the future.
pub fn format_elapsed(elapsed: Option<u64>) -> (r: String)
    ensures
        r@ == elapsed_text(elapsed),
{
    let secs = match elapsed {
        Some(s) => s,
        None => {
            return string_of(&chars_of("just now"));
        },
    };
    if secs < 60 {
        return string_of(&chars_of("just now"));
    }
    let mins = secs / 60;
    if mins < 60 {
        return string_of(&ago(mins, "minute"));
    }
    let hours = mins / 60;
    if hours < 24 {
        return string_of(&ago(hours, "hour"));
    }
    let days = hours / 24;
    string_of(&ago(days, "day"))
}

} // verus!
