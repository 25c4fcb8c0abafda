//! Recognising clock entries in the lines of a log.
//!
//! The matching itself is done by the `regex` crate, with the pattern
//! [`ENTRY_PATTERN`].  What that pattern finds in a line is the first entry of
//! the line, as [`entry_in`] states it character by character.

use crate::shape::{entry_in, EntryText};
use regex::Regex;
use vstd::prelude::*;

verus! {

/// The shape of a clock entry: `[<start>]--[<end>] => <H:MM>`.
pub const ENTRY_PATTERN: &'static str =
    r"\[(?P<start_datetime>[^\[\]]+)\]--\[(?P<end_datetime>[^\[\]]+)\]\s+=>\s+(?P<duration>\d+:\d{2})";

/// Name of the group that holds the start timestamp.
pub const START_GROUP: &'static str = "start_datetime";

/// Name of the group that holds the end timestamp.
pub const END_GROUP: &'static str = "end_datetime";

/// Name of the group that holds the claimed duration.
pub const DURATION_GROUP: &'static str = "duration";

/// A compiled regex of the `regex` crate.  Nothing inside it is visible
/// here.
#[verifier::external_type_specification]
#[verifier::external_body]
pub struct ExRegex(regex::Regex);

/// The error with which the `regex` crate refuses a pattern.
#[verifier::external_type_specification]
#[verifier::external_body]
pub struct ExRegexError(regex::Error);

/// The entry pattern was refused by the regex compiler.
#[derive(Clone, Copy, Debug, PartialEq, Eq)]
pub struct PatternError {}

/// A text that settles how a compiled regex matches.  For a regex that
/// `Regex::new` made it is the pattern it was made from.
pub uninterp spec fn regex_source(re: Regex) -> Seq<char>;

/// The text of the group called `name` of an entry: of one of the three
/// groups of [`ENTRY_PATTERN`].  There is none where there is no entry, and
/// none under any other name.
pub open spec fn group_text(entry: Option<EntryText>, name: Seq<char>) -> Option<Seq<char>> {
    match entry {
        None => None,
        Some(text) => if name == START_GROUP@ {
            Some(text.start)
        } else if name == END_GROUP@ {
            Some(text.end)
        } else if name == DURATION_GROUP@ {
            Some(text.duration)
        } else {
            None
        },
    }
}

/// The three groups hold the three texts of an entry.
pub proof fn lemma_group_texts(text: EntryText)
    ensures
        group_text(Some(text), START_GROUP@) == Some(text.start),
        group_text(Some(text), END_GROUP@) == Some(text.end),
        group_text(Some(text), DURATION_GROUP@) == Some(text.duration),
{
    reveal_strlit("start_datetime");
    reveal_strlit("end_datetime");
    reveal_strlit("duration");
    assert(START_GROUP@[0] == 's');
    assert(END_GROUP@[0] == 'e');
    assert(DURATION_GROUP@[0] == 'd');
}

/// `Regex::new`: a regex that compiles keeps the pattern text it was given.
/// [`ENTRY_PATTERN`] compiles: it is well formed, and what it compiles to is
/// far smaller than the compiler allows, on every machine.  Nothing is
/// claimed about which other patterns compile.
pub assume_specification[ Regex::new ](re: &str) -> (r: Result<Regex, regex::Error>)
    ensures
        r matches Ok(compiled) ==> regex_source(compiled) == re@,
        re@ == ENTRY_PATTERN@ ==> r is Ok,
;

/// `Regex::is_match`: whether there is a match anywhere in the text.  For a
/// regex made from [`ENTRY_PATTERN`] a match is an entry: the pattern asks for
/// `[`, one or more characters other than brackets, `]--[`, the same again,
/// `]`, white space, `=>`, white space, digits, a colon and two digits, and
/// the regex crate reads white space (`\s`) and digits (`\d`) as those of
/// Unicode.
pub assume_specification[ Regex::is_match ](re: &Regex, haystack: &str) -> (r: bool)
    ensures
        regex_source(*re) == ENTRY_PATTERN@ ==> r == (entry_in(haystack@) is Some),
;

/// `Regex::captures` followed by `Captures::name`: the text of the named
/// group in the first match, as a slice of `text`.  For a regex made from
/// [`ENTRY_PATTERN`] the first match is the first entry of the text: the
/// search takes the leftmost place at which the pattern matches, and at one
/// place the pattern can match in one way only, since each of its stretches
/// ends at a character that the stretch cannot hold.
#[verifier::external_body]
fn capture_name<'t>(re: &'t Regex, text: &'t str, name: &str) -> (r: Option<&'t str>)
    ensures
        regex_source(*re) == ENTRY_PATTERN@ ==> match r {
            Some(found) => group_text(entry_in(text@), name@) == Some(found@),
            None => group_text(entry_in(text@), name@) is None,
        },
{
    match re.captures(text) {
        Some(caps) => match caps.name(name) {
            Some(cap) => Some(cap.as_str()),
            None => None,
        },
        None => None,
    }
}

/// A compiled matcher for clock entries.
pub struct EntryMatcher {
    re: Regex,
}

impl EntryMatcher {
    #[verifier::type_invariant]
    spec fn built_from_entry_pattern(&self) -> bool {
        regex_source(self.re) == ENTRY_PATTERN@
    }

    /// The pattern that the matcher was compiled from.
    pub closed spec fn source(&self) -> Seq<char> {
        regex_source(self.re)
    }

    /// Compiles [`ENTRY_PATTERN`].  The regex compiler accepts that pattern,
    /// so there is always a matcher, and it is one for that pattern.
    pub fn new() -> (r: Result<EntryMatcher, PatternError>)
        ensures
            r matches Ok(matcher) && matcher.source() == ENTRY_PATTERN@,
    {
        match Regex::new(ENTRY_PATTERN) {
            Ok(re) => Ok(EntryMatcher { re }),
            Err(_) => Err(PatternError {  }),
        }
    }

    /// Whether `line` holds a clock entry.
    pub fn is_entry(&self, line: &str) -> (r: bool)
        ensures
            r == (entry_in(line@) is Some),
    {
        proof {
            use_type_invariant(self);
        }
        self.re.is_match(line)
    }

    /// The text of the group `name` in the first entry of `line`.
    pub fn field<'t>(&'t self, line: &'t str, name: &str) -> (r: Option<&'t str>)
        ensures
            match r {
                Some(found) => group_text(entry_in(line@), name@) == Some(found@),
                None => group_text(entry_in(line@), name@) is None,
            },
    {
        proof {
            use_type_invariant(self);
        }
        capture_name(&self.re, line, name)
    }
}

} // verus!
