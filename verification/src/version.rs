//! The version triple: reading it from text, bumping it, writing it back.

use crate::pattern::{captures, regex_captures};
use crate::text::{chars_of, same_text};
use vstd::prelude::*;
use vstd::string::StringExecFns;

verus! {

/// A `major.minor.patch` version.
#[derive(Clone, Copy, Debug, PartialEq, Eq)]
pub struct Version {
    major: u64,
    minor: u64,
    patch: u64,
}

/// The three numbers of a version, as mathematical integers.
pub struct Triple {
    pub major: nat,
    pub minor: nat,
    pub patch: nat,
}

/// How a version is to be changed.
pub enum Query {
    /// Replace the whole version by this one.
    Version(Version),
    /// Next major version: minor and patch start again at zero.
    Major,
    /// Next minor version: patch starts again at zero.
    Minor,
    /// Next patch version.
    Patch,
}

/// The regular expression a version is recognised by.
pub const VERSION_PATTERN: &'static str = r"^(\d+)\.(\d+)\.(\d+)$";

/// The message of every failure to read a version.
pub const INVALID_FORMAT: &'static str = "Invalid version format";

pub open spec fn is_digit(c: char) -> bool {
    '0' <= c <= '9'
}

pub open spec fn digit_value(c: char) -> nat {
    (c as int - '0' as int) as nat
}

pub open spec fn digit_char(d: nat) -> char {
    (d + '0' as nat) as char
}

/// A non-empty run of ASCII digits.
pub open spec fn is_number(text: Seq<char>) -> bool {
    text.len() > 0 && forall|i: int| 0 <= i < text.len() ==> is_digit(#[trigger] text[i])
}

/// The number that a run of digits writes in base ten.
pub open spec fn decimal_value(digits: Seq<char>) -> nat
    decreases digits.len(),
{
    if digits.len() == 0 {
        0
    } else {
        10 * decimal_value(digits.drop_last()) + digit_value(digits.last())
    }
}

/// A number in base ten, without leading zeros.
pub open spec fn decimal_text(n: nat) -> Seq<char>
    decreases n,
{
    if n < 10 {
        seq![digit_char(n)]
    } else {
        decimal_text(n / 10).push(digit_char(n % 10))
    }
}

/// One component of a version: a run of ASCII digits whose value fits 64
/// bits. Leading zeros are accepted.
pub open spec fn component(text: Seq<char>) -> Option<nat> {
    if is_number(text) && decimal_value(text) <= u64::MAX {
        Some(decimal_value(text))
    } else {
        None
    }
}

/// The version that the capture groups of [`VERSION_PATTERN`] spell: group 0
/// is the whole match, groups 1 to 3 the three components.
pub open spec fn triple_of_groups(groups: Seq<Option<Seq<char>>>) -> Option<Triple> {
    if groups.len() == 4 && groups[1] is Some && groups[2] is Some && groups[3] is Some {
        match (
            component(groups[1].unwrap()),
            component(groups[2].unwrap()),
            component(groups[3].unwrap()),
        ) {
            (Some(major), Some(minor), Some(patch)) => Some(Triple { major, minor, patch }),
            _ => None,
        }
    } else {
        None
    }
}

/// The version that `text` spells, if it spells one.
pub open spec fn triple_of_text(text: Seq<char>) -> Option<Triple> {
    match regex_captures(VERSION_PATTERN@, text) {
        Some(groups) => triple_of_groups(groups),
        None => None,
    }
}

/// The canonical text of a version.
pub open spec fn text_of_triple(t: Triple) -> Seq<char> {
    decimal_text(t.major) + seq!['.'] + decimal_text(t.minor) + seq!['.'] + decimal_text(t.patch)
}

/// The version after a bump. Bumping a component resets the lower ones.
pub open spec fn bumped(t: Triple, query: Query) -> Triple {
    match query {
        Query::Version(v) => v@,
        Query::Major => Triple { major: t.major + 1, minor: 0, patch: 0 },
        Query::Minor => Triple { major: t.major, minor: t.minor + 1, patch: 0 },
        Query::Patch => Triple { major: t.major, minor: t.minor, patch: t.patch + 1 },
    }
}

/// Whether the bump stays within 64 bits.
pub open spec fn bump_fits(t: Triple, query: Query) -> bool {
    match query {
        Query::Version(_) => true,
        Query::Major => t.major < u64::MAX,
        Query::Minor => t.minor < u64::MAX,
        Query::Patch => t.patch < u64::MAX,
    }
}

/// Whether `arg` is one of the three words that name a bump.
pub open spec fn is_bump_word(arg: Seq<char>) -> bool {
    arg == "major"@ || arg == "minor"@ || arg == "patch"@
}

/// Whether `arg` may be given as the bump to make: one of the three words,
/// or a text that spells a version.
pub open spec fn is_bump_arg(arg: Seq<char>) -> bool {
    is_bump_word(arg) || triple_of_text(arg) is Some
}

/// Checks the bump given on the command line, before anything is read: it
/// passes exactly what [`Query::from_arg`] can read.
pub fn validate_query(arg: String) -> (r: Result<(), String>)
    ensures
        if is_bump_arg(arg@) {
            r is Ok
        } else {
            r matches Err(e) && e@ == INVALID_FORMAT@
        },
{
    let word = arg.as_str();
    if same_text(word, "minor") || same_text(word, "major") || same_text(word, "patch") {
        Ok(())
    } else {
        match Version::from_str(word) {
            Ok(_) => Ok(()),
            Err(e) => Err(e),
        }
    }
}

impl Query {
    /// The bump that the command line asks for: `patch` where it names
    /// none, the bump that a word names, or else the version that the
    /// argument spells.
    pub fn from_arg(arg: Option<&str>) -> (r: Result<Query, String>)
        ensures
            match arg {
                None => r matches Ok(Query::Patch),
                Some(word) => if word@ == "major"@ {
                    r matches Ok(Query::Major)
                } else if word@ == "minor"@ {
                    r matches Ok(Query::Minor)
                } else if word@ == "patch"@ {
                    r matches Ok(Query::Patch)
                } else {
                    match triple_of_text(word@) {
                        Some(t) => r matches Ok(Query::Version(v)) && v@ == t,
                        None => r matches Err(e) && e@ == INVALID_FORMAT@,
                    }
                },
            },
    {
        match arg {
            None => Ok(Query::Patch),
            Some(word) => {
                if same_text(word, "major") {
                    Ok(Query::Major)
                } else if same_text(word, "minor") {
                    Ok(Query::Minor)
                } else if same_text(word, "patch") {
                    Ok(Query::Patch)
                } else {
                    match Version::from_str(word) {
                        Ok(version) => Ok(Query::Version(version)),
                        Err(e) => Err(e),
                    }
                }
            },
        }
    }
}

impl View for Version {
    type V = Triple;

    closed spec fn view(&self) -> Triple {
        Triple { major: self.major as nat, minor: self.minor as nat, patch: self.patch as nat }
    }
}

fn is_ascii_digit(c: char) -> (r: bool)
    ensures
        r == is_digit(c),
{
    '0' <= c && c <= '9'
}

fn char_of_digit(d: u64) -> (c: char)
    requires
        d < 10,
    ensures
        c == digit_char(d as nat),
{
    match d {
        0 => '0',
        1 => '1',
        2 => '2',
        3 => '3',
        4 => '4',
        5 => '5',
        6 => '6',
        7 => '7',
        8 => '8',
        _ => '9',
    }
}

/// Reads one component of a version.
pub fn read_component(text: &str) -> (r: Option<u64>)
    ensures
        match component(text@) {
            Some(n) => r == Some(n as u64),
            None => r is None,
        },
{
    let digits = chars_of(text);
    if digits.len() == 0 {
        return None;
    }
    let mut value: u128 = 0;
    let mut fits = true;
    let mut i: usize = 0;
    while i < digits.len()
        invariant
            i <= digits.len(),
            digits@ == text@,
            forall|j: int| 0 <= j < i ==> is_digit(#[trigger] digits@[j]),
            fits ==> value == decimal_value(digits@.take(i as int)) && value <= u64::MAX,
            !fits ==> decimal_value(digits@.take(i as int)) > u64::MAX,
        decreases digits.len() - i,
    {
        let c = digits[i];
        if !is_ascii_digit(c) {
            return None;
        }
        proof {
            let next = digits@.take(i + 1);
            assert(next.drop_last() == digits@.take(i as int));
            assert(next.last() == c);
        }
        if fits {
            let d: u32 = c as u32 - '0' as u32;
            value = value * 10 + d as u128;
            if value > u64::MAX as u128 {
                fits = false;
            }
        }
        i += 1;
    }
    assert(digits@.take(i as int) == digits@);
    if fits {
        Some(value as u64)
    } else {
        None
    }
}

/// Appends `n` in base ten.
fn push_decimal(text: &mut String, n: u64)
    ensures
        final(text)@ == old(text)@ + decimal_text(n as nat),
    decreases n,
{
    if n >= 10 {
        push_decimal(text, n / 10);
    }
    text.push(char_of_digit(n % 10));
}

impl Version {
    /// Builds the version out of the capture groups of [`VERSION_PATTERN`].
    pub fn from_captures(groups: &Vec<Option<String>>) -> (r: Result<Version, String>)
        ensures
            match triple_of_groups(groups.deep_view()) {
                Some(t) => r matches Ok(v) && v@ == t,
                None => r matches Err(e) && e@ == INVALID_FORMAT@,
            },
    {
        if groups.len() != 4 {
            return Err(String::from_str(INVALID_FORMAT));
        }
        match (&groups[1], &groups[2], &groups[3]) {
            (Some(a), Some(b), Some(c)) => {
                match (
                    read_component(a.as_str()),
                    read_component(b.as_str()),
                    read_component(c.as_str()),
                ) {
                    (Some(major), Some(minor), Some(patch)) => Ok(Version { major, minor, patch }),
                    _ => Err(String::from_str(INVALID_FORMAT)),
                }
            },
            _ => Err(String::from_str(INVALID_FORMAT)),
        }
    }

    /// Reads a version written as three runs of digits separated by dots,
    /// with nothing before, between or after them. A component that does
    /// not fit 64 bits, or that is written in other digits than `0` to `9`,
    /// is refused like any other text that spells no version.
    pub fn from_str(version: &str) -> (r: Result<Version, String>)
        ensures
            match triple_of_text(version@) {
                Some(t) => r matches Ok(v) && v@ == t,
                None => r matches Err(e) && e@ == INVALID_FORMAT@,
            },
    {
        match captures(VERSION_PATTERN, version) {
            Some(groups) => Version::from_captures(&groups),
            None => Err(String::from_str(INVALID_FORMAT)),
        }
    }

    /// Whether [`Version::bump`] may be called with `query`.
    pub fn can_bump(&self, query: &Query) -> (r: bool)
        ensures
            r == bump_fits(self@, *query),
    {
        match query {
            Query::Version(_) => true,
            Query::Major => self.major < u64::MAX,
            Query::Minor => self.minor < u64::MAX,
            Query::Patch => self.patch < u64::MAX,
        }
    }

    /// Changes the version as `query` says.
    pub fn bump(&mut self, query: Query)
        requires
            bump_fits(old(self)@, query),
        ensures
            final(self)@ == bumped(old(self)@, query),
    {
        match query {
            Query::Major => {
                self.major += 1;
                self.minor = 0;
                self.patch = 0;
            },
            Query::Minor => {
                self.minor += 1;
                self.patch = 0;
            },
            Query::Patch => self.patch += 1,
            Query::Version(v) => {
                *self = v;
            },
        }
    }

    /// The canonical text: the three numbers in base ten, joined by dots.
    pub fn to_string(&self) -> (text: String)
        ensures
            text@ == text_of_triple(self@),
    {
        let mut text = String::new();
        push_decimal(&mut text, self.major);
        text.push('.');
        push_decimal(&mut text, self.minor);
        text.push('.');
        push_decimal(&mut text, self.patch);
        text
    }
}

/// Writing a number and reading it back gives the number.
pub proof fn lemma_decimal_round_trip(n: nat)
    ensures
        is_number(decimal_text(n)),
        decimal_value(decimal_text(n)) == n,
    decreases n,
{
    if n < 10 {
        let text = decimal_text(n);
        assert(text.len() == 1 && text[0] == digit_char(n));
        assert(decimal_value(text.drop_last()) == 0);
    } else {
        lemma_decimal_round_trip(n / 10);
        let head = decimal_text(n / 10);
        let text = decimal_text(n);
        assert(text.drop_last() == head);
        assert(text.last() == digit_char(n % 10));
        assert forall|i: int| 0 <= i < text.len() implies is_digit(#[trigger] text[i]) by {
            if i < head.len() {
                assert(text[i] == head[i]);
            }
        }
    }
}

/// The capture groups that the canonical text of a version has spell that
/// version again.
pub proof fn law_canonical_text_reads_back(v: Version, whole: Option<Seq<char>>)
    ensures
        triple_of_groups(
            seq![
                whole,
                Some(decimal_text(v@.major)),
                Some(decimal_text(v@.minor)),
                Some(decimal_text(v@.patch)),
            ],
        ) == Some(v@),
{
    lemma_decimal_round_trip(v@.major);
    lemma_decimal_round_trip(v@.minor);
    lemma_decimal_round_trip(v@.patch);
}

} // verus!
