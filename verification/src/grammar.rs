//! The shape of a document, as mathematics: where each value ends, which
//! failure stops the walk, and where the one version literal sits.
//!
//! A document is a sequence of characters and a place in it is an index.
//! Every function here starts at an index and says how far the walker gets.

use crate::version::{triple_of_text, Triple};
use vstd::prelude::*;

verus! {

/// Why a walk stopped.
pub enum Failure {
    /// A character that may not stand where it was met.
    UnexpectedChar(char),
    /// The document ended inside a string, an object, an array or an entry.
    UnexpectedEnd,
    /// A top-level `"version"` whose value spells no version; the value is
    /// given as it was written.
    InvalidVersion(Seq<char>),
    /// A second top-level `"version"`.
    DuplicateVersion,
}

/// The place of the version literal: the value of the top-level `"version"`
/// entry spans `start..end`, quotes included, and spells `version`.
pub struct Site {
    pub start: int,
    pub end: int,
    pub version: Triple,
}

/// How a walk ended: at `end`, having met the version literal at `site` or
/// none at all; or with a failure.
pub enum Walked {
    Done { end: int, site: Option<Site> },
    Failed(Failure),
}

pub open spec fn is_whitespace(c: char) -> bool {
    c == ' ' || c == '\t' || c == '\n' || c == '\r'
}

/// The characters a number, `true`, `false` or `null` is made of.
pub open spec fn is_token_char(c: char) -> bool {
    ('0' <= c <= '9') || ('a' <= c <= 'z') || c == 'E' || c == '.' || c == '-' || c == '+'
}

/// The characters a token may start with: every token character but `E`.
pub open spec fn is_token_start(c: char) -> bool {
    ('0' <= c <= '9') || ('a' <= c <= 'z') || c == '.' || c == '-' || c == '+'
}

/// The characters that may follow a token.
pub open spec fn is_terminator(c: char) -> bool {
    c == ']' || c == ',' || c == '}' || is_whitespace(c)
}

/// The key whose value is the version.
pub open spec fn version_key() -> Seq<char> {
    seq!['v', 'e', 'r', 's', 'i', 'o', 'n']
}

/// `text` between double quotes.
pub open spec fn quoted(text: Seq<char>) -> Seq<char> {
    seq!['"'] + text + seq!['"']
}

/// `text` without the double quotes at its end.
pub open spec fn trim_end_quotes(text: Seq<char>) -> Seq<char>
    decreases text.len(),
{
    if text.len() > 0 && text.last() == '"' {
        trim_end_quotes(text.drop_last())
    } else {
        text
    }
}

/// `text` without the double quotes at its start.
pub open spec fn trim_start_quotes(text: Seq<char>) -> Seq<char>
    decreases text.len(),
{
    if text.len() > 0 && text.first() == '"' {
        trim_start_quotes(text.drop_first())
    } else {
        text
    }
}

/// `text` without the double quotes at either end.
pub open spec fn trim_quotes(text: Seq<char>) -> Seq<char> {
    trim_end_quotes(trim_start_quotes(text))
}

/// Whether a key, given as the characters after its opening quote up to and
/// including its closing quote, is `version`.
pub open spec fn is_version_key(key: Seq<char>) -> bool {
    trim_end_quotes(key) == version_key()
}

/// The first index at or after `p` that holds no whitespace.
pub open spec fn skip_whitespace(s: Seq<char>, p: int) -> int
    decreases s.len() - p,
{
    if 0 <= p < s.len() && is_whitespace(s[p]) {
        skip_whitespace(s, p + 1)
    } else {
        p
    }
}

/// The first index at or after `p` that holds no token character.
pub open spec fn skip_token(s: Seq<char>, p: int) -> int
    decreases s.len() - p,
{
    if 0 <= p < s.len() && is_token_char(s[p]) {
        skip_token(s, p + 1)
    } else {
        p
    }
}

/// Where the string ends whose opening quote stands just before `p`: the
/// index after the first double quote that no backslash escapes. `escaped`
/// says whether the character at `p` is escaped. `None` when the document
/// ends first.
pub open spec fn string_end(s: Seq<char>, p: int, escaped: bool) -> Option<int>
    decreases s.len() - p,
{
    if p < 0 || p >= s.len() {
        None
    } else if escaped {
        string_end(s, p + 1, false)
    } else if s[p] == '"' {
        Some(p + 1)
    } else {
        string_end(s, p + 1, s[p] == '\\')
    }
}

/// A string, from the index after its opening quote.
pub open spec fn walk_string(s: Seq<char>, p: int) -> Walked {
    match string_end(s, p, false) {
        Some(end) => Walked::Done { end, site: None },
        None => Walked::Failed(Failure::UnexpectedEnd),
    }
}

/// The rest of a token, from the index after its first character: the
/// longest run of token characters, which the end of the document or a
/// terminator must follow.
pub open spec fn walk_token(s: Seq<char>, p: int) -> Walked {
    let end = skip_token(s, p);
    if end >= s.len() || is_terminator(s[end]) {
        Walked::Done { end, site: None }
    } else {
        Walked::Failed(Failure::UnexpectedChar(s[end]))
    }
}

/// What to do with the value at `start..end` of a top-level `"version"`
/// entry: it has to spell a version once its quotes are stripped, and it has
/// to be the first to do so.
pub open spec fn intercept(s: Seq<char>, start: int, end: int, seen: bool) -> Walked {
    let literal = s.subrange(start, end);
    match triple_of_text(trim_quotes(literal)) {
        Some(version) => if seen {
            Walked::Failed(Failure::DuplicateVersion)
        } else {
            Walked::Done { end, site: Some(Site { start, end, version }) }
        },
        None => Walked::Failed(Failure::InvalidVersion(literal)),
    }
}

/// What a walk that met `first` and then went on as `rest` has met.
pub open spec fn joined(first: Option<Site>, rest: Walked) -> Walked {
    match rest {
        Walked::Done { end, site } => Walked::Done {
            end,
            site: if first is Some {
                first
            } else {
                site
            },
        },
        Walked::Failed(f) => Walked::Failed(f),
    }
}

/// A value at `p`, after any spaces: an object, an array, a string or a
/// token. `depth` counts the objects and arrays around it, and `seen` says
/// whether a version was met before. At the end of the document there is
/// nothing to walk and the walk is done.
pub open spec fn walk_value(s: Seq<char>, p: int, depth: nat, seen: bool) -> Walked
    decreases s.len() - p, 0nat,
{
    if p < 0 || p >= s.len() {
        Walked::Done { end: p, site: None }
    } else if s[p] == ' ' {
        walk_value(s, p + 1, depth, seen)
    } else if s[p] == '{' {
        walk_object(s, p + 1, depth + 1, seen)
    } else if s[p] == '[' {
        walk_array(s, p + 1, depth + 1, seen)
    } else if s[p] == '"' {
        walk_string(s, p + 1)
    } else if is_token_start(s[p]) {
        walk_token(s, p + 1)
    } else {
        Walked::Failed(Failure::UnexpectedChar(s[p]))
    }
}

/// An object, from the index after its opening brace; `depth` counts this
/// object too. Either the closing brace stands right there, or an entry
/// follows and then the other members.
///
/// An entry is never empty (`lemma_walk_bounds`); the test on `end` is there
/// to show that the definition terminates.
pub open spec fn walk_object(s: Seq<char>, p: int, depth: nat, seen: bool) -> Walked
    decreases s.len() - p, 1nat,
{
    if p < 0 || p >= s.len() {
        Walked::Failed(Failure::UnexpectedEnd)
    } else if s[p] == '}' {
        Walked::Done { end: p + 1, site: None }
    } else {
        match walk_entry(s, p, depth, seen) {
            Walked::Done { end, site } => if p < end <= s.len() {
                joined(site, walk_members(s, end, depth, seen || site is Some))
            } else {
                Walked::Failed(Failure::UnexpectedEnd)
            },
            Walked::Failed(f) => Walked::Failed(f),
        }
    }
}

/// What follows the first entry of an object: a comma and another entry,
/// whitespace, or the closing brace.
pub open spec fn walk_members(s: Seq<char>, p: int, depth: nat, seen: bool) -> Walked
    decreases s.len() - p, 1nat,
{
    if p < 0 || p >= s.len() {
        Walked::Failed(Failure::UnexpectedEnd)
    } else if s[p] == '}' {
        Walked::Done { end: p + 1, site: None }
    } else if s[p] == ',' {
        match walk_entry(s, p + 1, depth, seen) {
            Walked::Done { end, site } => if p < end <= s.len() {
                joined(site, walk_members(s, end, depth, seen || site is Some))
            } else {
                Walked::Failed(Failure::UnexpectedEnd)
            },
            Walked::Failed(f) => Walked::Failed(f),
        }
    } else if is_whitespace(s[p]) {
        walk_members(s, p + 1, depth, seen)
    } else {
        Walked::Failed(Failure::UnexpectedChar(s[p]))
    }
}

/// One entry of an object at depth `depth`: whitespace, a string key,
/// whitespace, a colon, whitespace, a value. In the outermost object
/// (`depth == 1`) the value of a `"version"` key is the version literal.
pub open spec fn walk_entry(s: Seq<char>, p: int, depth: nat, seen: bool) -> Walked
    decreases s.len() - p, 0nat,
{
    let quote = skip_whitespace(s, p);
    if p < 0 || quote >= s.len() {
        Walked::Failed(Failure::UnexpectedEnd)
    } else if s[quote] != '"' {
        Walked::Failed(Failure::UnexpectedChar(s[quote]))
    } else {
        match string_end(s, quote + 1, false) {
            None => Walked::Failed(Failure::UnexpectedEnd),
            Some(key_end) => {
                let colon = skip_whitespace(s, key_end);
                if colon >= s.len() {
                    Walked::Failed(Failure::UnexpectedEnd)
                } else if s[colon] != ':' {
                    Walked::Failed(Failure::UnexpectedChar(s[colon]))
                } else {
                    let start = skip_whitespace(s, colon + 1);
                    if start >= s.len() {
                        Walked::Failed(Failure::UnexpectedEnd)
                    } else {
                        proof {
                            lemma_skip_whitespace(s, p);
                            lemma_string_end_bounds(s, quote + 1, false);
                            lemma_skip_whitespace(s, key_end);
                            lemma_skip_whitespace(s, colon + 1);
                        }
                        match walk_value(s, start, depth, seen) {
                            Walked::Done { end, site } => if depth == 1 && is_version_key(
                                s.subrange(quote + 1, key_end),
                            ) {
                                intercept(s, start, end, seen)
                            } else {
                                Walked::Done { end, site }
                            },
                            Walked::Failed(f) => Walked::Failed(f),
                        }
                    }
                }
            },
        }
    }
}

/// An array, from the index after its opening bracket, or from any later
/// index between two of its elements; `depth` counts this array too. A
/// comma and whitespace are passed over; anything else but the closing
/// bracket starts a value.
///
/// After a value the walk stands further on (`lemma_walk_bounds`); the test
/// on `end` is there to show that the definition terminates.
pub open spec fn walk_array(s: Seq<char>, p: int, depth: nat, seen: bool) -> Walked
    decreases s.len() - p, 1nat,
{
    if p < 0 || p >= s.len() {
        Walked::Failed(Failure::UnexpectedEnd)
    } else if s[p] == ']' {
        Walked::Done { end: p + 1, site: None }
    } else if s[p] == ',' || is_whitespace(s[p]) {
        walk_array(s, p + 1, depth, seen)
    } else {
        match walk_value(s, p, depth, seen) {
            Walked::Done { end, site } => if p < end <= s.len() {
                joined(site, walk_array(s, end, depth, seen || site is Some))
            } else {
                Walked::Failed(Failure::UnexpectedEnd)
            },
            Walked::Failed(f) => Walked::Failed(f),
        }
    }
}

/// What may follow the value of a document: whitespace, to the end.
pub open spec fn walk_trailing(s: Seq<char>, p: int) -> Walked {
    let rest = skip_whitespace(s, p);
    if rest >= s.len() {
        Walked::Done { end: rest, site: None }
    } else {
        Walked::Failed(Failure::UnexpectedChar(s[rest]))
    }
}

/// A whole document: one value, then nothing but whitespace.
pub open spec fn walk_document(s: Seq<char>) -> Walked {
    match walk_value(s, 0, 0, false) {
        Walked::Done { end, site } => joined(site, walk_trailing(s, end)),
        Walked::Failed(f) => Walked::Failed(f),
    }
}

/// The text that a walk over `s[from..to]` hands on: the same characters,
/// but for the version literal met on the way, in whose place `key` stands
/// between double quotes.
pub open spec fn render(s: Seq<char>, from: int, to: int, site: Option<Site>, key: Seq<char>) -> Seq<
    char,
> {
    match site {
        None => s.subrange(from, to),
        Some(at) => s.subrange(from, at.start) + quoted(key) + s.subrange(at.end, to),
    }
}

pub proof fn lemma_skip_whitespace(s: Seq<char>, p: int)
    requires
        0 <= p <= s.len(),
    ensures
        p <= skip_whitespace(s, p) <= s.len(),
        forall|i: int| p <= i < skip_whitespace(s, p) ==> is_whitespace(#[trigger] s[i]),
        skip_whitespace(s, p) < s.len() ==> !is_whitespace(s[skip_whitespace(s, p)]),
    decreases s.len() - p,
{
    if p < s.len() && is_whitespace(s[p]) {
        lemma_skip_whitespace(s, p + 1);
    }
}

pub proof fn lemma_skip_token(s: Seq<char>, p: int)
    requires
        0 <= p <= s.len(),
    ensures
        p <= skip_token(s, p) <= s.len(),
        forall|i: int| p <= i < skip_token(s, p) ==> is_token_char(#[trigger] s[i]),
        skip_token(s, p) < s.len() ==> !is_token_char(s[skip_token(s, p)]),
    decreases s.len() - p,
{
    if p < s.len() && is_token_char(s[p]) {
        lemma_skip_token(s, p + 1);
    }
}

pub proof fn lemma_string_end_bounds(s: Seq<char>, p: int, escaped: bool)
    ensures
        string_end(s, p, escaped) matches Some(end) ==> 0 <= p < end <= s.len() && s[end - 1]
            == '"',
    decreases s.len() - p,
{
    if 0 <= p < s.len() {
        if escaped {
            lemma_string_end_bounds(s, p + 1, false);
        } else if s[p] != '"' {
            lemma_string_end_bounds(s, p + 1, s[p] == '\\');
        }
    }
}

/// Whether `site`, met by a walk over `from..to`, lies within that span and
/// is not empty.
pub open spec fn site_within(site: Option<Site>, from: int, to: int) -> bool {
    site matches Some(at) ==> from <= at.start < at.end <= to
}

/// What holds of a walk that is done, from `p` to `end` with `site`: it went
/// forward, stayed within the document, and met the version literal only
/// where none was met before and only in an object at depth 1.
pub open spec fn done_well(
    s: Seq<char>,
    p: int,
    seen: bool,
    capturing: bool,
    moved: bool,
    w: Walked,
) -> bool {
    w matches Walked::Done { end, site } ==> {
        &&& p <= end <= s.len()
        &&& moved ==> p < end
        &&& site_within(site, p, end)
        &&& site is Some ==> !seen && capturing
    }
}

/// The bounds of every walk, and when it can meet the version literal.
pub proof fn lemma_walk_bounds(s: Seq<char>, p: int, depth: nat, seen: bool)
    requires
        0 <= p <= s.len(),
    ensures
        done_well(s, p, seen, depth == 0, p < s.len(), walk_value(s, p, depth, seen)),
        done_well(s, p, seen, depth <= 1, true, walk_object(s, p, depth, seen)),
        done_well(s, p, seen, depth <= 1, true, walk_members(s, p, depth, seen)),
        done_well(s, p, seen, depth <= 1, true, walk_entry(s, p, depth, seen)),
        done_well(s, p, seen, depth == 0, true, walk_array(s, p, depth, seen)),
{
    lemma_value_bounds(s, p, depth, seen);
    lemma_entry_bounds(s, p, depth, seen);
    lemma_object_bounds(s, p, depth, seen);
    lemma_members_bounds(s, p, depth, seen);
    lemma_array_bounds(s, p, depth, seen);
}

proof fn lemma_value_bounds(s: Seq<char>, p: int, depth: nat, seen: bool)
    requires
        0 <= p <= s.len(),
    ensures
        done_well(s, p, seen, depth == 0, p < s.len(), walk_value(s, p, depth, seen)),
    decreases s.len() - p, 0nat,
{
    if p < s.len() {
        if s[p] == ' ' {
            lemma_value_bounds(s, p + 1, depth, seen);
        } else if s[p] == '{' {
            lemma_object_bounds(s, p + 1, depth + 1, seen);
        } else if s[p] == '[' {
            lemma_array_bounds(s, p + 1, depth + 1, seen);
        } else if s[p] == '"' {
            lemma_string_end_bounds(s, p + 1, false);
        } else if is_token_start(s[p]) {
            lemma_skip_token(s, p + 1);
        }
    }
}

proof fn lemma_entry_bounds(s: Seq<char>, p: int, depth: nat, seen: bool)
    requires
        0 <= p <= s.len(),
    ensures
        done_well(s, p, seen, depth <= 1, true, walk_entry(s, p, depth, seen)),
    decreases s.len() - p, 0nat,
{
    lemma_skip_whitespace(s, p);
    let quote = skip_whitespace(s, p);
    if quote < s.len() && s[quote] == '"' {
        lemma_string_end_bounds(s, quote + 1, false);
        if let Some(key_end) = string_end(s, quote + 1, false) {
            lemma_skip_whitespace(s, key_end);
            let colon = skip_whitespace(s, key_end);
            if colon < s.len() && s[colon] == ':' {
                lemma_skip_whitespace(s, colon + 1);
                let start = skip_whitespace(s, colon + 1);
                if start < s.len() {
                    lemma_value_bounds(s, start, depth, seen);
                }
            }
        }
    }
}

proof fn lemma_object_bounds(s: Seq<char>, p: int, depth: nat, seen: bool)
    requires
        0 <= p <= s.len(),
    ensures
        done_well(s, p, seen, depth <= 1, true, walk_object(s, p, depth, seen)),
    decreases s.len() - p, 1nat,
{
    if p < s.len() && s[p] != '}' {
        lemma_entry_bounds(s, p, depth, seen);
        if let Walked::Done { end, site } = walk_entry(s, p, depth, seen) {
            lemma_members_bounds(s, end, depth, seen || site is Some);
        }
    }
}

proof fn lemma_members_bounds(s: Seq<char>, p: int, depth: nat, seen: bool)
    requires
        0 <= p <= s.len(),
    ensures
        done_well(s, p, seen, depth <= 1, true, walk_members(s, p, depth, seen)),
    decreases s.len() - p, 1nat,
{
    if p < s.len() {
        if s[p] == '}' {
        } else if s[p] == ',' {
            lemma_entry_bounds(s, p + 1, depth, seen);
            if let Walked::Done { end, site } = walk_entry(s, p + 1, depth, seen) {
                lemma_members_bounds(s, end, depth, seen || site is Some);
            }
        } else if is_whitespace(s[p]) {
            lemma_members_bounds(s, p + 1, depth, seen);
        }
    }
}

proof fn lemma_array_bounds(s: Seq<char>, p: int, depth: nat, seen: bool)
    requires
        0 <= p <= s.len(),
    ensures
        done_well(s, p, seen, depth == 0, true, walk_array(s, p, depth, seen)),
    decreases s.len() - p, 1nat,
{
    if p < s.len() {
        if s[p] == ']' {
        } else if s[p] == ',' || is_whitespace(s[p]) {
            lemma_array_bounds(s, p + 1, depth, seen);
        } else {
            lemma_value_bounds(s, p, depth, seen);
            if let Walked::Done { end, site } = walk_value(s, p, depth, seen) {
                if p < end <= s.len() {
                    lemma_array_bounds(s, end, depth, seen || site is Some);
                }
            }
        }
    }
}

/// A walk that goes one character further hands on that character too.
pub proof fn lemma_render_push(s: Seq<char>, from: int, to: int, site: Option<Site>, key: Seq<char>)
    requires
        0 <= from <= to < s.len(),
        site_within(site, from, to),
    ensures
        render(s, from, to + 1, site, key) == render(s, from, to, site, key).push(s[to]),
{
    match site {
        None => {
            assert(s.subrange(from, to + 1) == s.subrange(from, to).push(s[to]));
        },
        Some(at) => {
            assert(s.subrange(at.end, to + 1) == s.subrange(at.end, to).push(s[to]));
            assert(render(s, from, to + 1, site, key) =~= render(s, from, to, site, key).push(
                s[to],
            ));
        },
    }
}

/// What two walks hand on, one after the other, is what one walk over both
/// spans hands on, if the version literal was met in one of them at most.
pub proof fn lemma_render_join(
    s: Seq<char>,
    from: int,
    mid: int,
    to: int,
    first: Option<Site>,
    second: Option<Site>,
    key: Seq<char>,
)
    requires
        0 <= from <= mid <= to <= s.len(),
        site_within(first, from, mid),
        site_within(second, mid, to),
        first is Some ==> second is None,
    ensures
        render(s, from, mid, first, key) + render(s, mid, to, second, key) == render(
            s,
            from,
            to,
            if first is Some {
                first
            } else {
                second
            },
            key,
        ),
{
    let joined_site = if first is Some {
        first
    } else {
        second
    };
    assert(render(s, from, mid, first, key) + render(s, mid, to, second, key) =~= render(
        s,
        from,
        to,
        joined_site,
        key,
    ));
}

} // verus!
