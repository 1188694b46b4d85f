//! The walker: it reads a document character by character, hands every
//! character on as it stands, and lifts the one top-level version out.

use crate::grammar;
use crate::grammar::{
    is_token_char, is_token_start, is_version_key, joined, lemma_render_join, lemma_render_push, lemma_skip_token,
    lemma_skip_whitespace, lemma_string_end_bounds, lemma_walk_bounds, render, site_within,
    skip_token, skip_whitespace, string_end, trim_end_quotes, trim_quotes, trim_start_quotes,
    version_key, walk_array, walk_document, walk_entry, walk_members, walk_object, walk_string,
    walk_token, walk_trailing, walk_value, Failure, Site, Walked,
};
use crate::placeholder::{is_placeholder, new_placeholder};
use crate::text::{replace, replace_all, text_of};
use crate::version::{text_of_triple, Triple, Version};
use std::str::Chars;
use vstd::prelude::*;
use vstd::std_specs::iter::IteratorSpec;
use vstd::string::StringExecFns;

verus! {

/// Why a document was refused.
#[derive(Debug, PartialEq, Eq)]
pub enum ParseError {
    /// A character that may not stand where it was met.
    UnexpectedChar(char),
    /// The document ended inside a string, an object, an array or an entry.
    UnexpectedEnd,
    /// A top-level `"version"` whose value spells no version; the value is
    /// given as it was written.
    InvalidVersion(String),
    /// A second top-level `"version"`.
    DuplicateVersion,
}

impl View for ParseError {
    type V = Failure;

    open spec fn view(&self) -> Failure {
        match self {
            ParseError::UnexpectedChar(c) => Failure::UnexpectedChar(*c),
            ParseError::UnexpectedEnd => Failure::UnexpectedEnd,
            ParseError::InvalidVersion(literal) => Failure::InvalidVersion(literal@),
            ParseError::DuplicateVersion => Failure::DuplicateVersion,
        }
    }
}

/// The version as numbers, if there is one.
pub open spec fn triple_of(version: Option<Version>) -> Option<Triple> {
    match version {
        Some(v) => Some(v@),
        None => None,
    }
}

/// The version on record once a walk has met `site`.
pub open spec fn recorded_after(before: Option<Triple>, site: Option<Site>) -> Option<Triple> {
    match site {
        Some(at) => Some(at.version),
        None => before,
    }
}

/// A document that was walked: its text with a placeholder in the place of
/// the version literal, the placeholder, and the version.
pub struct ParsedJson {
    /// The document with the placeholder, between double quotes, in the
    /// place of the version literal.
    pub template: String,
    /// The placeholder.
    pub key: String,
    /// The version that the document held, or the one to write into it.
    pub version: Option<Version>,
}

/// The walker and its state: the document, how far it was read, what it has
/// lifted out, and how many objects and arrays are open.
pub struct Parser {
    json: Vec<char>,
    at: usize,
    parsed_json: ParsedJson,
    nested: usize,
}

/// The message of a failure.
pub open spec fn message_of(f: Failure) -> Seq<char> {
    match f {
        Failure::UnexpectedChar(c) => "unexpected char: "@.push(c),
        Failure::UnexpectedEnd => "unexpected end of json"@,
        Failure::InvalidVersion(literal) => "invalid version: "@ + literal,
        Failure::DuplicateVersion => "duplicate version"@,
    }
}

impl ParseError {
    /// The failure in words, the offending character or value included.
    pub fn message(&self) -> (text: String)
        ensures
            text@ == message_of(self@),
    {
        match self {
            ParseError::UnexpectedChar(c) => {
                let mut text = String::from_str("unexpected char: ");
                text.push(*c);
                text
            },
            ParseError::UnexpectedEnd => String::from_str("unexpected end of json"),
            ParseError::InvalidVersion(literal) => {
                let mut text = String::from_str("invalid version: ");
                text.append(literal.as_str());
                text
            },
            ParseError::DuplicateVersion => String::from_str("duplicate version"),
        }
    }
}

impl ParsedJson {
    /// Whether this is what the walk over `s` with the placeholder `key`
    /// gives when it has met the version literal at `site`.
    pub open spec fn is_parse_of(&self, s: Seq<char>, key: Seq<char>, site: Option<Site>) -> bool {
        &&& self.template@ == render(s, 0, s.len() as int, site, key)
        &&& self.key@ == key
        &&& triple_of(self.version) == recorded_after(None, site)
    }

    /// The text that [`ParsedJson::emb_string`] gives: the template with the
    /// canonical text of the version wherever the placeholder stands.
    pub open spec fn emitted(&self) -> Seq<char> {
        replace_all(self.template@, self.key@, text_of_triple(self.version.unwrap()@))
    }

    pub fn has_version(&self) -> (r: bool)
        ensures
            r == self.version is Some,
    {
        self.version.is_some()
    }

    pub fn get_version(&self) -> (version: &Version)
        requires
            self.version is Some,
        ensures
            *version == self.version.unwrap(),
    {
        self.version.as_ref().unwrap()
    }

    pub fn get_version_mut(&mut self) -> (version: &mut Version)
        requires
            old(self).version is Some,
        ensures
            *version == old(self).version.unwrap(),
            final(self).version == Some(*final(version)),
            final(self).template == old(self).template,
            final(self).key == old(self).key,
    {
        self.version.as_mut().unwrap()
    }

    /// The document with the version on record written into it.
    pub fn emb_string(&self) -> (text: String)
        requires
            self.version is Some,
        ensures
            text@ == self.emitted(),
    {
        let version = self.get_version().to_string();
        replace(self.template.as_str(), self.key.as_str(), version.as_str())
    }
}

/// Walks `json` with a fresh placeholder; the failure, if any, is given in
/// words.
pub fn parse_json(json: &str) -> (r: Result<ParsedJson, String>)
    ensures
        match walk_document(json@) {
            Walked::Done { end, site } => r matches Ok(doc) && is_placeholder(doc.key@)
                && doc.is_parse_of(json@, doc.key@, site),
            Walked::Failed(f) => r matches Err(text) && text@ == message_of(f),
        },
{
    match Parser::parse(json) {
        Ok(doc) => Ok(doc),
        Err(e) => Err(e.message()),
    }
}

pub fn is_whitespace(c: char) -> (r: bool)
    ensures
        r == grammar::is_whitespace(c),
{
    c == ' ' || c == '\t' || c == '\n' || c == '\r'
}

fn starts_token(c: char) -> (r: bool)
    ensures
        r == is_token_start(c),
{
    ('0' <= c && c <= '9') || ('a' <= c && c <= 'z') || c == '.' || c == '-' || c == '+'
}

fn is_token(c: char) -> (r: bool)
    ensures
        r == is_token_char(c),
{
    ('0' <= c && c <= '9') || ('a' <= c && c <= 'z') || c == 'E' || c == '.' || c == '-' || c
        == '+'
}

/// Whether `chars[from..to]`, a key without its opening quote, is `version`.
fn names_version(chars: &Vec<char>, from: usize, to: usize) -> (r: bool)
    requires
        from <= to <= chars.len(),
    ensures
        r == is_version_key(chars@.subrange(from as int, to as int)),
{
    let mut end = to;
    while end > from && chars[end - 1] == '"'
        invariant
            from <= end <= to <= chars.len(),
            trim_end_quotes(chars@.subrange(from as int, to as int)) == trim_end_quotes(
                chars@.subrange(from as int, end as int),
            ),
        decreases end,
    {
        proof {
            assert(chars@.subrange(from as int, end as int).drop_last() == chars@.subrange(
                from as int,
                end - 1,
            ));
        }
        end -= 1;
    }
    let ghost name = chars@.subrange(from as int, end as int);
    assert(trim_end_quotes(name) == name);
    if end - from != 7 {
        return false;
    }
    let r = chars[from] == 'v' && chars[from + 1] == 'e' && chars[from + 2] == 'r' && chars[from
        + 3] == 's' && chars[from + 4] == 'i' && chars[from + 5] == 'o' && chars[from + 6] == 'n';
    proof {
        if r {
            assert(name =~= version_key());
        } else {
            assert(version_key()[0] == 'v' && version_key()[1] == 'e' && version_key()[2] == 'r'
                && version_key()[3] == 's' && version_key()[4] == 'i' && version_key()[5] == 'o'
                && version_key()[6] == 'n');
            assert(name[0] == chars[from as int] && name[1] == chars[from + 1] && name[2]
                == chars[from + 2] && name[3] == chars[from + 3] && name[4] == chars[from + 4]
                && name[5] == chars[from + 5] && name[6] == chars[from + 6]);
        }
    }
    r
}

/// The bounds of `chars[from..to]` without the double quotes at either end.
fn trimmed(chars: &Vec<char>, from: usize, to: usize) -> (r: (usize, usize))
    requires
        from <= to <= chars.len(),
    ensures
        from <= r.0 <= r.1 <= to,
        chars@.subrange(r.0 as int, r.1 as int) == trim_quotes(
            chars@.subrange(from as int, to as int),
        ),
{
    let mut start = from;
    while start < to && chars[start] == '"'
        invariant
            from <= start <= to <= chars.len(),
            trim_start_quotes(chars@.subrange(from as int, to as int)) == trim_start_quotes(
                chars@.subrange(start as int, to as int),
            ),
        decreases to - start,
    {
        proof {
            assert(chars@.subrange(start as int, to as int).drop_first() == chars@.subrange(
                start + 1,
                to as int,
            ));
        }
        start += 1;
    }
    let mut end = to;
    while end > start && chars[end - 1] == '"'
        invariant
            start <= end <= to <= chars.len(),
            trim_end_quotes(chars@.subrange(start as int, to as int)) == trim_end_quotes(
                chars@.subrange(start as int, end as int),
            ),
        decreases end,
    {
        proof {
            assert(chars@.subrange(start as int, end as int).drop_last() == chars@.subrange(
                start as int,
                end - 1,
            ));
        }
        end -= 1;
    }
    (start, end)
}

impl Parser {
    /// The document.
    pub closed spec fn source(&self) -> Seq<char> {
        self.json@
    }

    /// How many characters were read.
    pub closed spec fn position(&self) -> int {
        self.at as int
    }

    /// How many objects and arrays are open.
    pub closed spec fn depth(&self) -> nat {
        self.nested as nat
    }

    /// The placeholder.
    pub closed spec fn key(&self) -> Seq<char> {
        self.parsed_json.key@
    }

    /// The version lifted out so far.
    pub closed spec fn recorded(&self) -> Option<Triple> {
        triple_of(self.parsed_json.version)
    }

    /// The template held so far: empty until a whole document was walked.
    pub closed spec fn template(&self) -> Seq<char> {
        self.parsed_json.template@
    }

    /// The position lies within the document, and the depth can be counted
    /// however deep the rest of the document nests.
    pub open spec fn wf(&self) -> bool {
        &&& 0 <= self.position() <= self.source().len() <= usize::MAX
        &&& self.depth() + self.remaining() <= usize::MAX
    }

    /// How many characters are left to read.
    pub open spec fn remaining(&self) -> int {
        self.source().len() - self.position()
    }

    /// Whether one more object or array can be opened right here.
    pub open spec fn has_room(&self) -> bool {
        self.depth() + self.remaining() < usize::MAX
    }

    /// What a step of the walker has done when the grammar says that the
    /// walk from `pre` ends as `w`: on `Done` the walker stands at the end,
    /// hands on the text of the span, and has the version on record that the
    /// walk met; on `Failed` it reports that failure.
    pub open spec fn follows(
        pre: Parser,
        post: Parser,
        w: Walked,
        r: Result<String, ParseError>,
    ) -> bool {
        &&& post.wf()
        &&& post.source() == pre.source()
        &&& post.key() == pre.key()
        &&& post.template() == pre.template()
        &&& match w {
            Walked::Done { end, site } => {
                &&& r matches Ok(text)
                &&& text@ == render(pre.source(), pre.position(), end, site, pre.key())
                &&& post.position() == end
                &&& post.depth() == pre.depth()
                &&& post.recorded() == recorded_after(pre.recorded(), site)
            },
            Walked::Failed(f) => r matches Err(e) && e@ == f,
        }
    }

    /// Where the walker stands in the middle of a step that began at `pre`:
    /// `extra` levels deeper, having met `found` and gathered `out`.
    spec fn advanced(&self, pre: Parser, extra: nat, found: Option<Site>, out: Seq<char>) -> bool {
        &&& self.wf()
        &&& pre.wf()
        &&& self.source() == pre.source()
        &&& self.key() == pre.key()
        &&& self.template() == pre.template()
        &&& pre.position() <= self.position() <= self.source().len()
        &&& self.depth() == pre.depth() + extra
        &&& site_within(found, pre.position(), self.position())
        &&& found is Some ==> pre.recorded() is None
        &&& self.recorded() == recorded_after(pre.recorded(), found)
        &&& out == render(pre.source(), pre.position(), self.position(), found, pre.key())
    }

    /// Walks the whole of `json` with a fresh placeholder.
    pub fn parse(json: &str) -> (r: Result<ParsedJson, ParseError>)
        ensures
            match walk_document(json@) {
                Walked::Done { end, site } => r matches Ok(doc) && is_placeholder(doc.key@)
                    && doc.is_parse_of(json@, doc.key@, site),
                Walked::Failed(f) => r matches Err(e) && e@ == f,
            },
    {
        Parser::parse_with_key(json, new_placeholder())
    }

    /// Walks the whole of `json`: one value, then whitespace to the end.
    /// The template is the document as it stands, but for the version
    /// literal, in whose place `key` stands between double quotes.
    pub fn parse_with_key(json: &str, key: String) -> (r: Result<ParsedJson, ParseError>)
        ensures
            match walk_document(json@) {
                Walked::Done { end, site } => r matches Ok(doc) && doc.is_parse_of(
                    json@,
                    key@,
                    site,
                ),
                Walked::Failed(f) => r matches Err(e) && e@ == f,
            },
    {
        let mut parser = Parser::with_key(json.chars(), key);
        let ghost s = json@;
        match parser.content() {
            Ok(mut template) => {
                let ghost mid = parser;
                proof {
                    lemma_walk_bounds(s, 0, 0, false);
                    lemma_skip_whitespace(s, mid.position());
                }
                match parser.trailing() {
                    Ok(rest) => {
                        proof {
                            lemma_render_join(
                                s,
                                0,
                                mid.position(),
                                s.len() as int,
                                walk_value(s, 0, 0, false)->site,
                                None,
                                key@,
                            );
                        }
                        template.append(rest.as_str());
                        parser.parsed_json.template = template;
                        Ok(parser.parsed_json)
                    },
                    Err(e) => Err(e),
                }
            },
            Err(e) => Err(e),
        }
    }

    /// A walker at the start of the characters that `json` yields, with a
    /// fresh placeholder.
    pub fn new(json: Chars<'_>) -> (parser: Parser)
        requires
            IteratorSpec::initial_value_relation(&json, &json),
            IteratorSpec::decrease(&json) is Some,
        ensures
            parser.wf(),
            parser.source() == IteratorSpec::remaining(&json),
            parser.position() == 0,
            parser.depth() == 0,
            parser.recorded() is None,
            parser.template() == Seq::<char>::empty(),
            is_placeholder(parser.key()),
    {
        Parser::with_key(json, new_placeholder())
    }

    /// A walker at the start of the characters that `json` yields, with
    /// `key` for its placeholder.
    pub fn with_key(json: Chars<'_>, key: String) -> (parser: Parser)
        requires
            IteratorSpec::initial_value_relation(&json, &json),
            IteratorSpec::decrease(&json) is Some,
        ensures
            parser.wf(),
            parser.source() == IteratorSpec::remaining(&json),
            parser.position() == 0,
            parser.depth() == 0,
            parser.recorded() is None,
            parser.template() == Seq::<char>::empty(),
            parser.key() == key@,
    {
        let mut chars: Vec<char> = Vec::new();
        for c in iter: json
            invariant
                chars@ == iter.seq().take(iter.index()),
        {
            chars.push(c);
        }
        assert(chars@.len() == chars.len());
        Parser {
            json: chars,
            at: 0,
            parsed_json: ParsedJson { template: String::new(), key, version: None },
            nested: 0,
        }
    }

    /// Reads one character and hands it on.
    fn copy_char(
        &mut self,
        out: &mut String,
        Ghost(pre): Ghost<Parser>,
        Ghost(extra): Ghost<nat>,
        Ghost(found): Ghost<Option<Site>>,
    ) -> (c: char)
        requires
            old(self).advanced(pre, extra, found, old(out)@),
            old(self).position() < old(self).source().len(),
        ensures
            final(self).advanced(pre, extra, found, final(out)@),
            final(self).position() == old(self).position() + 1,
            final(self).recorded() == old(self).recorded(),
            c == old(self).source()[old(self).position()],
    {
        proof {
            lemma_render_push(self.json@, pre.position(), self.at as int, found, pre.key());
        }
        let c = self.json[self.at];
        self.at += 1;
        out.push(c);
        c
    }

    /// Reads whitespace as far as it goes and hands it on.
    fn whitespace(
        &mut self,
        out: &mut String,
        Ghost(pre): Ghost<Parser>,
        Ghost(extra): Ghost<nat>,
        Ghost(found): Ghost<Option<Site>>,
    )
        requires
            old(self).advanced(pre, extra, found, old(out)@),
        ensures
            final(self).advanced(pre, extra, found, final(out)@),
            final(self).position() == skip_whitespace(old(self).source(), old(self).position()),
            final(self).recorded() == old(self).recorded(),
    {
        while self.at < self.json.len() && is_whitespace(self.json[self.at])
            invariant
                self.advanced(pre, extra, found, out@),
                self.recorded() == old(self).recorded(),
                self.source() == old(self).source(),
                old(self).position() <= self.position(),
                skip_whitespace(self.source(), self.position()) == skip_whitespace(
                    old(self).source(),
                    old(self).position(),
                ),
            decreases self.json.len() - self.at,
        {
            self.copy_char(out, Ghost(pre), Ghost(extra), Ghost(found));
        }
    }

    /// A value, after any spaces: an object, an array, a string or a token.
    /// At the end of the document there is nothing to read.
    pub fn content(&mut self) -> (r: Result<String, ParseError>)
        requires
            old(self).wf(),
        ensures
            Parser::follows(
                *old(self),
                *final(self),
                walk_value(
                    old(self).source(),
                    old(self).position(),
                    old(self).depth(),
                    old(self).recorded() is Some,
                ),
                r,
            ),
        decreases old(self).remaining(), 0nat,
    {
        let ghost pre = *self;
        let ghost s = self.json@;
        let ghost seen = pre.recorded() is Some;
        let mut content = String::new();
        assert(content@ =~= s.subrange(pre.position(), pre.position()));
        while self.at < self.json.len() && self.json[self.at] == ' '
            invariant
                pre == *old(self),
                self.advanced(pre, 0, None, content@),
                s == pre.source(),
                walk_value(s, self.position(), pre.depth(), seen) == walk_value(
                    s,
                    pre.position(),
                    pre.depth(),
                    seen,
                ),
            decreases self.json.len() - self.at,
        {
            self.copy_char(&mut content, Ghost(pre), Ghost(0), Ghost(None));
        }
        if self.at >= self.json.len() {
            return Ok(content);
        }
        let c = self.copy_char(&mut content, Ghost(pre), Ghost(0), Ghost(None));
        let ghost inner = *self;
        proof {
            lemma_walk_bounds(s, self.position(), pre.depth() + 1, seen);
        }
        let rest = if c == '{' {
            self.object()
        } else if c == '[' {
            self.array()
        } else if c == '"' {
            proof {
                lemma_string_end_bounds(s, self.position(), false);
            }
            self.string()
        } else if starts_token(c) {
            proof {
                lemma_skip_token(s, self.position());
            }
            self.num_like()
        } else {
            return Err(ParseError::UnexpectedChar(c));
        };
        match rest {
            Ok(text) => {
                proof {
                    let w = walk_value(s, pre.position(), pre.depth(), seen);
                    lemma_render_join(
                        s,
                        pre.position(),
                        inner.position(),
                        self.position(),
                        None,
                        w->site,
                        pre.key(),
                    );
                }
                content.append(text.as_str());
                Ok(content)
            },
            Err(e) => Err(e),
        }
    }

    /// An object, after its opening brace.
    pub fn object(&mut self) -> (r: Result<String, ParseError>)
        requires
            old(self).wf(),
            old(self).has_room(),
        ensures
            Parser::follows(
                *old(self),
                *final(self),
                walk_object(
                    old(self).source(),
                    old(self).position(),
                    old(self).depth() + 1,
                    old(self).recorded() is Some,
                ),
                r,
            ),
        decreases old(self).remaining(), 1nat,
    {
        let ghost pre = *self;
        let ghost s = self.json@;
        let ghost seen = pre.recorded() is Some;
        let ghost depth = pre.depth() + 1;
        let ghost target = walk_object(s, pre.position(), depth, seen);
        let ghost mut found: Option<Site> = None;
        let mut object = String::new();
        assert(object@ =~= s.subrange(pre.position(), pre.position()));
        self.nested += 1;
        if self.at >= self.json.len() {
            return Err(ParseError::UnexpectedEnd);
        }
        if self.json[self.at] == '}' {
            self.copy_char(&mut object, Ghost(pre), Ghost(1), Ghost(None));
            self.nested -= 1;
            return Ok(object);
        }
        self.whitespace(&mut object, Ghost(pre), Ghost(1), Ghost(None));
        let ghost first = *self;
        proof {
            lemma_skip_whitespace(s, pre.position());
            lemma_walk_bounds(s, self.position(), depth, seen);
        }
        match self.object_body() {
            Ok(text) => {
                proof {
                    let w = walk_entry(s, pre.position(), depth, seen);
                    lemma_render_join(
                        s,
                        pre.position(),
                        first.position(),
                        self.position(),
                        None,
                        w->site,
                        pre.key(),
                    );
                    found = w->site;
                }
                object.append(text.as_str());
            },
            Err(e) => {
                return Err(e);
            },
        }
        let mut open = true;
        while open
            invariant
                pre == *old(self),
                target == walk_object(s, pre.position(), depth, seen),
                self.advanced(pre, 1, found, object@),
                s == pre.source(),
                seen == (pre.recorded() is Some),
                depth == pre.depth() + 1,
                open ==> joined(
                    found,
                    walk_members(s, self.position(), depth, self.recorded() is Some),
                ) == target,
                !open ==> target == (Walked::Done { end: self.position(), site: found }),
            decreases self.remaining() + if open { 1int } else { 0int },
        {
            if self.at >= self.json.len() {
                return Err(ParseError::UnexpectedEnd);
            }
            let c = self.json[self.at];
            if c == '}' {
                self.copy_char(&mut object, Ghost(pre), Ghost(1), Ghost(found));
                open = false;
            } else if c == ',' {
                self.copy_char(&mut object, Ghost(pre), Ghost(1), Ghost(found));
                let ghost mid = *self;
                proof {
                    lemma_walk_bounds(s, self.position(), depth, self.recorded() is Some);
                }
                match self.object_body() {
                    Ok(text) => {
                        proof {
                            let w = walk_entry(s, mid.position(), depth, mid.recorded() is Some);
                            lemma_render_join(
                                s,
                                pre.position(),
                                mid.position(),
                                self.position(),
                                found,
                                w->site,
                                pre.key(),
                            );
                            if found is None {
                                found = w->site;
                            }
                        }
                        object.append(text.as_str());
                    },
                    Err(e) => {
                        return Err(e);
                    },
                }
            } else if is_whitespace(c) {
                self.copy_char(&mut object, Ghost(pre), Ghost(1), Ghost(found));
            } else {
                return Err(ParseError::UnexpectedChar(c));
            }
        }
        self.nested -= 1;
        Ok(object)
    }

    /// One entry of an object: a key, a colon and a value, with any
    /// whitespace around them. In the outermost object the value of a
    /// `"version"` key is lifted out, and the placeholder is handed on
    /// between double quotes in its place.
    pub fn object_body(&mut self) -> (r: Result<String, ParseError>)
        requires
            old(self).wf(),
        ensures
            Parser::follows(
                *old(self),
                *final(self),
                walk_entry(
                    old(self).source(),
                    old(self).position(),
                    old(self).depth(),
                    old(self).recorded() is Some,
                ),
                r,
            ),
        decreases old(self).remaining(), 0nat,
    {
        let ghost pre = *self;
        let ghost s = self.json@;
        let ghost seen = pre.recorded() is Some;
        let mut object_body = String::new();
        assert(object_body@ =~= s.subrange(pre.position(), pre.position()));
        self.whitespace(&mut object_body, Ghost(pre), Ghost(0), Ghost(None));
        proof {
            lemma_skip_whitespace(s, pre.position());
        }
        if self.at >= self.json.len() {
            return Err(ParseError::UnexpectedEnd);
        }
        let c = self.copy_char(&mut object_body, Ghost(pre), Ghost(0), Ghost(None));
        if c != '"' {
            return Err(ParseError::UnexpectedChar(c));
        }
        let key_from = self.at;
        proof {
            lemma_string_end_bounds(s, key_from as int, false);
        }
        match self.string() {
            Ok(key) => {
                proof {
                    lemma_render_join(
                        s,
                        pre.position(),
                        key_from as int,
                        self.position(),
                        None,
                        None,
                        pre.key(),
                    );
                }
                object_body.append(key.as_str());
            },
            Err(e) => {
                return Err(e);
            },
        }
        let key_to = self.at;
        let lifts = self.nested == 1 && names_version(&self.json, key_from, key_to);
        self.whitespace(&mut object_body, Ghost(pre), Ghost(0), Ghost(None));
        proof {
            lemma_skip_whitespace(s, key_to as int);
        }
        if self.at >= self.json.len() {
            return Err(ParseError::UnexpectedEnd);
        }
        let c = self.copy_char(&mut object_body, Ghost(pre), Ghost(0), Ghost(None));
        if c != ':' {
            return Err(ParseError::UnexpectedChar(c));
        }
        let ghost after_colon = self.position();
        self.whitespace(&mut object_body, Ghost(pre), Ghost(0), Ghost(None));
        proof {
            lemma_skip_whitespace(s, after_colon);
        }
        if self.at >= self.json.len() {
            return Err(ParseError::UnexpectedEnd);
        }
        let value_from = self.at;
        proof {
            lemma_walk_bounds(s, value_from as int, pre.depth(), seen);
        }
        match self.content() {
            Ok(value) => {
                let value_to = self.at;
                let ghost inner = walk_value(s, value_from as int, pre.depth(), seen);
                if lifts {
                    assert(value@ == s.subrange(value_from as int, value_to as int));
                    let bounds = trimmed(&self.json, value_from, value_to);
                    let literal = text_of(&self.json, bounds.0, bounds.1);
                    match Version::from_str(literal.as_str()) {
                        Ok(version) => {
                            if self.parsed_json.version.is_some() {
                                return Err(ParseError::DuplicateVersion);
                            }
                            self.parsed_json.version = Some(version);
                            object_body.push('"');
                            object_body.append(self.parsed_json.key.as_str());
                            object_body.push('"');
                            assert(object_body@ =~= render(
                                s,
                                pre.position(),
                                value_to as int,
                                Some(
                                    Site {
                                        start: value_from as int,
                                        end: value_to as int,
                                        version: version@,
                                    },
                                ),
                                pre.key(),
                            ));
                            Ok(object_body)
                        },
                        Err(_) => Err(ParseError::InvalidVersion(value)),
                    }
                } else {
                    proof {
                        lemma_render_join(
                            s,
                            pre.position(),
                            value_from as int,
                            value_to as int,
                            None,
                            inner->site,
                            pre.key(),
                        );
                    }
                    object_body.append(value.as_str());
                    Ok(object_body)
                }
            },
            Err(e) => Err(e),
        }
    }

    /// An array, after its opening bracket.
    pub fn array(&mut self) -> (r: Result<String, ParseError>)
        requires
            old(self).wf(),
            old(self).has_room(),
        ensures
            Parser::follows(
                *old(self),
                *final(self),
                walk_array(
                    old(self).source(),
                    old(self).position(),
                    old(self).depth() + 1,
                    old(self).recorded() is Some,
                ),
                r,
            ),
        decreases old(self).remaining(), 1nat,
    {
        let ghost pre = *self;
        let ghost s = self.json@;
        let ghost seen = pre.recorded() is Some;
        let ghost depth = pre.depth() + 1;
        let ghost target = walk_array(s, pre.position(), depth, seen);
        let ghost mut found: Option<Site> = None;
        let mut array = String::new();
        assert(array@ =~= s.subrange(pre.position(), pre.position()));
        self.nested += 1;
        let mut open = true;
        while open
            invariant
                pre == *old(self),
                target == walk_array(s, pre.position(), depth, seen),
                self.advanced(pre, 1, found, array@),
                s == pre.source(),
                seen == (pre.recorded() is Some),
                depth == pre.depth() + 1,
                open ==> joined(
                    found,
                    walk_array(s, self.position(), depth, self.recorded() is Some),
                ) == target,
                !open ==> target == (Walked::Done { end: self.position(), site: found }),
            decreases self.remaining() + if open { 1int } else { 0int },
        {
            if self.at >= self.json.len() {
                return Err(ParseError::UnexpectedEnd);
            }
            let c = self.json[self.at];
            if c == ']' {
                self.copy_char(&mut array, Ghost(pre), Ghost(1), Ghost(found));
                open = false;
            } else if c == ',' || is_whitespace(c) {
                self.copy_char(&mut array, Ghost(pre), Ghost(1), Ghost(found));
            } else {
                let ghost mid = *self;
                proof {
                    lemma_walk_bounds(s, self.position(), depth, self.recorded() is Some);
                }
                match self.content() {
                    Ok(text) => {
                        proof {
                            let w = walk_value(s, mid.position(), depth, mid.recorded() is Some);
                            lemma_render_join(
                                s,
                                pre.position(),
                                mid.position(),
                                self.position(),
                                found,
                                w->site,
                                pre.key(),
                            );
                            if found is None {
                                found = w->site;
                            }
                        }
                        array.append(text.as_str());
                    },
                    Err(e) => {
                        return Err(e);
                    },
                }
            }
        }
        self.nested -= 1;
        Ok(array)
    }

    /// A string, after its opening quote: everything up to the first double
    /// quote that no backslash escapes.
    pub fn string(&mut self) -> (r: Result<String, ParseError>)
        requires
            old(self).wf(),
        ensures
            Parser::follows(
                *old(self),
                *final(self),
                walk_string(old(self).source(), old(self).position()),
                r,
            ),
    {
        let ghost pre = *self;
        let ghost s = self.json@;
        let mut string = String::new();
        let mut is_escaped = false;
        assert(string@ =~= s.subrange(pre.position(), pre.position()));
        while self.at < self.json.len()
            invariant
                pre == *old(self),
                self.advanced(pre, 0, None, string@),
                s == pre.source(),
                string_end(s, self.position(), is_escaped) == string_end(
                    s,
                    pre.position(),
                    false,
                ),
            decreases self.json.len() - self.at,
        {
            let c = self.copy_char(&mut string, Ghost(pre), Ghost(0), Ghost(None));
            if is_escaped {
                is_escaped = false;
            } else if c == '"' {
                return Ok(string);
            } else if c == '\\' {
                is_escaped = true;
            }
        }
        Err(ParseError::UnexpectedEnd)
    }

    /// The rest of a number, `true`, `false` or `null`, after its first
    /// character.
    pub fn num_like(&mut self) -> (r: Result<String, ParseError>)
        requires
            old(self).wf(),
        ensures
            Parser::follows(
                *old(self),
                *final(self),
                walk_token(old(self).source(), old(self).position()),
                r,
            ),
    {
        let ghost pre = *self;
        let ghost s = self.json@;
        let mut num_like = String::new();
        assert(num_like@ =~= s.subrange(pre.position(), pre.position()));
        while self.at < self.json.len()
            invariant
                pre == *old(self),
                self.advanced(pre, 0, None, num_like@),
                s == pre.source(),
                skip_token(s, self.position()) == skip_token(s, pre.position()),
            decreases self.json.len() - self.at,
        {
            let c = self.json[self.at];
            if is_token(c) {
                self.copy_char(&mut num_like, Ghost(pre), Ghost(0), Ghost(None));
            } else if c == ']' || c == ',' || c == '}' || is_whitespace(c) {
                return Ok(num_like);
            } else {
                return Err(ParseError::UnexpectedChar(c));
            }
        }
        Ok(num_like)
    }

    /// What follows the value of a document: whitespace, to the end.
    pub fn trailing(&mut self) -> (r: Result<String, ParseError>)
        requires
            old(self).wf(),
        ensures
            Parser::follows(
                *old(self),
                *final(self),
                walk_trailing(old(self).source(), old(self).position()),
                r,
            ),
    {
        let ghost pre = *self;
        let mut trailing = String::new();
        assert(trailing@ =~= self.json@.subrange(pre.position(), pre.position()));
        self.whitespace(&mut trailing, Ghost(pre), Ghost(0), Ghost(None));
        proof {
            lemma_skip_whitespace(self.json@, pre.position());
        }
        if self.at < self.json.len() {
            Err(ParseError::UnexpectedChar(self.json[self.at]))
        } else {
            Ok(trailing)
        }
    }
}

} // verus!
