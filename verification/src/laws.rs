//! What holds of every document: the laws that tie the walker, the template
//! and the written-out document together.

use crate::grammar::{
    lemma_skip_whitespace, lemma_string_end_bounds, lemma_walk_bounds, quoted, render,
    skip_whitespace, string_end, walk_array, walk_document, walk_entry, walk_members, walk_object,
    walk_value, Failure, Site, Walked,
};
use crate::parser::ParsedJson;
use crate::placeholder::{is_placeholder, lemma_placeholder_plain};
use crate::text::{occurs_at, occurs_in, replace_all};
use crate::version::text_of_triple;
use vstd::prelude::*;

verus! {

/// Whether `key` can serve as the placeholder of `s`: it is not empty, holds
/// no double quote, and stands nowhere in `s`.
pub open spec fn is_fresh(key: Seq<char>, s: Seq<char>) -> bool {
    &&& key.len() > 0
    &&& forall|i: int| 0 <= i < key.len() ==> key[i] != '"'
    &&& !occurs_in(s, key)
}

/// A random token that stands nowhere in a document can serve as its
/// placeholder.
pub proof fn law_absent_token_is_fresh(key: Seq<char>, s: Seq<char>)
    requires
        is_placeholder(key),
        !occurs_in(s, key),
    ensures
        is_fresh(key, s),
{
    lemma_placeholder_plain(key);
}

/// Replacing a text that stands nowhere changes nothing.
pub proof fn lemma_replace_absent(s: Seq<char>, from: Seq<char>, to: Seq<char>)
    requires
        from.len() > 0,
        !occurs_in(s, from),
    ensures
        replace_all(s, from, to) == s,
    decreases s.len(),
{
    if s.len() > 0 {
        assert(!occurs_at(s, from, 0));
        let rest = s.drop_first();
        assert forall|i: int| !occurs_at(rest, from, i) by {
            if occurs_at(rest, from, i) {
                assert(rest.subrange(i, i + from.len()) == s.subrange(i + 1, i + 1 + from.len()));
                assert(occurs_at(s, from, i + 1));
            }
        }
        lemma_replace_absent(rest, from, to);
        assert(seq![s[0]] + rest == s);
    }
}

/// Where `key` stands behind `before` and nowhere earlier, replacing leaves
/// `before` as it is, writes `to`, and goes on behind `key`.
pub proof fn lemma_replace_first(
    before: Seq<char>,
    key: Seq<char>,
    after: Seq<char>,
    to: Seq<char>,
)
    requires
        key.len() > 0,
        forall|i: int| 0 <= i < before.len() ==> !occurs_at(before + key + after, key, i),
    ensures
        replace_all(before + key + after, key, to) == before + to + replace_all(after, key, to),
    decreases before.len(),
{
    let s = before + key + after;
    if before.len() == 0 {
        assert(s.subrange(0, key.len() as int) == key);
        assert(s.subrange(key.len() as int, s.len() as int) == after);
        assert(before + to + replace_all(after, key, to) == to + replace_all(after, key, to));
    } else {
        assert(!occurs_at(s, key, 0));
        let shorter = before.drop_first();
        let rest = shorter + key + after;
        assert(s.drop_first() == rest);
        assert forall|i: int| 0 <= i < shorter.len() implies !occurs_at(rest, key, i) by {
            if occurs_at(rest, key, i) {
                assert(rest.subrange(i, i + key.len()) == s.subrange(i + 1, i + 1 + key.len()));
                assert(occurs_at(s, key, i + 1));
            }
        }
        lemma_replace_first(shorter, key, after, to);
        assert(seq![s[0]] + (shorter + to + replace_all(after, key, to)) == before + to
            + replace_all(after, key, to));
    }
}

/// Materialising a template writes the text, between double quotes, exactly
/// where the version literal stood and changes nothing else: the placeholder
/// stands in the template once.
pub proof fn law_one_substitution_site(s: Seq<char>, key: Seq<char>, site: Site, to: Seq<char>)
    requires
        0 <= site.start <= site.end <= s.len(),
        is_fresh(key, s),
    ensures
        replace_all(render(s, 0, s.len() as int, Some(site), key), key, to) == s.subrange(
            0,
            site.start,
        ) + quoted(to) + s.subrange(site.end, s.len() as int),
{
    let head = s.subrange(0, site.start);
    let tail = s.subrange(site.end, s.len() as int);
    let before = head + seq!['"'];
    let after = seq!['"'] + tail;
    let template = render(s, 0, s.len() as int, Some(site), key);
    assert(template == before + key + after);
    assert forall|i: int| 0 <= i < before.len() implies !occurs_at(template, key, i) by {
        if occurs_at(template, key, i) {
            let found = template.subrange(i, i + key.len());
            if i + key.len() <= site.start {
                assert(found == s.subrange(i, i + key.len()));
                assert(occurs_at(s, key, i));
            } else {
                assert(found[site.start - i] == template[site.start]);
                assert(key[site.start - i] == '"');
            }
        }
    }
    lemma_replace_first(before, key, after, to);
    assert forall|i: int| !occurs_at(after, key, i) by {
        if occurs_at(after, key, i) {
            let found = after.subrange(i, i + key.len());
            if i == 0 {
                assert(found[0] == after[0]);
                assert(key[0] == '"');
            } else {
                assert(found == s.subrange(site.end + i - 1, site.end + i - 1 + key.len()));
                assert(occurs_at(s, key, site.end + i - 1));
            }
        }
    }
    lemma_replace_absent(after, key, to);
    assert(before + to + after == head + quoted(to) + tail);
}

/// A document without a top-level version is its own template, and
/// materialising that template gives the document back whatever is written
/// into it.
pub proof fn law_without_version_nothing_changes(
    doc: ParsedJson,
    s: Seq<char>,
    site: Option<Site>,
    to: Seq<char>,
)
    requires
        walk_document(s) == (Walked::Done { end: s.len() as int, site }),
        doc.is_parse_of(s, doc.key@, site),
        doc.version is None,
    ensures
        doc.template@ == s,
        is_fresh(doc.key@, s) ==> replace_all(doc.template@, doc.key@, to) == s,
{
    assert(s.subrange(0, s.len() as int) == s);
    if is_fresh(doc.key@, s) {
        lemma_replace_absent(s, doc.key@, to);
    }
}

/// Round trip: the placeholder replaced by the text that stood between the
/// quotes of the version literal gives the document back, character for
/// character.
pub proof fn law_round_trip(doc: ParsedJson, s: Seq<char>, site: Site, text: Seq<char>)
    requires
        walk_document(s) == (Walked::Done { end: s.len() as int, site: Some(site) }),
        doc.is_parse_of(s, doc.key@, Some(site)),
        is_fresh(doc.key@, s),
        s.subrange(site.start, site.end) == quoted(text),
    ensures
        replace_all(doc.template@, doc.key@, text) == s,
        text_of_triple(doc.version.unwrap()@) == text ==> doc.emitted() == s,
{
    lemma_site_of_document(s);
    law_one_substitution_site(s, doc.key@, site, text);
    assert(s.subrange(0, site.start) + s.subrange(site.start, site.end) + s.subrange(
        site.end,
        s.len() as int,
    ) == s);
}

/// Writing a version out changes the version literal and nothing else:
/// whatever version the walked document holds by then, its canonical text
/// stands between double quotes where the literal stood.
pub proof fn law_emit_writes_in_place(doc: ParsedJson, s: Seq<char>, site: Site)
    requires
        walk_document(s) == (Walked::Done { end: s.len() as int, site: Some(site) }),
        doc.template@ == render(s, 0, s.len() as int, Some(site), doc.key@),
        doc.version is Some,
        is_fresh(doc.key@, s),
    ensures
        doc.emitted() == s.subrange(0, site.start) + quoted(
            text_of_triple(doc.version.unwrap()@),
        ) + s.subrange(site.end, s.len() as int),
{
    lemma_site_of_document(s);
    law_one_substitution_site(s, doc.key@, site, text_of_triple(doc.version.unwrap()@));
}

/// The version literal of a document lies within the document.
pub proof fn lemma_site_of_document(s: Seq<char>)
    ensures
        walk_document(s) matches Walked::Done { end, site } ==> end == s.len() && (
        site matches Some(at) ==> 0 <= at.start < at.end <= s.len()),
{
    lemma_walk_bounds(s, 0, 0, false);
    if let Walked::Done { end, site } = walk_value(s, 0, 0, false) {
        lemma_skip_whitespace(s, end);
    }
}

/// A `"version"` key below the outermost object is never lifted out: a value
/// inside an object or an array (`depth >= 1`), and an entry of an object
/// that is not the outermost (`depth >= 2`), are handed on as they stand.
pub proof fn law_nested_version_is_inert(
    s: Seq<char>,
    p: int,
    depth: nat,
    seen: bool,
    key: Seq<char>,
)
    requires
        0 <= p <= s.len(),
    ensures
        depth >= 1 ==> (walk_value(s, p, depth, seen) matches Walked::Done { end, site } ==> site
            is None && render(s, p, end, site, key) == s.subrange(p, end)),
        depth >= 1 ==> (walk_array(s, p, depth, seen) matches Walked::Done { end, site } ==> site
            is None && render(s, p, end, site, key) == s.subrange(p, end)),
        depth >= 2 ==> (walk_entry(s, p, depth, seen) matches Walked::Done { end, site } ==> site
            is None && render(s, p, end, site, key) == s.subrange(p, end)),
        depth >= 2 ==> (walk_object(s, p, depth, seen) matches Walked::Done { end, site } ==> site
            is None && render(s, p, end, site, key) == s.subrange(p, end)),
{
    lemma_walk_bounds(s, p, depth, seen);
}

/// Below the outermost object a walk does not depend on whether a version
/// was met before.
pub proof fn lemma_seen_is_irrelevant(s: Seq<char>, p: int, depth: nat, a: bool, b: bool)
    requires
        0 <= p <= s.len(),
    ensures
        depth >= 1 ==> walk_value(s, p, depth, a) == walk_value(s, p, depth, b),
        depth >= 1 ==> walk_array(s, p, depth, a) == walk_array(s, p, depth, b),
        depth >= 2 ==> walk_entry(s, p, depth, a) == walk_entry(s, p, depth, b),
        depth >= 2 ==> walk_object(s, p, depth, a) == walk_object(s, p, depth, b),
        depth >= 2 ==> walk_members(s, p, depth, a) == walk_members(s, p, depth, b),
{
    if depth >= 1 {
        lemma_value_ignores_seen(s, p, depth, a, b);
        lemma_array_ignores_seen(s, p, depth, a, b);
    }
    if depth >= 2 {
        lemma_entry_ignores_seen(s, p, depth, a, b);
        lemma_object_ignores_seen(s, p, depth, a, b);
        lemma_members_ignores_seen(s, p, depth, a, b);
    }
}

proof fn lemma_value_ignores_seen(s: Seq<char>, p: int, depth: nat, a: bool, b: bool)
    requires
        0 <= p <= s.len(),
        depth >= 1,
    ensures
        walk_value(s, p, depth, a) == walk_value(s, p, depth, b),
    decreases s.len() - p, 0nat,
{
    if p < s.len() {
        if s[p] == ' ' {
            lemma_value_ignores_seen(s, p + 1, depth, a, b);
        } else if s[p] == '{' {
            lemma_object_ignores_seen(s, p + 1, depth + 1, a, b);
        } else if s[p] == '[' {
            lemma_array_ignores_seen(s, p + 1, depth + 1, a, b);
        }
    }
}

proof fn lemma_entry_ignores_seen(s: Seq<char>, p: int, depth: nat, a: bool, b: bool)
    requires
        0 <= p <= s.len(),
        depth >= 2,
    ensures
        walk_entry(s, p, depth, a) == walk_entry(s, p, depth, b),
    decreases s.len() - p, 0nat,
{
    lemma_skip_whitespace(s, p);
    let quote = skip_whitespace(s, p);
    if quote < s.len() && s[quote] == '"' {
        lemma_string_end_bounds(s, quote + 1, false);
        if let Some(key_end) = string_end(s, quote + 1, false) {
            lemma_skip_whitespace(s, key_end);
            let colon = skip_whitespace(s, key_end);
            if colon < s.len() && s[colon] == ':' {
                lemma_skip_whitespace(s, colon + 1);
                let start = skip_whitespace(s, colon + 1);
                if start < s.len() {
                    lemma_value_ignores_seen(s, start, depth, a, b);
                }
            }
        }
    }
}

proof fn lemma_object_ignores_seen(s: Seq<char>, p: int, depth: nat, a: bool, b: bool)
    requires
        0 <= p <= s.len(),
        depth >= 2,
    ensures
        walk_object(s, p, depth, a) == walk_object(s, p, depth, b),
    decreases s.len() - p, 1nat,
{
    if p < s.len() && s[p] != '}' {
        lemma_entry_ignores_seen(s, p, depth, a, b);
        lemma_walk_bounds(s, p, depth, a);
        if let Walked::Done { end, site } = walk_entry(s, p, depth, a) {
            lemma_members_ignores_seen(s, end, depth, a, b);
        }
    }
}

proof fn lemma_members_ignores_seen(s: Seq<char>, p: int, depth: nat, a: bool, b: bool)
    requires
        0 <= p <= s.len(),
        depth >= 2,
    ensures
        walk_members(s, p, depth, a) == walk_members(s, p, depth, b),
    decreases s.len() - p, 1nat,
{
    if p < s.len() {
        if s[p] == ',' {
            lemma_entry_ignores_seen(s, p + 1, depth, a, b);
            lemma_walk_bounds(s, p + 1, depth, a);
            if let Walked::Done { end, site } = walk_entry(s, p + 1, depth, a) {
                lemma_members_ignores_seen(s, end, depth, a, b);
            }
        } else if s[p] != '}' && crate::grammar::is_whitespace(s[p]) {
            lemma_members_ignores_seen(s, p + 1, depth, a, b);
        }
    }
}

proof fn lemma_array_ignores_seen(s: Seq<char>, p: int, depth: nat, a: bool, b: bool)
    requires
        0 <= p <= s.len(),
        depth >= 1,
    ensures
        walk_array(s, p, depth, a) == walk_array(s, p, depth, b),
    decreases s.len() - p, 1nat,
{
    if p < s.len() {
        if s[p] == ']' {
        } else if s[p] == ',' || crate::grammar::is_whitespace(s[p]) {
            lemma_array_ignores_seen(s, p + 1, depth, a, b);
        } else {
            lemma_value_ignores_seen(s, p, depth, a, b);
            lemma_walk_bounds(s, p, depth, a);
            if let Walked::Done { end, site } = walk_value(s, p, depth, a) {
                if p < end <= s.len() {
                    lemma_array_ignores_seen(s, end, depth, a, b);
                }
            }
        }
    }
}

/// A second top-level version is refused: the entry that would be lifted
/// out as the version where none was met before fails with
/// `DuplicateVersion` where one was.
pub proof fn law_second_version_is_refused(s: Seq<char>, p: int)
    requires
        0 <= p <= s.len(),
    ensures
        walk_entry(s, p, 1, false) matches Walked::Done { end, site: Some(_) } ==> walk_entry(
            s,
            p,
            1,
            true,
        ) == Walked::Failed(Failure::DuplicateVersion),
        walk_entry(s, p, 1, true) matches Walked::Done { end, site } ==> site is None,
{
    lemma_walk_bounds(s, p, 1, true);
    lemma_walk_bounds(s, p, 1, false);
    lemma_skip_whitespace(s, p);
    let quote = skip_whitespace(s, p);
    if quote < s.len() && s[quote] == '"' {
        lemma_string_end_bounds(s, quote + 1, false);
        if let Some(key_end) = string_end(s, quote + 1, false) {
            lemma_skip_whitespace(s, key_end);
            let colon = skip_whitespace(s, key_end);
            if colon < s.len() && s[colon] == ':' {
                lemma_skip_whitespace(s, colon + 1);
                let start = skip_whitespace(s, colon + 1);
                if start < s.len() {
                    lemma_walk_bounds(s, start, 1, false);
                    lemma_seen_is_irrelevant(s, start, 1, false, true);
                }
            }
        }
    }
}

} // verus!
