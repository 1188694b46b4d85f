//! Character sequences: conversions between strings and vectors of
//! characters, and the few sequence operations the walker is built on.

use vstd::prelude::*;
use vstd::std_specs::iter::IteratorSpec;
use vstd::string::StringExecFns;

verus! {

/// `String::push` appends one character to the end of the string.
pub assume_specification[ String::push ](s: &mut String, c: char)
    ensures
        final(s)@ == old(s)@.push(c),
;

/// The characters of `s`, in order.
pub fn chars_of(s: &str) -> (chars: Vec<char>)
    ensures
        chars@ == s@,
{
    let mut chars: Vec<char> = Vec::new();
    let it = s.chars();
    for c in iter: it
        invariant
            chars@ == iter.seq().take(iter.index()),
            iter.seq() == s@,
    {
        chars.push(c);
    }
    chars
}

/// The text made of `chars[from..to]`.
pub fn text_of(chars: &Vec<char>, from: usize, to: usize) -> (text: String)
    requires
        from <= to <= chars.len(),
    ensures
        text@ == chars@.subrange(from as int, to as int),
{
    let mut text = String::new();
    let mut i: usize = from;
    while i < to
        invariant
            from <= i <= to <= chars.len(),
            text@ == chars@.subrange(from as int, i as int),
        decreases to - i,
    {
        text.push(chars[i]);
        i += 1;
    }
    text
}

/// Whether two texts are the same.
pub fn same_text(a: &str, b: &str) -> (r: bool)
    ensures
        r == (a@ == b@),
{
    String::from_str(a) == String::from_str(b)
}

/// Whether `pattern` stands in `s` at index `i`.
pub open spec fn occurs_at(s: Seq<char>, pattern: Seq<char>, i: int) -> bool {
    0 <= i && i + pattern.len() <= s.len() && s.subrange(i, i + pattern.len()) == pattern
}

/// Whether `pattern` stands anywhere in `s`.
pub open spec fn occurs_in(s: Seq<char>, pattern: Seq<char>) -> bool {
    exists|i: int| occurs_at(s, pattern, i)
}

/// `s` with `to` in the place of every `from`, read from the left: where
/// `from` stands, `to` is written and the reading goes on behind it; where it
/// does not, one character is kept. An empty `from` stands before every
/// character and at the end.
pub open spec fn replace_all(s: Seq<char>, from: Seq<char>, to: Seq<char>) -> Seq<char>
    decreases s.len(),
{
    if s.len() == 0 {
        if from.len() == 0 {
            to
        } else {
            s
        }
    } else if from.len() == 0 {
        to + seq![s[0]] + replace_all(s.drop_first(), from, to)
    } else if occurs_at(s, from, 0) {
        to + replace_all(s.subrange(from.len() as int, s.len() as int), from, to)
    } else {
        seq![s[0]] + replace_all(s.drop_first(), from, to)
    }
}

/// Whether `pattern` stands in `text` at index `i`.
fn stands_at(text: &Vec<char>, pattern: &Vec<char>, i: usize) -> (r: bool)
    requires
        i <= text.len(),
    ensures
        r == occurs_at(text@, pattern@, i as int),
{
    if pattern.len() > text.len() - i {
        return false;
    }
    let ghost part = text@.subrange(i as int, i + pattern.len());
    let mut j: usize = 0;
    while j < pattern.len()
        invariant
            j <= pattern.len(),
            i + pattern.len() <= text.len(),
            part == text@.subrange(i as int, i + pattern.len()),
            forall|k: int| 0 <= k < j ==> part[k] == pattern@[k],
        decreases pattern.len() - j,
    {
        if text[i + j] != pattern[j] {
            assert(part[j as int] != pattern@[j as int]);
            return false;
        }
        j += 1;
    }
    assert(part =~= pattern@);
    true
}

/// `s` with `to` in the place of every `from`, as `str::replace` gives it.
pub fn replace(s: &str, from: &str, to: &str) -> (r: String)
    ensures
        r@ == replace_all(s@, from@, to@),
{
    let text = chars_of(s);
    let pattern = chars_of(from);
    let mut out = String::new();
    let mut i: usize = 0;
    assert(text@.skip(0) == text@);
    while i < text.len()
        invariant
            i <= text.len(),
            text@ == s@,
            pattern@ == from@,
            out@ + replace_all(text@.skip(i as int), from@, to@) == replace_all(s@, from@, to@),
        decreases text.len() - i,
    {
        let ghost rest = text@.skip(i as int);
        let ghost before = out@;
        if pattern.len() == 0 {
            assert(rest.drop_first() == text@.skip(i + 1));
            out.append(to);
            out.push(text[i]);
            i += 1;
            assert(out@ + replace_all(text@.skip(i as int), from@, to@) =~= before + replace_all(
                rest,
                from@,
                to@,
            ));
        } else if stands_at(&text, &pattern, i) {
            assert(rest.subrange(0, pattern.len() as int) == text@.subrange(
                i as int,
                i + pattern.len(),
            ));
            assert(rest.subrange(pattern.len() as int, rest.len() as int) == text@.skip(
                i + pattern.len(),
            ));
            out.append(to);
            i += pattern.len();
            assert(out@ + replace_all(text@.skip(i as int), from@, to@) =~= before + replace_all(
                rest,
                from@,
                to@,
            ));
        } else {
            proof {
                if pattern.len() <= rest.len() {
                    assert(rest.subrange(0, pattern.len() as int) == text@.subrange(
                        i as int,
                        i + pattern.len(),
                    ));
                }
                assert(rest.drop_first() == text@.skip(i + 1));
            }
            out.push(text[i]);
            i += 1;
            assert(out@ + replace_all(text@.skip(i as int), from@, to@) =~= before + replace_all(
                rest,
                from@,
                to@,
            ));
        }
    }
    if pattern.len() == 0 {
        out.append(to);
    }
    out
}

} // verus!
