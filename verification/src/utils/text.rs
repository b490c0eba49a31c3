//! Looking into text, character by character.

use vstd::prelude::*;

verus! {

/// `text` begins with `prefix`.
pub open spec fn is_prefix(prefix: Seq<char>, text: Seq<char>) -> bool {
    prefix.len() <= text.len() && text.take(prefix.len() as int) == prefix
}

/// `text` ends with `suffix`.
pub open spec fn is_suffix(suffix: Seq<char>, text: Seq<char>) -> bool {
    suffix.len() <= text.len() && text.skip(text.len() - suffix.len()) == suffix
}

/// The text after the first `separator` of `text`; `None` where there is no `separator`.
pub open spec fn after_first(text: Seq<char>, separator: char) -> Option<Seq<char>>
    decreases text.len(),
{
    if text.len() == 0 {
        None
    } else if text[0] == separator {
        Some(text.skip(1))
    } else {
        after_first(text.skip(1), separator)
    }
}

/// Skipping what stands before the first `separator` changes nothing of what comes after it.
pub proof fn lemma_after_first_skip(text: Seq<char>, separator: char, n: int)
    requires
        0 <= n <= text.len(),
        forall|i: int| 0 <= i < n ==> text[i] != separator,
    ensures
        after_first(text, separator) == after_first(text.skip(n), separator),
    decreases n,
{
    if n == 0 {
        assert(text.skip(0) =~= text);
    } else {
        lemma_after_first_skip(text.skip(1), separator, n - 1);
        assert(text.skip(1).skip(n - 1) =~= text.skip(n));
    }
}

/// Says whether `text` begins with `prefix`, as `str::starts_with` does.
pub fn starts_with(text: &str, prefix: &str) -> (found: bool)
    ensures
        found == is_prefix(prefix@, text@),
{
    let length = prefix.unicode_len();
    if length > text.unicode_len() {
        return false;
    }
    let mut at: usize = 0;
    while at < length
        invariant
            at <= length,
            length == prefix@.len(),
            length <= text@.len(),
            forall|i: int| 0 <= i < at ==> text@[i] == prefix@[i],
        decreases length - at,
    {
        if text.get_char(at) != prefix.get_char(at) {
            return false;
        }
        at = at + 1;
    }
    assert(text@.take(length as int) =~= prefix@);
    true
}

/// Says whether `text` ends with `suffix`, as `str::ends_with` does.
pub fn ends_with(text: &str, suffix: &str) -> (found: bool)
    ensures
        found == is_suffix(suffix@, text@),
{
    let length = suffix.unicode_len();
    let whole = text.unicode_len();
    if length > whole {
        return false;
    }
    let offset = whole - length;
    let mut at: usize = 0;
    while at < length
        invariant
            at <= length,
            length == suffix@.len(),
            whole == text@.len(),
            offset == whole - length,
            forall|i: int| 0 <= i < at ==> text@[offset + i] == suffix@[i],
        decreases length - at,
    {
        if text.get_char(offset + at) != suffix.get_char(at) {
            return false;
        }
        at = at + 1;
    }
    assert(text@.skip(offset as int) =~= suffix@);
    true
}

/// The text after the first `separator` of `text`.
pub fn split_after<'a>(text: &'a str, separator: char) -> (rest: Option<&'a str>)
    ensures
        match rest {
            Some(rest) => after_first(text@, separator) == Some(rest@),
            None => after_first(text@, separator) is None,
        },
{
    let length = text.unicode_len();
    let mut at: usize = 0;
    while at < length
        invariant
            at <= length,
            length == text@.len(),
            forall|i: int| 0 <= i < at ==> text@[i] != separator,
        decreases length - at,
    {
        if text.get_char(at) == separator {
            proof {
                lemma_after_first_skip(text@, separator, at as int);
                assert(text@.skip(at as int).skip(1) =~= text@.subrange(
                    at + 1,
                    length as int,
                ));
            }
            return Some(text.substring_char(at + 1, length));
        }
        at = at + 1;
    }
    proof {
        lemma_after_first_skip(text@, separator, length as int);
    }
    None
}

} // verus!
