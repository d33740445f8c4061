//! Characters and strings as the rest of the crate reads them: ASCII
//! classification, case folding, and the view of a list of strings.

use vstd::prelude::*;

verus! {

/// `c` is one of `A` to `Z`.
pub open spec fn is_upper(c: char) -> bool {
    'A' <= c && c <= 'Z'
}

/// `c` is one of `a` to `z`.
pub open spec fn is_lower(c: char) -> bool {
    'a' <= c && c <= 'z'
}

/// `c` is an ASCII letter of either case.
pub open spec fn is_letter(c: char) -> bool {
    is_upper(c) || is_lower(c)
}

/// The lower-case form of `c`: upper-case ASCII letters move to their
/// lower-case partner, every other character stays as it is.
pub open spec fn lowercase(c: char) -> char {
    if is_upper(c) {
        ((c as u8) + 32) as char
    } else {
        c
    }
}

/// `lowercase` applied to every character of `s`.
pub open spec fn lowercase_seq(s: Seq<char>) -> Seq<char> {
    Seq::new(s.len(), |i: int| lowercase(s[i]))
}

/// Every character of `s` is a lower-case ASCII letter.
pub open spec fn all_lower(s: Seq<char>) -> bool {
    forall|i: int| 0 <= i < s.len() ==> is_lower(#[trigger] s[i])
}

/// The character sequences that the strings of `list` hold.
pub open spec fn texts(list: Seq<String>) -> Seq<Seq<char>> {
    list.map_values(|s: String| s@)
}

/// Tests whether `c` is an ASCII letter.
pub fn char_is_letter(c: char) -> (r: bool)
    ensures
        r == is_letter(c),
{
    ('A' <= c && c <= 'Z') || ('a' <= c && c <= 'z')
}

/// Folds an upper-case ASCII letter to lower case.
pub fn char_lowercase(c: char) -> (r: char)
    ensures
        r == lowercase(c),
{
    if 'A' <= c && c <= 'Z' {
        let code: u8 = c as u8;
        let folded: u8 = code + 32;
        folded as char
    } else {
        c
    }
}

/// The text with its upper-case ASCII letters folded to lower case.
pub fn to_lowercase(text: &str) -> (folded: String)
    ensures
        folded@ == lowercase_seq(text@),
{
    let mut folded = String::new();
    for c in it: text.chars()
        invariant
            it.seq() == text@,
            folded@ == lowercase_seq(text@.take(it.index())),
    {
        assert(text@.take(it.index() + 1) == text@.take(it.index()).push(c));
        folded.push(char_lowercase(c));
        assert(folded@ =~= lowercase_seq(text@.take(it.index() + 1)));
    }
    assert(text@.take(text@.len() as int) == text@);
    folded
}

/// Folding a letter gives a lower-case letter, and folding twice changes
/// nothing more.
pub proof fn lemma_lowercase_of_letter(c: char)
    ensures
        is_letter(c) ==> is_lower(lowercase(c)),
        is_lower(c) ==> lowercase(c) == c,
        lowercase(lowercase(c)) == lowercase(c),
{
}

} // verus!
