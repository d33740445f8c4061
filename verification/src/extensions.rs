//! The extension allow-list as it is written on the command line: a
//! comma-separated list, cleaned to lower-case ASCII letters.

use vstd::prelude::*;
use crate::text::{
    all_lower, char_is_letter, char_lowercase, is_letter, is_lower, lowercase, texts,
};

verus! {

/// The segments of `text` between its commas, in order. A text without a
/// comma is one segment, and a comma at either end bounds an empty segment.
pub open spec fn split_commas(text: Seq<char>) -> Seq<Seq<char>>
    decreases text.len(),
{
    if text.len() == 0 {
        seq![Seq::<char>::empty()]
    } else {
        let before = split_commas(text.drop_last());
        if text.last() == ',' {
            before.push(Seq::<char>::empty())
        } else {
            before.drop_last().push(before.last().push(text.last()))
        }
    }
}

/// The segments joined again, with one comma between neighbours.
pub open spec fn join_commas(segments: Seq<Seq<char>>) -> Seq<char>
    decreases segments.len(),
{
    if segments.len() == 0 {
        Seq::<char>::empty()
    } else if segments.len() == 1 {
        segments[0]
    } else {
        join_commas(segments.drop_last()) + seq![','] + segments.last()
    }
}

/// The ASCII letters of `segment`, in order and in lower case.
pub open spec fn letters_lowercased(segment: Seq<char>) -> Seq<char> {
    segment.filter(|c: char| is_letter(c)).map_values(|c: char| lowercase(c))
}

/// The cleaned segments of `segments` that are not empty.
pub open spec fn cleaned(segments: Seq<Seq<char>>) -> Seq<Seq<char>> {
    segments.map_values(|s: Seq<char>| letters_lowercased(s)).filter(|s: Seq<char>| s.len() > 0)
}

/// `list` without its repetitions: every element that equals an earlier
/// one is dropped, so each stays once, at its first place.
pub open spec fn first_occurrences(list: Seq<Seq<char>>) -> Seq<Seq<char>>
    decreases list.len(),
{
    if list.len() == 0 {
        list
    } else {
        let earlier = list.drop_last();
        if earlier.contains(list.last()) {
            first_occurrences(earlier)
        } else {
            first_occurrences(earlier).push(list.last())
        }
    }
}

/// The extensions that `text` lists: its comma-separated segments, each
/// reduced to its ASCII letters in lower case, without the segments that
/// this leaves empty and without repetitions. The list is a set in the
/// order in which its members first occur.
pub open spec fn extension_list(text: Seq<char>) -> Seq<Seq<char>> {
    first_occurrences(cleaned(split_commas(text)))
}

/// A well-formed extension is a non-empty run of lower-case ASCII letters.
pub open spec fn is_extension(token: Seq<char>) -> bool {
    token.len() > 0 && all_lower(token)
}

/// A text always has at least one segment.
proof fn lemma_split_commas_len(text: Seq<char>)
    ensures
        split_commas(text).len() >= 1,
    decreases text.len(),
{
    if text.len() > 0 {
        lemma_split_commas_len(text.drop_last());
    }
}

/// Cleaning goes character by character: a letter is appended in lower
/// case, any other character is passed over.
proof fn lemma_letters_lowercased_push(segment: Seq<char>, c: char)
    ensures
        letters_lowercased(segment.push(c)) == if is_letter(c) {
            letters_lowercased(segment).push(lowercase(c))
        } else {
            letters_lowercased(segment)
        },
{
    segment.lemma_filter_push(c, |c: char| is_letter(c));
    if is_letter(c) {
        assert(letters_lowercased(segment.push(c)) =~= letters_lowercased(segment).push(
            lowercase(c),
        ));
    }
}

/// One more segment adds its cleaned form to the list, unless that is
/// empty.
proof fn lemma_cleaned_push(segments: Seq<Seq<char>>, last: Seq<char>)
    ensures
        cleaned(segments.push(last)) == if letters_lowercased(last).len() > 0 {
            cleaned(segments).push(letters_lowercased(last))
        } else {
            cleaned(segments)
        },
{
    let clean = |s: Seq<char>| letters_lowercased(s);
    assert(segments.push(last).map_values(clean) =~= segments.map_values(clean).push(
        letters_lowercased(last),
    ));
    segments.map_values(clean).lemma_filter_push(
        letters_lowercased(last),
        |s: Seq<char>| s.len() > 0,
    );
}

/// One more segment adds its cleaned form to the list without
/// repetitions, unless that form is empty or the list holds it already.
proof fn lemma_closed_push(segments: Seq<Seq<char>>, last: Seq<char>)
    ensures
        first_occurrences(cleaned(segments.push(last))) == {
            let closed = first_occurrences(cleaned(segments));
            let token = letters_lowercased(last);
            if token.len() == 0 || closed.contains(token) {
                closed
            } else {
                closed.push(token)
            }
        },
{
    lemma_cleaned_push(segments, last);
    let token = letters_lowercased(last);
    lemma_first_occurrences_contains(cleaned(segments), token);
    if token.len() > 0 {
        assert(cleaned(segments).push(token).drop_last() == cleaned(segments));
    }
}

/// Splitting loses nothing: the segments hold no comma, and joined with
/// commas they give the text back.
pub proof fn lemma_split_commas_joins(text: Seq<char>)
    ensures
        split_commas(text).len() >= 1,
        forall|i: int|
            0 <= i < split_commas(text).len() ==> !(#[trigger] split_commas(text)[i]).contains(','),
        join_commas(split_commas(text)) == text,
    decreases text.len(),
{
    if text.len() > 0 {
        let shorter = text.drop_last();
        let c = text.last();
        lemma_split_commas_joins(shorter);
        let before = split_commas(shorter);
        let after = split_commas(text);
        assert(text == shorter.push(c));
        if c == ',' {
            assert(after.drop_last() == before);
            assert(join_commas(after) =~= text);
            assert forall|i: int| 0 <= i < after.len() implies !(#[trigger] after[i]).contains(
                ',',
            ) by {
                if i < before.len() {
                    assert(after[i] == before[i]);
                }
            }
        } else {
            let grown = before.last().push(c);
            assert(after.last() == grown);
            assert(after.drop_last() == before.drop_last());
            if before.len() == 1 {
                assert(join_commas(after) =~= text);
            } else {
                assert(join_commas(after) =~= join_commas(before).push(c));
            }
            assert forall|i: int| 0 <= i < after.len() implies !(#[trigger] after[i]).contains(
                ',',
            ) by {
                if i < before.len() - 1 {
                    assert(after[i] == before[i]);
                } else {
                    assert(!before.last().contains(','));
                    if grown.contains(',') {
                        let k = choose|k: int| 0 <= k < grown.len() && grown[k] == ',';
                        assert(before.last()[k] == ',');
                    }
                }
            }
        }
    } else {
        assert forall|i: int| 0 <= i < split_commas(text).len() implies !(
        #[trigger] split_commas(text)[i]).contains(',') by {}
    }
}

/// A comma between two texts separates their segments.
pub proof fn lemma_split_commas_concat(left: Seq<char>, right: Seq<char>)
    ensures
        split_commas(left + seq![','] + right) == split_commas(left) + split_commas(right),
    decreases right.len(),
{
    let whole = left + seq![','] + right;
    if right.len() == 0 {
        assert(whole.drop_last() == left);
        assert(split_commas(whole) =~= split_commas(left) + split_commas(right));
    } else {
        let shorter = right.drop_last();
        lemma_split_commas_concat(left, shorter);
        lemma_split_commas_len(shorter);
        assert(whole.drop_last() == left + seq![','] + shorter);
        assert(whole.last() == right.last());
        assert(split_commas(whole) =~= split_commas(left) + split_commas(right));
    }
}

/// Every cleaned segment is made of lower-case ASCII letters.
pub proof fn lemma_letters_lowercased_all_lower(segment: Seq<char>)
    ensures
        all_lower(letters_lowercased(segment)),
{
    let letters = segment.filter(|c: char| is_letter(c));
    assert forall|i: int| 0 <= i < letters_lowercased(segment).len() implies is_lower(
        #[trigger] letters_lowercased(segment)[i],
    ) by {
        segment.lemma_filter_pred(|c: char| is_letter(c), i);
        assert(is_letter(letters[i]));
    }
}

/// Dropping repetitions drops no member: the list without repetitions
/// holds exactly what the list holds.
pub proof fn lemma_first_occurrences_contains(list: Seq<Seq<char>>, token: Seq<char>)
    ensures
        first_occurrences(list).contains(token) == list.contains(token),
    decreases list.len(),
{
    if list.len() > 0 {
        let earlier = list.drop_last();
        let last = list.last();
        lemma_first_occurrences_contains(earlier, token);
        lemma_first_occurrences_contains(earlier, last);
        let kept = first_occurrences(list);
        if list.contains(token) {
            let i = choose|i: int| 0 <= i < list.len() && list[i] == token;
            if i < earlier.len() {
                assert(earlier[i] == token);
                assert(earlier.contains(token));
                let k = choose|k: int|
                    0 <= k < first_occurrences(earlier).len() && first_occurrences(earlier)[k]
                        == token;
                assert(kept[k] == token);
            } else if earlier.contains(last) {
                let k = choose|k: int|
                    0 <= k < first_occurrences(earlier).len() && first_occurrences(earlier)[k]
                        == last;
                assert(kept[k] == token);
            } else {
                assert(kept[kept.len() - 1] == token);
            }
        }
        if kept.contains(token) {
            let k = choose|k: int| 0 <= k < kept.len() && kept[k] == token;
            if k < first_occurrences(earlier).len() {
                assert(first_occurrences(earlier)[k] == token);
                assert(first_occurrences(earlier).contains(token));
                let i = choose|i: int| 0 <= i < earlier.len() && earlier[i] == token;
                assert(list[i] == token);
            } else {
                assert(list[list.len() - 1] == token);
            }
        }
    }
}

/// Nothing occurs twice in a list without repetitions.
pub proof fn lemma_first_occurrences_no_duplicates(list: Seq<Seq<char>>)
    ensures
        first_occurrences(list).no_duplicates(),
    decreases list.len(),
{
    if list.len() > 0 {
        let earlier = list.drop_last();
        lemma_first_occurrences_no_duplicates(earlier);
        lemma_first_occurrences_contains(earlier, list.last());
        let kept = first_occurrences(list);
        if !earlier.contains(list.last()) {
            assert forall|i: int, j: int|
                0 <= i < kept.len() && 0 <= j < kept.len() && i != j implies kept[i] != kept[j] by {
                let before = first_occurrences(earlier);
                if i < before.len() && j < before.len() {
                    assert(before[i] != before[j]);
                } else if i < before.len() {
                    assert(before.contains(before[i]));
                } else {
                    assert(before.contains(before[j]));
                }
            }
        }
    }
}

/// A list in which nothing occurs twice has no repetitions to drop.
pub proof fn lemma_first_occurrences_of_distinct(list: Seq<Seq<char>>)
    requires
        list.no_duplicates(),
    ensures
        first_occurrences(list) == list,
    decreases list.len(),
{
    if list.len() > 0 {
        let earlier = list.drop_last();
        assert forall|i: int, j: int|
            0 <= i < earlier.len() && 0 <= j < earlier.len() && i != j implies earlier[i]
            != earlier[j] by {
            assert(earlier[i] == list[i] && earlier[j] == list[j]);
        }
        lemma_first_occurrences_of_distinct(earlier);
        if earlier.contains(list.last()) {
            let i = choose|i: int| 0 <= i < earlier.len() && earlier[i] == list.last();
            assert(list[i] == list[list.len() - 1]);
        }
        assert(earlier.push(list.last()) =~= list);
    }
}

/// Repetitions are dropped in order: of two lists in a row, the first
/// keeps its first occurrences, and the second keeps those of its first
/// occurrences that the first list does not hold.
pub proof fn lemma_first_occurrences_concat(left: Seq<Seq<char>>, right: Seq<Seq<char>>)
    ensures
        first_occurrences(left + right) == first_occurrences(left) + first_occurrences(
            right,
        ).filter(|t: Seq<char>| !left.contains(t)),
    decreases right.len(),
{
    let fresh = |t: Seq<char>| !left.contains(t);
    if right.len() == 0 {
        assert(left + right =~= left);
        assert(first_occurrences(right).filter(fresh) =~= Seq::<Seq<char>>::empty()) by {
            reveal(Seq::filter);
        }
        assert(first_occurrences(left) + Seq::<Seq<char>>::empty() =~= first_occurrences(left));
    } else {
        let shorter = right.drop_last();
        let last = right.last();
        lemma_first_occurrences_concat(left, shorter);
        assert((left + right).drop_last() =~= left + shorter);
        assert((left + right).last() == last);
        first_occurrences(shorter).lemma_filter_push(last, fresh);
        if shorter.contains(last) {
            let i = choose|i: int| 0 <= i < shorter.len() && shorter[i] == last;
            assert((left + shorter)[left.len() + i] == last);
        } else if left.contains(last) {
            let i = choose|i: int| 0 <= i < left.len() && left[i] == last;
            assert((left + shorter)[i] == last);
        } else {
            if (left + shorter).contains(last) {
                let i = choose|i: int| 0 <= i < (left + shorter).len() && (left + shorter)[i] == last;
                if i < left.len() {
                    assert(left[i] == last);
                } else {
                    assert(shorter[i - left.len()] == last);
                }
            }
            assert(first_occurrences(left) + first_occurrences(shorter).filter(fresh).push(last)
                =~= (first_occurrences(left) + first_occurrences(shorter).filter(fresh)).push(
                last,
            ));
        }
    }
}

/// The cleaned segments are non-empty runs of lower-case ASCII letters.
proof fn lemma_cleaned_tokens(segments: Seq<Seq<char>>)
    ensures
        forall|i: int| 0 <= i < cleaned(segments).len() ==> is_extension(#[trigger] cleaned(segments)[i]),
{
    let mapped = segments.map_values(|s: Seq<char>| letters_lowercased(s));
    let list = cleaned(segments);
    assert forall|i: int| 0 <= i < list.len() implies is_extension(#[trigger] list[i]) by {
        mapped.lemma_filter_pred(|s: Seq<char>| s.len() > 0, i);
        assert(list.contains(list[i]));
        mapped.lemma_filter_contains_rev(|s: Seq<char>| s.len() > 0, list[i]);
        let j = choose|j: int| 0 <= j < mapped.len() && mapped[j] == list[i];
        lemma_letters_lowercased_all_lower(segments[j]);
    }
}

/// The tokens of an extension list are non-empty runs of lower-case ASCII
/// letters, whatever case and whatever other characters the text holds,
/// and none of them occurs twice.
pub proof fn lemma_extension_list_tokens(text: Seq<char>)
    ensures
        forall|i: int|
            0 <= i < extension_list(text).len() ==> is_extension(#[trigger] extension_list(text)[i]),
        extension_list(text).no_duplicates(),
{
    let all = cleaned(split_commas(text));
    let list = extension_list(text);
    lemma_first_occurrences_no_duplicates(all);
    lemma_cleaned_tokens(split_commas(text));
    assert forall|i: int| 0 <= i < list.len() implies is_extension(#[trigger] list[i]) by {
        assert(list.contains(list[i]));
        lemma_first_occurrences_contains(all, list[i]);
        let j = choose|j: int| 0 <= j < all.len() && all[j] == list[i];
        assert(is_extension(all[j]));
    }
}

/// The tokens keep the order of the text: what is listed before a comma
/// comes before what is listed behind it, and what is listed behind it
/// stays only where it was not listed before.
pub proof fn lemma_extension_list_concat(left: Seq<char>, right: Seq<char>)
    ensures
        extension_list(left + seq![','] + right) == extension_list(left) + extension_list(
            right,
        ).filter(|t: Seq<char>| !extension_list(left).contains(t)),
{
    lemma_split_commas_concat(left, right);
    let a = split_commas(left);
    let b = split_commas(right);
    let clean = |s: Seq<char>| letters_lowercased(s);
    assert((a + b).map_values(clean) =~= a.map_values(clean) + b.map_values(clean));
    Seq::filter_distributes_over_add(
        a.map_values(clean),
        b.map_values(clean),
        |s: Seq<char>| s.len() > 0,
    );
    assert(cleaned(a + b) == cleaned(a) + cleaned(b));
    lemma_first_occurrences_concat(cleaned(a), cleaned(b));
    let in_cleaned = |t: Seq<char>| !cleaned(a).contains(t);
    let in_list = |t: Seq<char>| !extension_list(left).contains(t);
    assert forall|t: Seq<char>| #[trigger] in_cleaned(t) == in_list(t) by {
        lemma_first_occurrences_contains(cleaned(a), t);
    }
    assert(in_cleaned =~= in_list);
}

/// A text of lower-case letters alone lists itself.
pub proof fn lemma_extension_list_single(token: Seq<char>)
    requires
        is_extension(token),
    ensures
        extension_list(token) == seq![token],
    decreases token.len(),
{
    lemma_split_commas_plain(token);
    lemma_letters_lowercased_plain(token);
    let mapped = seq![token].map_values(|s: Seq<char>| letters_lowercased(s));
    assert(mapped =~= Seq::<Seq<char>>::empty().push(token));
    Seq::<Seq<char>>::empty().lemma_filter_push(token, |s: Seq<char>| s.len() > 0);
    assert(Seq::<Seq<char>>::empty().filter(|s: Seq<char>| s.len() > 0) =~= Seq::<
        Seq<char>,
    >::empty()) by {
        reveal(Seq::filter);
    }
    assert(Seq::<Seq<char>>::empty().push(token) =~= seq![token]);
    assert(cleaned(split_commas(token)) == seq![token]);
    lemma_first_occurrences_of_distinct(seq![token]);
}

/// A text without a comma is its own single segment.
proof fn lemma_split_commas_plain(text: Seq<char>)
    requires
        !text.contains(','),
    ensures
        split_commas(text) == seq![text],
    decreases text.len(),
{
    if text.len() > 0 {
        let shorter = text.drop_last();
        assert(text.last() == text[text.len() - 1]);
        assert forall|i: int| 0 <= i < shorter.len() implies shorter[i] != ',' by {
            assert(shorter[i] == text[i]);
        }
        lemma_split_commas_plain(shorter);
        assert(text == shorter.push(text.last()));
        assert(text.last() != ',');
        assert(seq![shorter].drop_last().push(seq![shorter].last().push(text.last())) =~= seq![
            text,
        ]);
    } else {
        assert(text =~= Seq::<char>::empty());
        assert(split_commas(text) =~= seq![text]);
    }
}

/// Cleaning changes nothing in a run of lower-case letters.
proof fn lemma_letters_lowercased_plain(token: Seq<char>)
    requires
        all_lower(token),
    ensures
        letters_lowercased(token) == token,
    decreases token.len(),
{
    if token.len() > 0 {
        let shorter = token.drop_last();
        lemma_letters_lowercased_plain(shorter);
        assert(token == shorter.push(token.last()));
        lemma_letters_lowercased_push(shorter, token.last());
    } else {
        assert(letters_lowercased(token) =~= token) by {
            reveal(Seq::filter);
        }
    }
}

/// Tests whether `list` holds `token`.
fn holds(list: &Vec<String>, token: &String) -> (r: bool)
    ensures
        r == texts(list@).contains(token@),
{
    let mut i: usize = 0;
    while i < list.len()
        invariant
            i <= list.len(),
            forall|k: int| 0 <= k < i ==> texts(list@)[k] != token@,
        decreases list.len() - i,
    {
        if list[i] == *token {
            assert(texts(list@)[i as int] == token@);
            return true;
        }
        i = i + 1;
    }
    false
}

/// Appends `token` to `list` unless the list holds it already.
fn push_once(list: &mut Vec<String>, token: String)
    ensures
        texts(final(list)@) == if texts(old(list)@).contains(token@) {
            texts(old(list)@)
        } else {
            texts(old(list)@).push(token@)
        },
{
    if !holds(list, &token) {
        list.push(token);
        assert(texts(list@) =~= texts(old(list)@).push(token@));
    }
}

/// Reads the extensions that `text` lists: each once, in lower case, in the
/// order in which they first occur.
pub fn parse_extension_list(text: &str) -> (list: Vec<String>)
    ensures
        texts(list@) == extension_list(text@),
        texts(list@).no_duplicates(),
        forall|i: int| 0 <= i < list.len() ==> is_extension(#[trigger] list[i]@),
{
    let mut list: Vec<String> = Vec::new();
    let mut current = String::new();
    proof {
        assert(split_commas(text@.take(0)).drop_last() =~= Seq::<Seq<char>>::empty());
        assert(cleaned(Seq::<Seq<char>>::empty()) =~= Seq::<Seq<char>>::empty()) by {
            reveal(Seq::filter);
        }
        assert(texts(list@) =~= first_occurrences(Seq::<Seq<char>>::empty()));
        assert(letters_lowercased(Seq::<char>::empty()) =~= Seq::<char>::empty()) by {
            reveal(Seq::filter);
        }
    }
    for c in it: text.chars()
        invariant
            it.seq() == text@,
            texts(list@) == first_occurrences(
                cleaned(split_commas(text@.take(it.index())).drop_last()),
            ),
            current@ == letters_lowercased(split_commas(text@.take(it.index())).last()),
    {
        proof {
            let seen = text@.take(it.index());
            assert(text@.take(it.index() + 1) == seen.push(c));
            assert(seen.push(c).drop_last() == seen);
            lemma_split_commas_len(seen);
            let before = split_commas(seen);
            if c == ',' {
                assert(before.push(Seq::<char>::empty()).drop_last() == before);
                assert(before == before.drop_last().push(before.last()));
                lemma_closed_push(before.drop_last(), before.last());
                assert(letters_lowercased(Seq::<char>::empty()) =~= Seq::<char>::empty()) by {
                    reveal(Seq::filter);
                }
            } else {
                assert(before.drop_last().push(before.last().push(c)).drop_last()
                    == before.drop_last());
                lemma_letters_lowercased_push(before.last(), c);
            }
        }
        if c == ',' {
            if !current.as_str().is_empty() {
                push_once(&mut list, current);
            }
            current = String::new();
        } else if char_is_letter(c) {
            current.push(char_lowercase(c));
        }
    }
    proof {
        assert(text@.take(text@.len() as int) == text@);
        let all = split_commas(text@);
        lemma_split_commas_len(text@);
        assert(all == all.drop_last().push(all.last()));
        lemma_closed_push(all.drop_last(), all.last());
    }
    if !current.as_str().is_empty() {
        push_once(&mut list, current);
    }
    proof {
        lemma_extension_list_tokens(text@);
        assert forall|i: int| 0 <= i < list.len() implies is_extension(#[trigger] list[i]@) by {
            assert(texts(list@)[i] == list[i]@);
            assert(is_extension(extension_list(text@)[i]));
        }
    }
    list
}

} // verus!
