//! The option vocabulary: the closed table of tokens that the resolver accepts
//! as flags, each with the effect it has on the configuration.

use vstd::prelude::*;
use crate::output::FORMAT;

verus! {

/// The effect of a recognized option token.
#[derive(Debug, Clone, Copy, PartialEq, Eq)]
pub enum Flag {
    /// The next argument is the list of extensions to keep.
    Filter,
    /// Result lines are rendered in this format.
    Format(FORMAT),
    /// Directories are searched with their subdirectories.
    Recursive,
    /// Only the help text is wanted.
    Help,
}

/// One row of the vocabulary: a token and what it stands for.
#[derive(Debug, PartialEq, Eq)]
pub struct OptionEntry {
    pub token: String,
    pub flag: Flag,
}

/// The table of recognized option tokens. Matching is exact, so two tokens
/// that differ only in case are different tokens; where a token occurs in
/// several rows, the first row decides.
#[derive(Debug, PartialEq, Eq)]
pub struct Vocabulary {
    pub entries: Vec<OptionEntry>,
}

/// A token counts as an option when it begins with a hyphen.
pub open spec fn is_option(token: Seq<char>) -> bool {
    token.len() > 0 && token[0] == '-'
}

/// The flag that `table` gives to `token`: that of the first row whose token
/// equals it, if there is such a row.
pub open spec fn lookup(table: Seq<(Seq<char>, Flag)>, token: Seq<char>) -> Option<Flag>
    decreases table.len(),
{
    if table.len() == 0 {
        None
    } else if table[0].0 == token {
        Some(table[0].1)
    } else {
        lookup(table.drop_first(), token)
    }
}

/// The tokens of the command line and their effects.
pub open spec fn standard_table() -> Seq<(Seq<char>, Flag)> {
    seq![
        ("-f"@, Flag::Filter),
        ("--filter"@, Flag::Filter),
        ("--format=DEFAULT"@, Flag::Format(FORMAT::Default)),
        ("--format=BULLET"@, Flag::Format(FORMAT::Bullet)),
        ("--format=MARKDOWN"@, Flag::Format(FORMAT::Markdown)),
        ("--format=NUMERIC"@, Flag::Format(FORMAT::Numeric)),
        ("-r"@, Flag::Recursive),
        ("--recursive"@, Flag::Recursive),
        ("-h"@, Flag::Help),
        ("--help"@, Flag::Help),
    ]
}

/// Where a token stands in several rows the first one decides: where the
/// row at `at` holds `token` and no row before it does, the flag of that
/// row is found.
pub proof fn lemma_lookup_first_row(table: Seq<(Seq<char>, Flag)>, token: Seq<char>, at: int)
    requires
        0 <= at < table.len(),
        table[at].0 == token,
        forall|j: int| 0 <= j < at ==> (#[trigger] table[j]).0 != token,
    ensures
        lookup(table, token) == Some(table[at].1),
    decreases at,
{
    if at > 0 {
        let rest = table.drop_first();
        assert(table[0].0 != token);
        assert(rest[at - 1] == table[at]);
        assert forall|j: int| 0 <= j < at - 1 implies (#[trigger] rest[j]).0 != token by {
            assert(rest[j] == table[j + 1]);
        }
        lemma_lookup_first_row(rest, token, at - 1);
    }
}

/// A token that no row holds is not found. Matching is exact, so a token
/// that differs from every row, if only in case, is unknown.
pub proof fn lemma_lookup_absent(table: Seq<(Seq<char>, Flag)>, token: Seq<char>)
    requires
        forall|j: int| 0 <= j < table.len() ==> (#[trigger] table[j]).0 != token,
    ensures
        lookup(table, token) is None,
    decreases table.len(),
{
    if table.len() > 0 {
        let rest = table.drop_first();
        assert(table[0].0 != token);
        assert forall|j: int| 0 <= j < rest.len() implies (#[trigger] rest[j]).0 != token by {
            assert(rest[j] == table[j + 1]);
        }
        lemma_lookup_absent(rest, token);
    }
}

/// Every token of the standard table begins with a hyphen, so each of them
/// is read as an option.
pub proof fn lemma_standard_tokens_are_options()
    ensures
        standard_table().len() == 10,
        forall|i: int|
            0 <= i < standard_table().len() ==> is_option((#[trigger] standard_table()[i]).0),
{
    reveal_strlit("-f");
    reveal_strlit("--filter");
    reveal_strlit("--format=DEFAULT");
    reveal_strlit("--format=BULLET");
    reveal_strlit("--format=MARKDOWN");
    reveal_strlit("--format=NUMERIC");
    reveal_strlit("-r");
    reveal_strlit("--recursive");
    reveal_strlit("-h");
    reveal_strlit("--help");
}

impl View for Vocabulary {
    type V = Seq<(Seq<char>, Flag)>;

    open spec fn view(&self) -> Seq<(Seq<char>, Flag)> {
        Seq::new(self.entries.len() as nat, |i: int| (self.entries[i].token@, self.entries[i].flag))
    }
}

/// Tests whether `token` begins with a hyphen.
pub fn token_is_option(token: &str) -> (r: bool)
    ensures
        r == is_option(token@),
{
    if token.is_empty() {
        false
    } else {
        token.get_char(0) == '-'
    }
}

impl Vocabulary {
    /// An empty vocabulary, to which rows are added with `with`.
    pub fn new() -> (r: Vocabulary)
        ensures
            r@ == Seq::<(Seq<char>, Flag)>::empty(),
    {
        let r = Vocabulary { entries: Vec::new() };
        assert(r@ =~= Seq::<(Seq<char>, Flag)>::empty());
        r
    }

    /// The vocabulary with one more row at its end.
    pub fn with(self, token: &str, flag: Flag) -> (r: Vocabulary)
        ensures
            r@ == self@.push((token@, flag)),
    {
        let mut entries = self.entries;
        entries.push(OptionEntry { token: token.to_owned(), flag });
        let r = Vocabulary { entries };
        assert(r@ =~= self@.push((token@, flag)));
        r
    }

    /// The vocabulary of the command line.
    pub fn standard() -> (r: Vocabulary)
        ensures
            r@ == standard_table(),
    {
        let r = Vocabulary::new()
            .with("-f", Flag::Filter)
            .with("--filter", Flag::Filter)
            .with("--format=DEFAULT", Flag::Format(FORMAT::Default))
            .with("--format=BULLET", Flag::Format(FORMAT::Bullet))
            .with("--format=MARKDOWN", Flag::Format(FORMAT::Markdown))
            .with("--format=NUMERIC", Flag::Format(FORMAT::Numeric))
            .with("-r", Flag::Recursive)
            .with("--recursive", Flag::Recursive)
            .with("-h", Flag::Help)
            .with("--help", Flag::Help);
        assert(r@ =~= standard_table());
        r
    }

    /// Looks `token` up in the table.
    pub fn lookup(&self, token: &String) -> (r: Option<Flag>)
        ensures
            r == lookup(self@, token@),
    {
        let mut i: usize = 0;
        assert(self@.skip(0) == self@);
        while i < self.entries.len()
            invariant
                i <= self.entries.len(),
                lookup(self@, token@) == lookup(self@.skip(i as int), token@),
            decreases self.entries.len() - i,
        {
            assert(self@.skip(i as int)[0] == self@[i as int]);
            assert(self@.skip(i as int).drop_first() == self@.skip(i as int + 1));
            if self.entries[i].token == *token {
                return Some(self.entries[i].flag);
            }
            i = i + 1;
        }
        None
    }
}

} // verus!
