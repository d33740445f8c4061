//! Rendering of result lines.

use vstd::prelude::*;
use vstd::string::StringExecFns;

verus! {

/// How the result lines of a directory run are prefixed.
#[derive(Debug, Clone, Copy, PartialEq, Eq)]
pub enum FORMAT {
    /// No prefix.
    Default,
    /// An asterisk and a tab.
    Bullet,
    /// A hyphen and a tab.
    Markdown,
    /// The running index, `.)` and a tab.
    Numeric,
}

/// The character of the decimal digit `d`.
pub open spec fn digit(d: nat) -> char
    recommends
        d < 10,
{
    (48 + d) as char
}

/// `n` written in decimal, without sign or leading zero.
pub open spec fn decimal(n: nat) -> Seq<char>
    decreases n,
{
    if n < 10 {
        seq![digit(n)]
    } else {
        decimal(n / 10).push(digit(n % 10))
    }
}

/// What stands in front of a result line in `format`, where `index` is the
/// running number of the line.
pub open spec fn prefix(format: FORMAT, index: nat) -> Seq<char> {
    match format {
        FORMAT::Default => Seq::<char>::empty(),
        FORMAT::Bullet => "*\t"@,
        FORMAT::Markdown => "-\t"@,
        FORMAT::Numeric => decimal(index) + ".)\t"@,
    }
}

/// The result line of the file at `path` with `count` line terminators.
pub open spec fn rendered(index: nat, path: Seq<char>, count: nat, format: FORMAT) -> Seq<char> {
    prefix(format, index) + path + ": "@ + decimal(count) + " Lines"@
}

/// Appends `n` in decimal to `out`.
pub fn push_decimal(out: &mut String, n: usize)
    ensures
        final(out)@ == old(out)@ + decimal(n as nat),
    decreases n,
{
    if n >= 10 {
        push_decimal(out, n / 10);
    }
    let low: u8 = (n % 10) as u8;
    let code: u8 = 48 + low;
    out.push(code as char);
    assert(final(out)@ =~= old(out)@ + decimal(n as nat));
}

/// Renders the result line of one counted file. `index` is the running
/// number of the line, which only the numeric format shows.
pub fn format_line(index: usize, path: &str, count: usize, format: FORMAT) -> (line: String)
    ensures
        line@ == rendered(index as nat, path@, count as nat, format),
{
    let mut line = String::new();
    match format {
        FORMAT::Default => {},
        FORMAT::Bullet => {
            line.append("*\t");
        },
        FORMAT::Markdown => {
            line.append("-\t");
        },
        FORMAT::Numeric => {
            push_decimal(&mut line, index);
            line.append(".)\t");
        },
    }
    assert(line@ =~= prefix(format, index as nat));
    line.append(path);
    line.append(": ");
    push_decimal(&mut line, count);
    line.append(" Lines");
    line
}

/// A decimal rendering is never empty and holds digits only.
pub proof fn lemma_decimal_digits(n: nat)
    ensures
        decimal(n).len() >= 1,
        forall|i: int| 0 <= i < decimal(n).len() ==> '0' <= #[trigger] decimal(n)[i] <= '9',
    decreases n,
{
    if n >= 10 {
        lemma_decimal_digits(n / 10);
    }
}

} // verus!
