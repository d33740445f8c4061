//! Counting line terminators in text that has already been loaded.

use vstd::prelude::*;
use vstd::string::StringExecFns;
use vstd::utf8::*;

verus! {

/// The number of `\n` characters in `text`.
pub open spec fn newline_count(text: Seq<char>) -> nat {
    text.filter(|c: char| c == '\n').len()
}

/// A file whose text could not be obtained.
#[derive(Debug, PartialEq, Eq)]
pub enum IoError {
    /// The file at this path could not be read or decoded.
    Unreadable(String),
}

/// An `IoError` as plain mathematical values.
pub enum IoErrorModel {
    Unreadable(Seq<char>),
}

impl View for IoError {
    type V = IoErrorModel;

    open spec fn view(&self) -> IoErrorModel {
        match self {
            IoError::Unreadable(path) => IoErrorModel::Unreadable(path@),
        }
    }
}

impl IoErrorModel {
    /// The message that reports the error to the user. It names the path.
    pub open spec fn message(self) -> Seq<char> {
        match self {
            IoErrorModel::Unreadable(path) => "Could not read contents of "@ + path,
        }
    }
}

impl IoError {
    /// The message that reports this error to the user.
    pub fn message(&self) -> (text: String)
        ensures
            text@ == self@.message(),
    {
        match self {
            IoError::Unreadable(path) => {
                let mut text = "Could not read contents of ".to_owned();
                text.append(path.as_str());
                text
            },
        }
    }
}

/// A character sequence is never longer than its UTF-8 encoding.
proof fn lemma_chars_fit_encoding(chars: Seq<char>)
    ensures
        chars.len() <= encode_utf8(chars).len(),
    decreases chars.len(),
{
    if chars.len() > 0 {
        lemma_chars_fit_encoding(chars.drop_first());
        assert(encode_scalar(chars[0] as u32).len() >= 1);
    }
}

/// Counts the `\n` characters of `file_contents`.
pub fn count_lines(file_contents: &str) -> (count: usize)
    ensures
        count == newline_count(file_contents@),
{
    let bytes = file_contents.as_bytes();
    let limit: usize = bytes.len();
    proof {
        lemma_chars_fit_encoding(file_contents@);
    }
    let mut count: usize = 0;
    for c in it: file_contents.chars()
        invariant
            it.seq() == file_contents@,
            file_contents@.len() <= limit,
            count == newline_count(file_contents@.take(it.index())),
            count <= it.index(),
    {
        proof {
            let seen = file_contents@.take(it.index());
            assert(file_contents@.take(it.index() + 1) == seen.push(c));
            seen.lemma_filter_push(c, |c: char| c == '\n');
        }
        if c == '\n' {
            count = count + 1;
        }
    }
    proof {
        assert(file_contents@.take(file_contents@.len() as int) == file_contents@);
    }
    count
}

/// Turns the outcome of reading the file at `path` into its line count:
/// `contents` is the text that was read, or `None` where reading failed.
pub fn count_lines_of_file(path: &str, contents: Option<&str>) -> (r: Result<usize, IoError>)
    ensures
        match contents {
            Some(text) => r matches Ok(count) && count == newline_count(text@),
            None => r matches Err(error) && error@ == IoErrorModel::Unreadable(path@),
        },
{
    match contents {
        Some(text) => Ok(count_lines(text)),
        None => Err(IoError::Unreadable(path.to_owned())),
    }
}

/// The empty text has no line terminator.
pub proof fn lemma_newline_count_empty()
    ensures
        newline_count(Seq::<char>::empty()) == 0,
{
}

/// Appending one character adds one to the count exactly when that character
/// is `\n`: a final line without terminator is not counted.
pub proof fn lemma_newline_count_push(text: Seq<char>, c: char)
    ensures
        newline_count(text.push(c)) == newline_count(text) + if c == '\n' { 1nat } else { 0nat },
{
    text.lemma_filter_push(c, |c: char| c == '\n');
}

/// The count of a concatenation is the sum of the counts of its parts.
pub proof fn lemma_newline_count_concat(left: Seq<char>, right: Seq<char>)
    ensures
        newline_count(left + right) == newline_count(left) + newline_count(right),
{
    Seq::filter_distributes_over_add(left, right, |c: char| c == '\n');
}

} // verus!
