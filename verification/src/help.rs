//! The help text.

use vstd::prelude::*;

verus! {

/// The text that explains the command line.
pub open spec fn help_text() -> Seq<char> {
    "                              line-counter.exe\n                              By Anthony Rubick\n\ncount lines of a file or of all files in directory\n\nUSAGE:\n\tline-counter.exe [OPTIONS]... [PATH]\n\nOPTIONS:\n\t-f\t--filter <EXTENSIONS>...\t\tComma separated list of extensions, will only count lines of files with these extensions\n\t\t--format=[FORMAT]\t\t\tFormat the output in a list, valid formats are: DEFAULT, BULLET, MARKDOWN, and NUMERIC\n\t-r,\t--recursive\t\t\t\tSearch through subdirectories\n\t-h,\t--help\t\t\t\t\tPrints help information\n\nPATH:\n\tPath to search\n\n"@
}

/// Gives the help text, ready to be printed as it is.
pub fn help() -> (text: String)
    ensures
        text@ == help_text(),
{
    "                              line-counter.exe\n                              By Anthony Rubick\n\ncount lines of a file or of all files in directory\n\nUSAGE:\n\tline-counter.exe [OPTIONS]... [PATH]\n\nOPTIONS:\n\t-f\t--filter <EXTENSIONS>...\t\tComma separated list of extensions, will only count lines of files with these extensions\n\t\t--format=[FORMAT]\t\t\tFormat the output in a list, valid formats are: DEFAULT, BULLET, MARKDOWN, and NUMERIC\n\t-r,\t--recursive\t\t\t\tSearch through subdirectories\n\t-h,\t--help\t\t\t\t\tPrints help information\n\nPATH:\n\tPath to search\n\n".to_owned()
}

} // verus!
