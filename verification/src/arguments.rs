//! How the lines of a file are to be aligned.

use vstd::prelude::*;

verus! {

/// The settings of one run.
#[derive(Clone, Copy, Debug)]
pub struct Arguments {
    /// Write the separator on every line, also where no comment follows.
    pub place_separator_on_each_line: bool,
    /// The character between code and comment.
    pub separator: char,
    /// The number of spaces between the code and the separator.
    pub lmargin: u8,
    /// The number of spaces between the separator and the comment.
    pub rmargin: u8,
}

impl Arguments {
    /// The settings with the given values.
    pub fn new(
        place_separator_on_each_line: bool,
        separator: char,
        lmargin: u8,
        rmargin: u8,
    ) -> (args: Self)
        ensures
            args == (Arguments { place_separator_on_each_line, separator, lmargin, rmargin }),
    {
        Arguments { place_separator_on_each_line, separator, lmargin, rmargin }
    }
}

impl Default for Arguments {
    /// A semicolon as separator, four spaces on either side of it, and no
    /// separator on lines without a comment.
    fn default() -> (args: Self)
        ensures
            args == (Arguments {
                place_separator_on_each_line: false,
                separator: ';',
                lmargin: 4,
                rmargin: 4,
            }),
    {
        Arguments { place_separator_on_each_line: false, separator: ';', lmargin: 4, rmargin: 4 }
    }
}

} // verus!
