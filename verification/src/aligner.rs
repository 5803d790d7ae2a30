//! Writing classified lines out again with their separators in one column.

use crate::accessor::{survivors, FileAccessor};
use crate::arguments::Arguments;
use crate::filemanager::{is_uuid_text, FileManager};
use crate::line::{views, Line, LineView};
use crate::text::{push_char, push_spaces, spaces, texts};
use vstd::prelude::*;
use vstd::string::StringExecFns;

verus! {

/// The number of spaces that bring code of `len` characters up to `width`;
/// none where the code is longer than that.
pub open spec fn padding(width: nat, len: nat) -> nat {
    if width >= len {
        (width - len) as nat
    } else {
        0
    }
}

/// The text that runs from the end of the code up to and including the
/// separator.
pub open spec fn code_tail(line: LineView, args: Arguments, width: nat) -> Seq<char> {
    spaces(padding(width, line.code.len()) + args.lmargin as nat).push(args.separator)
}

/// An indentation that reaches the separator's column on a line without
/// code, and the separator.
pub open spec fn blank_head(args: Arguments, width: nat) -> Seq<char> {
    spaces(width + args.rmargin as nat).push(args.separator)
}

/// The line as it is written out when the longest code of its file has
/// `width` characters.
pub open spec fn prettified(line: LineView, args: Arguments, width: nat) -> Seq<char> {
    if line.code.len() > 0 && line.comment.len() > 0 {
        line.code + code_tail(line, args, width) + spaces(args.rmargin as nat) + line.comment
    } else if line.code.len() > 0 {
        if args.place_separator_on_each_line {
            line.code + code_tail(line, args, width)
        } else {
            line.code
        }
    } else if line.comment.len() > 0 {
        blank_head(args, width) + spaces(args.lmargin as nat) + line.comment
    } else {
        if args.place_separator_on_each_line {
            blank_head(args, width)
        } else {
            Seq::empty()
        }
    }
}

/// The number of characters of the longest code among `lines`; zero where
/// there are no lines.
pub open spec fn longest_code(lines: Seq<LineView>) -> nat
    decreases lines.len(),
{
    if lines.len() == 0 {
        0
    } else {
        let rest = longest_code(lines.drop_last());
        let last = lines.last().code.len();
        if last > rest {
            last
        } else {
            rest
        }
    }
}

/// The lines of a file as they are written out: each of `lines` with the
/// separator in the column that the longest code among them asks for.
pub open spec fn aligned(lines: Seq<LineView>, args: Arguments) -> Seq<Seq<char>> {
    Seq::new(lines.len(), |i: int| prettified(lines[i], args, longest_code(lines)))
}

/// What a file with the raw lines `raw` is rewritten to; `None` where no
/// line of it can be classified, and the file is left as it is.
pub open spec fn aligned_file(raw: Seq<Seq<char>>, args: Arguments) -> Option<Seq<Seq<char>>> {
    let lines = survivors(raw, args.separator);
    if lines.len() == 0 {
        None
    } else {
        Some(aligned(lines, args))
    }
}

/// The executable result `got` says what `expected` says.
pub open spec fn rewritten_as(got: Option<Vec<String>>, expected: Option<Seq<Seq<char>>>) -> bool {
    match got {
        Some(v) => expected == Some(texts(v@)),
        None => expected is None,
    }
}

/// Aligns the comments of files.
pub struct Aligner {
    filemanager: FileManager,
}

impl Aligner {
    /// An aligner with a temporary directory of its own.
    pub fn new() -> (aligner: Aligner)
        ensures
            is_uuid_text(aligner.manager().directory()),
    {
        Aligner { filemanager: FileManager::default() }
    }

    /// The manager of the aligner's temporary directory.
    pub closed spec fn manager(&self) -> FileManager {
        self.filemanager
    }

    /// The manager of the aligner's temporary directory.
    pub fn filemanager(&self) -> (manager: &FileManager)
        ensures
            *manager == self.manager(),
    {
        &self.filemanager
    }

    /// The number of characters of the longest code among `lines`: that
    /// of the greatest line, as lines are ordered.
    pub fn max_code_width(lines: &Vec<Line>) -> (width: usize)
        ensures
            width as nat == longest_code(views(lines@)),
    {
        if lines.len() == 0 {
            return 0;
        }
        let mut greatest: usize = 0;
        let mut i: usize = 1;
        proof {
            let first = views(lines@).take(1);
            assert(first.drop_last() =~= Seq::<LineView>::empty());
            assert(longest_code(first.drop_last()) == 0);
            assert(first.last() == lines@[0]@);
        }
        while i < lines.len()
            invariant
                greatest < i <= lines@.len(),
                lines@[greatest as int]@.code.len() == longest_code(views(lines@).take(i as int)),
            decreases lines@.len() - i,
        {
            proof {
                assert(views(lines@).take(i + 1).drop_last() =~= views(lines@).take(i as int));
            }
            if lines[greatest] <= lines[i] {
                greatest = i;
            }
            i += 1;
        }
        proof {
            assert(views(lines@).take(lines@.len() as int) =~= views(lines@));
        }
        lines[greatest].code().as_str().unicode_len()
    }

    /// Aligns every file of `files`, each given by its raw lines, by itself.
    pub fn align(&self, files: &Vec<Vec<String>>, args: &Arguments) -> (rewritten: Vec<
        Option<Vec<String>>,
    >)
        ensures
            rewritten@.len() == files@.len(),
            forall|i: int|
                0 <= i < files@.len() ==> rewritten_as(
                    #[trigger] rewritten@[i],
                    aligned_file(texts(files@[i]@), *args),
                ),
    {
        let mut rewritten: Vec<Option<Vec<String>>> = Vec::new();
        let mut i: usize = 0;
        while i < files.len()
            invariant
                i <= files@.len(),
                rewritten@.len() == i,
                forall|k: int|
                    0 <= k < i ==> rewritten_as(
                        #[trigger] rewritten@[k],
                        aligned_file(texts(files@[k]@), *args),
                    ),
            decreases files@.len() - i,
        {
            let one = self.align_file(&files[i], args);
            rewritten.push(one);
            i += 1;
        }
        rewritten
    }

    /// Aligns the file with the raw lines `raw`: classifies them and writes
    /// each surviving line out with the separator in one column. `None`
    /// where no line survives: the file is then left as it is.
    pub fn align_file(&self, raw: &Vec<String>, args: &Arguments) -> (rewritten: Option<
        Vec<String>,
    >)
        ensures
            rewritten_as(rewritten, aligned_file(texts(raw@), *args)),
    {
        let lines = FileAccessor::read(raw, args.separator);
        if lines.is_empty() {
            return None;
        }
        let longest = Self::max_code_width(&lines);
        let mut texts_out: Vec<String> = Vec::new();
        let mut i: usize = 0;
        while i < lines.len()
            invariant
                i <= lines@.len(),
                longest as nat == longest_code(views(lines@)),
                texts_out@.len() == i,
                forall|k: int|
                    0 <= k < i ==> (#[trigger] texts_out@[k])@ == prettified(
                        lines@[k]@,
                        *args,
                        longest as nat,
                    ),
            decreases lines@.len() - i,
        {
            let text = self.prettify(&lines[i], args, longest);
            texts_out.push(text);
            i += 1;
        }
        proof {
            assert(texts(texts_out@) =~= aligned(views(lines@), *args));
        }
        Some(texts_out)
    }

    /// Writes `line` out for a file whose longest code has `longest`
    /// characters.
    pub fn prettify(&self, line: &Line, args: &Arguments, longest: usize) -> (text: String)
        ensures
            text@ == prettified(line@, *args, longest as nat),
    {
        if line.has_code() && line.has_comment() {
            Self::prettify_code_and_comment(line, args, longest)
        } else if line.has_code() && !line.has_comment() {
            Self::prettify_code(line, args, longest)
        } else if !line.has_code() && line.has_comment() {
            Self::prettify_comment(line, args, longest)
        } else {
            Self::prettify_empty(args, longest)
        }
    }

    /// Appends to `text`, which holds the code of `line`, the spaces up to
    /// the separator's column and the separator.
    fn push_code_tail(text: &mut String, line: &Line, args: &Arguments, longest: usize)
        requires
            old(text)@ == line@.code,
        ensures
            final(text)@ == line@.code + code_tail(line@, *args, longest as nat),
    {
        let len = text.as_str().unicode_len();
        if longest > len {
            push_spaces(text, longest - len);
        }
        push_spaces(text, args.lmargin as usize);
        push_char(text, args.separator);
        assert(text@ =~= line@.code + code_tail(line@, *args, longest as nat));
    }

    /// An indentation of `longest` spaces and the right margin, then the
    /// separator.
    fn blank_head(args: &Arguments, longest: usize) -> (text: String)
        ensures
            text@ == self::blank_head(*args, longest as nat),
    {
        let mut text = String::new();
        push_spaces(&mut text, longest);
        push_spaces(&mut text, args.rmargin as usize);
        push_char(&mut text, args.separator);
        assert(text@ =~= self::blank_head(*args, longest as nat));
        text
    }

    /// The code, the spaces up to the separator's column, the separator,
    /// the right margin and the comment.
    fn prettify_code_and_comment(line: &Line, args: &Arguments, longest: usize) -> (text: String)
        ensures
            text@ == line@.code + code_tail(line@, *args, longest as nat) + spaces(
                args.rmargin as nat,
            ) + line@.comment,
    {
        let mut text = line.code().clone();
        Self::push_code_tail(&mut text, line, args, longest);
        push_spaces(&mut text, args.rmargin as usize);
        text.append(line.comment().as_str());
        text
    }

    /// The code, followed by the separator in its column where it is to
    /// stand on every line.
    fn prettify_code(line: &Line, args: &Arguments, longest: usize) -> (text: String)
        ensures
            text@ == if args.place_separator_on_each_line {
                line@.code + code_tail(line@, *args, longest as nat)
            } else {
                line@.code
            },
    {
        let mut text = line.code().clone();
        if args.place_separator_on_each_line {
            Self::push_code_tail(&mut text, line, args, longest);
        }
        text
    }

    /// The comment behind the separator in its column, with the margins
    /// in each other's place.
    fn prettify_comment(line: &Line, args: &Arguments, longest: usize) -> (text: String)
        ensures
            text@ == self::blank_head(*args, longest as nat) + spaces(args.lmargin as nat)
                + line@.comment,
    {
        let mut text = Self::blank_head(args, longest);
        push_spaces(&mut text, args.lmargin as usize);
        text.append(line.comment().as_str());
        text
    }

    /// Nothing, or the separator in its column where it is to stand on
    /// every line.
    fn prettify_empty(args: &Arguments, longest: usize) -> (text: String)
        ensures
            text@ == if args.place_separator_on_each_line {
                self::blank_head(*args, longest as nat)
            } else {
                Seq::<char>::empty()
            },
    {
        if args.place_separator_on_each_line {
            Self::blank_head(args, longest)
        } else {
            String::new()
        }
    }
}

/// No code among `lines` is longer than `longest_code(lines)`, so the
/// padding after the code of any of them makes up the difference exactly.
pub proof fn longest_code_bounds(lines: Seq<LineView>, i: int)
    requires
        0 <= i < lines.len(),
    ensures
        lines[i].code.len() <= longest_code(lines),
        lines[i].code.len() + padding(longest_code(lines), lines[i].code.len()) == longest_code(
            lines,
        ),
    decreases lines.len(),
{
    if i < lines.len() - 1 {
        longest_code_bounds(lines.drop_last(), i);
    }
}

/// Where there are lines, `longest_code(lines)` is the length of the code
/// of one of them.
pub proof fn longest_code_is_attained(lines: Seq<LineView>) -> (i: int)
    requires
        lines.len() > 0,
    ensures
        0 <= i < lines.len(),
        lines[i].code.len() == longest_code(lines),
    decreases lines.len(),
{
    let last = lines.len() - 1;
    if lines.len() == 1 || lines[last].code.len() > longest_code(lines.drop_last()) {
        assert(lines.drop_last().len() == 0 ==> longest_code(lines.drop_last()) == 0);
        last
    } else {
        longest_code_is_attained(lines.drop_last())
    }
}

/// A line with a comment and no code is written as `width` spaces and
/// the right margin, the separator, the left margin and the comment: the
/// margins change places against a line with code.
pub proof fn comment_line_prettified(line: LineView, args: Arguments, width: nat)
    requires
        line.code.len() == 0,
        line.comment.len() > 0,
    ensures
        prettified(line, args, width) == spaces(width + args.rmargin as nat).push(args.separator)
            + spaces(args.lmargin as nat) + line.comment,
{
}

/// A line with neither code nor comment is written as nothing at all,
/// unless the separator is to stand on every line: then as `width` spaces
/// and the right margin, and the separator.
pub proof fn blank_line_prettified(line: LineView, args: Arguments, width: nat)
    requires
        line.code.len() == 0,
        line.comment.len() == 0,
    ensures
        !args.place_separator_on_each_line ==> prettified(line, args, width).len() == 0,
        args.place_separator_on_each_line ==> prettified(line, args, width) == spaces(
            width + args.rmargin as nat,
        ).push(args.separator),
{
}

/// The line is written with a separator.
pub open spec fn has_separator(line: LineView, args: Arguments) -> bool {
    line.comment.len() > 0 || args.place_separator_on_each_line
}

/// The column in which the separator of the line is written when the
/// longest code has `width` characters.
pub open spec fn separator_column(line: LineView, args: Arguments, width: nat) -> nat {
    if line.code.len() > 0 {
        width + args.lmargin as nat
    } else {
        width + args.rmargin as nat
    }
}

/// In a file that is written out, each line that has a separator has it
/// in the column that the longest code and the margin give, with nothing
/// but the line's code and spaces before it.
pub proof fn separators_share_a_column(lines: Seq<LineView>, args: Arguments, i: int)
    requires
        0 <= i < lines.len(),
        has_separator(lines[i], args),
    ensures
        ({
            let text = aligned(lines, args)[i];
            let column = separator_column(lines[i], args, longest_code(lines));
            let code = lines[i].code;
            &&& column < text.len()
            &&& text[column as int] == args.separator
            &&& text.take(column as int) == code + spaces((column - code.len()) as nat)
        }),
{
    longest_code_bounds(lines, i);
    let text = aligned(lines, args)[i];
    let column = separator_column(lines[i], args, longest_code(lines));
    let code = lines[i].code;
    assert(text.take(column as int) =~= code + spaces((column - code.len()) as nat));
}

} // verus!
