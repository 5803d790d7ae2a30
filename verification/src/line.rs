//! One line of source text, split into its code and its comment.

use crate::quotes::{
    balanced, is_quote, occurrences, open_chars_are_read, open_parity, open_quotes,
    open_quotes_in_range, read_all, read_all_changed, read_all_concat, read_all_plain,
};
use crate::text::{
    all_whitespace, chars_of, is_whitespace, push_range, trim, trim_end, trim_end_at,
    trim_end_keeps, trim_end_of_padded, trim_of_padded, trim_start_at,
};
use std::cmp::Ordering;
use vstd::prelude::*;
use vstd::std_specs::cmp::PartialOrdSpecImpl;

verus! {

/// `d` stands at position `i` of `s`, outside every quoted span.
pub open spec fn is_split_point(s: Seq<char>, d: char, i: int) -> bool {
    &&& 0 <= i < s.len()
    &&& s[i] == d
    &&& balanced(s.take(i))
}

/// Position `i` is the first at which `d` stands outside quotes in `s`.
pub open spec fn is_separator(s: Seq<char>, d: char, i: int) -> bool {
    &&& is_split_point(s, d, i)
    &&& forall|j: int| 0 <= j < i ==> !is_split_point(s, d, j)
}

/// Where `s` is split: at the first `d` outside quotes, provided that the
/// quotes of `s` are balanced and such a `d` exists.
pub open spec fn separator(s: Seq<char>, d: char) -> Option<int> {
    if balanced(s) && exists|i: int| is_separator(s, d, i) {
        Some(choose|i: int| is_separator(s, d, i))
    } else {
        None
    }
}

/// What a line says, as two character sequences.
pub struct LineView {
    pub code: Seq<char>,
    pub comment: Seq<char>,
}

/// The split of the line `s` at delimiter `d`; `None` where the quotes of
/// `s` are not balanced.
pub open spec fn classified(s: Seq<char>, d: char) -> Option<LineView> {
    if !balanced(s) {
        None
    } else {
        match separator(s, d) {
            Some(i) => Some(
                LineView { code: trim_end(s.take(i)), comment: trim(s.skip(i + 1)) },
            ),
            None => Some(LineView { code: trim_end(s), comment: Seq::empty() }),
        }
    }
}

/// A line of source text after classification.
#[derive(Debug, PartialEq, Eq)]
pub struct Line {
    code: String,
    comment: String,
}

impl View for Line {
    type V = LineView;

    closed spec fn view(&self) -> LineView {
        LineView { code: self.code@, comment: self.comment@ }
    }
}

impl Default for Line {
    /// The line with neither code nor comment.
    fn default() -> (line: Self)
        ensures
            line@.code.len() == 0,
            line@.comment.len() == 0,
    {
        Line { code: String::new(), comment: String::new() }
    }
}

impl PartialOrd for Line {
    /// Lines are ordered by the number of characters of their code.
    fn partial_cmp(&self, other: &Self) -> (order: Option<Ordering>) {
        let mine: usize = self.code.as_str().unicode_len();
        let theirs: usize = other.code.as_str().unicode_len();
        if mine < theirs {
            Some(Ordering::Less)
        } else if mine == theirs {
            Some(Ordering::Equal)
        } else {
            Some(Ordering::Greater)
        }
    }
}

impl PartialOrdSpecImpl for Line {
    open spec fn obeys_partial_cmp_spec() -> bool {
        true
    }

    open spec fn partial_cmp_spec(&self, other: &Self) -> Option<Ordering> {
        if self@.code.len() < other@.code.len() {
            Some(Ordering::Less)
        } else if self@.code.len() == other@.code.len() {
            Some(Ordering::Equal)
        } else {
            Some(Ordering::Greater)
        }
    }
}

/// What each line of `v` says.
pub open spec fn views(v: Seq<Line>) -> Seq<LineView> {
    v.map_values(|l: Line| l@)
}

/// If `is_separator(s, d, i)` holds of a balanced `s`, the separator is `i`.
pub proof fn separator_is(s: Seq<char>, d: char, i: int)
    requires
        balanced(s),
        is_separator(s, d, i),
    ensures
        separator(s, d) == Some(i),
{
    let j = choose|j: int| is_separator(s, d, j);
    assert(is_separator(s, d, j));
    if j < i {
        assert(!is_split_point(s, d, j));
    } else if i < j {
        assert(!is_split_point(s, d, i));
    }
}

/// The quotes of `v` that are never closed.
fn open_quotes_in(v: &Vec<char>) -> (stack: Vec<usize>)
    ensures
        stack@.len() == open_quotes(v@).len(),
        forall|k: int| 0 <= k < stack@.len() ==> stack@[k] as int == open_quotes(v@)[k],
{
    let mut stack: Vec<usize> = Vec::new();
    let mut i: usize = 0;
    while i < v.len()
        invariant
            i <= v@.len(),
            stack@.len() == open_quotes(v@.take(i as int)).len(),
            forall|k: int|
                0 <= k < stack@.len() ==> stack@[k] as int == open_quotes(v@.take(i as int))[k],
            forall|k: int| 0 <= k < stack@.len() ==> stack@[k] < i,
        decreases v@.len() - i,
    {
        let c = v[i];
        proof {
            assert(v@.take(i + 1).drop_last() =~= v@.take(i as int));
        }
        if c == '\'' || c == '"' {
            let n = stack.len();
            if n > 0 && v[stack[n - 1]] == c {
                stack.pop();
            } else {
                stack.push(i);
            }
        }
        i += 1;
    }
    proof {
        assert(v@.take(v@.len() as int) =~= v@);
    }
    stack
}

/// The first position of `v` at which `d` stands outside quotes.
fn first_split_in(v: &Vec<char>, d: char) -> (found: Option<usize>)
    ensures
        match found {
            Some(i) => is_separator(v@, d, i as int),
            None => forall|j: int| !is_split_point(v@, d, j),
        },
{
    let mut stack: Vec<char> = Vec::new();
    let mut i: usize = 0;
    while i < v.len()
        invariant
            i <= v@.len(),
            stack@.len() == open_quotes(v@.take(i as int)).len(),
            forall|k: int|
                0 <= k < stack@.len() ==> stack@[k] == v@[open_quotes(v@.take(i as int))[k]],
            forall|j: int| 0 <= j < i ==> !is_split_point(v@, d, j),
        decreases v@.len() - i,
    {
        let c = v[i];
        if c == d && stack.is_empty() {
            return Some(i);
        }
        proof {
            assert(v@.take(i + 1).drop_last() =~= v@.take(i as int));
            open_quotes_in_range(v@.take(i as int));
        }
        if c == '\'' || c == '"' {
            let n = stack.len();
            if n > 0 && stack[n - 1] == c {
                stack.pop();
            } else {
                stack.push(c);
            }
        }
        i += 1;
    }
    None
}

impl Line {
    /// A line with the given code and comment.
    pub fn new(code: String, comment: String) -> (line: Self)
        ensures
            line@.code == code@,
            line@.comment == comment@,
    {
        Self { code, comment }
    }

    /// The positions, counted in characters, of the quotes of `line` that
    /// are never closed, from left to right.
    pub fn unclosed_quotes(line: &str) -> (open: Vec<usize>)
        ensures
            open@.len() == open_quotes(line@).len(),
            forall|k: int| 0 <= k < open@.len() ==> open@[k] as int == open_quotes(line@)[k],
    {
        let chars = chars_of(line);
        open_quotes_in(&chars)
    }

    /// The position, counted in characters, of the first `separator` of
    /// `line` that stands outside quotes; `None` where there is none or
    /// where a quote of `line` is never closed.
    pub fn find_separator(line: &str, separator: char) -> (found: Option<usize>)
        ensures
            match found {
                Some(i) => self::separator(line@, separator) == Some(i as int),
                None => self::separator(line@, separator) is None,
            },
    {
        let chars = chars_of(line);
        if open_quotes_in(&chars).is_empty() {
            let found = first_split_in(&chars, separator);
            proof {
                if let Some(i) = found {
                    separator_is(line@, separator, i as int);
                }
            }
            found
        } else {
            None
        }
    }

    /// Splits `line` at the first `separator` outside quotes into code and
    /// comment, each trimmed; a line without such a separator is all code.
    /// `None` where a quote of `line` is never closed.
    pub fn parse(line: &str, separator: char) -> (parsed: Option<Self>)
        ensures
            match parsed {
                Some(l) => classified(line@, separator) == Some(l@),
                None => classified(line@, separator) is None,
            },
    {
        let chars = chars_of(line);
        if !open_quotes_in(&chars).is_empty() {
            return None;
        }
        let n = chars.len();
        let mut code = String::new();
        let mut comment = String::new();
        match first_split_in(&chars, separator) {
            Some(i) => {
                proof {
                    separator_is(line@, separator, i as int);
                }
                let code_end = trim_end_at(&chars, 0, i);
                push_range(&mut code, &chars, 0, code_end);
                let start = trim_start_at(&chars, i + 1, n);
                let end = trim_end_at(&chars, start, n);
                push_range(&mut comment, &chars, start, end);
                assert(code@ =~= trim_end(line@.take(i as int)));
                assert(comment@ =~= trim(line@.skip(i + 1)));
            },
            None => {
                let code_end = trim_end_at(&chars, 0, n);
                push_range(&mut code, &chars, 0, code_end);
                assert(chars@.subrange(0, n as int) =~= line@);
                assert(code@ =~= trim_end(line@));
            },
        }
        Some(Line { code, comment })
    }

    /// The code of the line.
    pub fn code(&self) -> (code: &String)
        ensures
            code@ == self@.code,
    {
        &self.code
    }

    /// The comment of the line.
    pub fn comment(&self) -> (comment: &String)
        ensures
            comment@ == self@.comment,
    {
        &self.comment
    }

    /// Tells whether the line has any code.
    pub fn has_code(&self) -> (b: bool)
        ensures
            b == (self@.code.len() > 0),
    {
        !self.code.as_str().is_empty()
    }

    /// Tells whether the line has a comment.
    pub fn has_comment(&self) -> (b: bool)
        ensures
            b == (self@.comment.len() > 0),
    {
        !self.comment.as_str().is_empty()
    }
}

/// A separator that was found is the first place at which the delimiter
/// stands outside quotes, in a text whose quotes are balanced.
pub proof fn separator_found(s: Seq<char>, d: char)
    requires
        separator(s, d) is Some,
    ensures
        balanced(s),
        is_separator(s, d, separator(s, d).unwrap()),
{
}

/// A text in which the delimiter stands nowhere outside quotes has no
/// separator.
pub proof fn separator_missing(s: Seq<char>, d: char)
    requires
        forall|j: int| !is_split_point(s, d, j),
    ensures
        separator(s, d) is None,
{
}

/// White space holds no quote, so it is balanced.
pub proof fn whitespace_is_balanced(s: Seq<char>)
    requires
        all_whitespace(s),
    ensures
        balanced(s),
{
    assert forall|i: int| 0 <= i < s.len() implies !is_quote(s[i]) by {
        assert(is_whitespace(s[i]));
    }
    read_all_plain(Seq::empty(), s);
    open_chars_are_read(s);
}

/// An empty line, or one of white space only, has neither code nor
/// comment, whatever the delimiter.
pub proof fn blank_line_is_empty(s: Seq<char>, d: char)
    requires
        all_whitespace(s),
    ensures
        classified(s, d) == Some(LineView { code: Seq::empty(), comment: Seq::empty() }),
{
    whitespace_is_balanced(s);
    let line = classified(s, d).unwrap();
    match separator(s, d) {
        Some(i) => {
            separator_found(s, d);
            let head = s.take(i);
            let tail = s.skip(i + 1);
            assert(all_whitespace(head));
            assert(all_whitespace(tail));
            trim_end_of_padded(Seq::empty(), head);
            assert(Seq::<char>::empty() + head =~= head);
            trim_of_padded(tail, Seq::empty(), Seq::empty());
            assert(tail + Seq::<char>::empty() + Seq::<char>::empty() =~= tail);
        },
        None => {
            trim_end_of_padded(Seq::empty(), s);
            assert(Seq::<char>::empty() + s =~= s);
        },
    }
    assert(line.code =~= Seq::<char>::empty());
    assert(line.comment =~= Seq::<char>::empty());
}

/// A line in which a quote character occurs an odd number of times is not
/// classified, whatever the delimiter.
pub proof fn odd_quotes_are_dropped(s: Seq<char>, d: char, quote: char)
    requires
        is_quote(quote),
        occurrences(s, quote) % 2 == 1,
    ensures
        !balanced(s),
        classified(s, d) is None,
{
    open_parity(s, quote);
    open_chars_are_read(s);
}

/// A delimiter inside a quoted span of a balanced line is never where the
/// line is split. Where no delimiter outside quotes comes before it, it
/// belongs to the code, which runs on to the end of that span at least.
pub proof fn quoted_delimiter_is_code(s: Seq<char>, d: char, j: int)
    requires
        0 <= j < s.len(),
        s[j] == d,
        balanced(s),
        !balanced(s.take(j)),
    ensures
        separator(s, d) != Some(j),
        classified(s, d) is Some,
        (forall|k: int| 0 <= k < j ==> !is_split_point(s, d, k)) ==> ({
            let code = classified(s, d).unwrap().code;
            &&& j < code.len() <= s.len()
            &&& code == s.take(code.len() as int)
            &&& code[j] == d
        }),
{
    if separator(s, d) is Some {
        separator_found(s, d);
    }
    if forall|k: int| 0 <= k < j ==> !is_split_point(s, d, k) {
        let all = match separator(s, d) {
            Some(i) => s.take(i),
            None => s,
        };
        let code = classified(s, d).unwrap().code;
        assert(code == trim_end(all));
        assert(balanced(all));
        assert(j < all.len() <= s.len());
        assert(all.take(j) =~= s.take(j));
        assert(all =~= all.take(j) + all.skip(j));
        open_chars_are_read(all);
        open_chars_are_read(all.take(j));
        read_all_concat(Seq::empty(), all.take(j), all.skip(j));
        let q = read_all_changed(read_all(Seq::empty(), all.take(j)), all.skip(j));
        assert(all.skip(j)[q] == all[j + q]);
        trim_end_keeps(all, j + q);
        crate::text::trim_end_shape(all);
        assert(code =~= s.take(code.len() as int));
    }
}

} // verus!
