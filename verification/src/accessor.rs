//! From the raw lines of a file to its classified lines.

use crate::line::{classified, views, Line, LineView};
use crate::text::{chars_of, push_range, spaces, texts};
use extabs::Expand;
use vstd::prelude::*;
use vstd::string::StringExecFns;

verus! {

/// The number of spaces that take the place of a tab.
pub const TAB_WIDTH: u8 = 4;

/// The most characters that are handed to the tab expander in one piece.
pub const PIECE: usize = 255;

/// `s` with each tab replaced by `n` spaces.
pub open spec fn tabs_expanded(s: Seq<char>, n: nat) -> Seq<char>
    decreases s.len(),
{
    if s.len() == 0 {
        Seq::empty()
    } else if s.last() == '\t' {
        tabs_expanded(s.drop_last(), n) + spaces(n)
    } else {
        tabs_expanded(s.drop_last(), n).push(s.last())
    }
}

/// The classified lines of a file with the raw lines `raw`: tabs are
/// expanded, each line is split at `d`, and the lines whose quotes are not
/// balanced are left out.
pub open spec fn survivors(raw: Seq<Seq<char>>, d: char) -> Seq<LineView>
    decreases raw.len(),
{
    if raw.len() == 0 {
        Seq::empty()
    } else {
        let before = survivors(raw.drop_last(), d);
        match classified(tabs_expanded(raw.last(), TAB_WIDTH as nat), d) {
            Some(line) => before.push(line),
            None => before,
        }
    }
}

/// Expanding tabs goes piece by piece.
pub proof fn tabs_expanded_concat(a: Seq<char>, b: Seq<char>, n: nat)
    ensures
        tabs_expanded(a + b, n) == tabs_expanded(a, n) + tabs_expanded(b, n),
    decreases b.len(),
{
    if b.len() == 0 {
        assert(a + b =~= a);
        assert(tabs_expanded(a, n) + tabs_expanded(b, n) =~= tabs_expanded(a, n));
    } else {
        assert((a + b).drop_last() =~= a + b.drop_last());
        tabs_expanded_concat(a, b.drop_last(), n);
        if b.last() == '\t' {
            assert(tabs_expanded(a + b, n) =~= tabs_expanded(a, n) + tabs_expanded(b, n));
        } else {
            assert(tabs_expanded(a + b, n) =~= tabs_expanded(a, n) + tabs_expanded(b, n));
        }
    }
}

/// No character of `s` is a tab.
pub open spec fn is_tab_free(s: Seq<char>) -> bool {
    forall|i: int| 0 <= i < s.len() ==> #[trigger] s[i] != '\t'
}

/// Text with its tabs expanded holds no tab.
pub proof fn tabs_expanded_is_tab_free(s: Seq<char>, n: nat)
    ensures
        is_tab_free(tabs_expanded(s, n)),
    decreases s.len(),
{
    if s.len() > 0 {
        tabs_expanded_is_tab_free(s.drop_last(), n);
    }
}

/// Text without tabs is left as it is.
pub proof fn tab_free_is_expanded(s: Seq<char>, n: nat)
    requires
        is_tab_free(s),
    ensures
        tabs_expanded(s, n) == s,
    decreases s.len(),
{
    if s.len() > 0 {
        assert(s.last() == s[s.len() - 1]);
        assert forall|i: int| 0 <= i < s.drop_last().len() implies #[trigger] s.drop_last()[i]
            != '\t' by {
            assert(s.drop_last()[i] == s[i]);
        }
        tab_free_is_expanded(s.drop_last(), n);
        assert(s.drop_last().push(s.last()) =~= s);
    }
}

/// Expands the tabs of a short piece of text.
///
/// Calls `Expand::expandtabs` of the crate `extabs`. As that crate is
/// written, every tab becomes exactly `n` spaces, whatever the column, and
/// every other character is copied. It divides by `n` and counts the
/// characters since the last tab or line end in a `u8`, so `n` must not be
/// zero and the piece is kept short enough for that count.
#[verifier::external_body]
fn expand_piece(piece: &String, n: u8) -> (expanded: String)
    requires
        n > 0,
        piece@.len() <= PIECE,
    ensures
        expanded@ == tabs_expanded(piece@, n as nat),
{
    piece.expandtabs(n)
}

/// `line` with each tab replaced by `TAB_WIDTH` spaces.
pub fn expand_tabs(line: &str) -> (expanded: String)
    ensures
        expanded@ == tabs_expanded(line@, TAB_WIDTH as nat),
{
    let chars = chars_of(line);
    let n = chars.len();
    let mut expanded = String::new();
    let mut done: usize = 0;
    proof {
        assert(chars@.take(0) =~= Seq::<char>::empty());
    }
    while done < n
        invariant
            done <= n == chars@.len(),
            expanded@ == tabs_expanded(chars@.take(done as int), TAB_WIDTH as nat),
        decreases n - done,
    {
        let end = if n - done > PIECE {
            done + PIECE
        } else {
            n
        };
        let mut piece = String::new();
        push_range(&mut piece, &chars, done, end);
        let part = expand_piece(&piece, TAB_WIDTH);
        expanded.append(part.as_str());
        proof {
            assert(piece@ =~= chars@.subrange(done as int, end as int));
            assert(chars@.take(end as int) =~= chars@.take(done as int) + piece@);
            tabs_expanded_concat(chars@.take(done as int), piece@, TAB_WIDTH as nat);
        }
        done = end;
    }
    proof {
        assert(chars@.take(n as int) =~= chars@);
    }
    expanded
}

/// Turns the raw lines of a file into classified lines.
pub struct FileAccessor {}

impl FileAccessor {
    /// Classifies the raw lines of a file: expands the tabs of each, splits
    /// it at `separator`, and leaves out the lines whose quotes are not
    /// balanced.
    pub fn read(raw: &Vec<String>, separator: char) -> (lines: Vec<Line>)
        ensures
            views(lines@) == survivors(texts(raw@), separator),
    {
        let mut lines: Vec<Line> = Vec::new();
        let mut i: usize = 0;
        proof {
            assert(texts(raw@).take(0) =~= Seq::<Seq<char>>::empty());
            assert(views(lines@) =~= Seq::<LineView>::empty());
        }
        while i < raw.len()
            invariant
                i <= raw@.len(),
                views(lines@) == survivors(texts(raw@).take(i as int), separator),
            decreases raw@.len() - i,
        {
            let expanded = expand_tabs(raw[i].as_str());
            let ghost before = lines@;
            proof {
                assert(texts(raw@).take(i + 1).drop_last() =~= texts(raw@).take(i as int));
                assert(texts(raw@).take(i + 1).last() == raw@[i as int]@);
            }
            match Line::parse(expanded.as_str(), separator) {
                Some(line) => {
                    lines.push(line);
                    assert(views(lines@) =~= views(before).push(line@));
                },
                None => {},
            }
            i += 1;
        }
        proof {
            assert(texts(raw@).take(raw@.len() as int) =~= texts(raw@));
        }
        lines
    }
}

} // verus!
