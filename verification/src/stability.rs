//! Aligning a line that is aligned already changes nothing.

use crate::accessor::{
    is_tab_free, survivors, tab_free_is_expanded, tabs_expanded, tabs_expanded_is_tab_free,
    TAB_WIDTH,
};
use crate::aligner::{aligned, aligned_file, longest_code, padding, prettified};
use crate::arguments::Arguments;
use crate::line::{
    blank_line_is_empty, classified, is_separator, is_split_point, separator, separator_found,
    separator_is, separator_missing, LineView,
};
use crate::quotes::{
    balanced, is_quote, open_chars_are_read, read_all, read_all_concat, read_all_plain, read_one,
};
use crate::text::{
    all_whitespace, is_trimmed, is_whitespace, spaces, trim_end, trim_end_of_padded,
    trim_end_shape, trim_of_padded, trim_shape,
};
use vstd::prelude::*;

verus! {

/// `c` can stand as the code of a line split at `d`: its quotes are
/// balanced, `d` stands nowhere outside them, and it does not end with
/// white space.
pub open spec fn is_code(c: Seq<char>, d: char) -> bool {
    &&& balanced(c)
    &&& forall|j: int| 0 <= j < c.len() ==> !is_split_point(c, d, j)
    &&& c.len() > 0 ==> !is_whitespace(c.last())
}

/// The text between code and comment: `left` spaces, the delimiter, and
/// `right` spaces.
pub open spec fn gap(left: nat, d: char, right: nat) -> Seq<char> {
    spaces(left).push(d) + spaces(right)
}

/// White space changes nothing about which quotes are open.
proof fn read_all_whitespace(stack: Seq<char>, w: Seq<char>)
    requires
        all_whitespace(w),
    ensures
        read_all(stack, w) == stack,
{
    assert forall|i: int| 0 <= i < w.len() implies !is_quote(w[i]) by {
        assert(is_whitespace(w[i]));
    }
    read_all_plain(stack, w);
}

/// Which quotes are open after code, a gap and a comment depends on the
/// delimiter and the comment alone.
proof fn read_rendered(c: Seq<char>, left: nat, d: char, right: nat, m: Seq<char>)
    requires
        balanced(c),
    ensures
        read_all(Seq::empty(), c + gap(left, d, right) + m) == read_all(
            read_one(Seq::empty(), d),
            m,
        ),
{
    let none = Seq::<char>::empty();
    let head = spaces(left).push(d);
    open_chars_are_read(c);
    assert(read_all(none, c) =~= none);
    read_all_concat(none, c + gap(left, d, right), m);
    read_all_concat(none, c, gap(left, d, right));
    read_all_concat(none, head, spaces(right));
    assert(head.drop_last() =~= spaces(left));
    read_all_whitespace(none, spaces(left));
    read_all_whitespace(read_one(none, d), spaces(right));
}

/// Code, a gap and a trimmed comment are classified as that code and that
/// comment, provided that the quotes of the whole are balanced.
proof fn rendered_is_classified(c: Seq<char>, left: nat, d: char, right: nat, m: Seq<char>)
    requires
        is_code(c, d),
        is_trimmed(m),
        balanced(c + gap(left, d, right) + m),
    ensures
        classified(c + gap(left, d, right) + m, d) == Some(LineView { code: c, comment: m }),
{
    let s = c + gap(left, d, right) + m;
    let n = c.len() as int;
    let k = if d == ' ' && left > 0 {
        n
    } else {
        n + left
    };
    assert(s[k] == d);
    let run = spaces((k - n) as nat);
    assert(s.take(k) =~= c + run);
    open_chars_are_read(c);
    open_chars_are_read(c + run);
    read_all_concat(Seq::empty(), c, run);
    read_all_whitespace(read_all(Seq::empty(), c), run);
    assert(balanced(s.take(k)));
    assert forall|j: int| 0 <= j < k implies !is_split_point(s, d, j) by {
        if j < n {
            assert(s.take(j) =~= c.take(j));
            assert(s[j] == c[j]);
            assert(!is_split_point(c, d, j));
        } else {
            assert(s[j] == ' ');
        }
    }
    separator_is(s, d, k);
    trim_end_of_padded(c, run);
    let rest = s.skip(k + 1);
    let w = rest.take(rest.len() - m.len());
    assert(rest =~= w + m + Seq::<char>::empty());
    assert forall|i: int| 0 <= i < w.len() implies is_whitespace(#[trigger] w[i]) by {
        assert(w[i] == s[k + 1 + i]);
        assert(w[i] == ' ' || w[i] == d);
        if w[i] == d && d != ' ' {
            assert(k == n + left);
            assert(false);
        }
    }
    trim_of_padded(w, m, Seq::empty());
}

/// What classification gives is code and a trimmed comment.
pub proof fn classified_is_clean(s: Seq<char>, d: char)
    requires
        classified(s, d) is Some,
    ensures
        is_code(classified(s, d).unwrap().code, d),
        is_trimmed(classified(s, d).unwrap().comment),
{
    let line = classified(s, d).unwrap();
    let c = line.code;
    let all = match separator(s, d) {
        Some(i) => s.take(i),
        None => s,
    };
    if separator(s, d) is Some {
        separator_found(s, d);
        trim_shape(s.skip(separator(s, d).unwrap() + 1));
    }
    assert(balanced(all));
    assert(c == trim_end(all));
    trim_end_shape(all);
    let n = c.len() as int;
    assert(all =~= c + all.skip(n));
    open_chars_are_read(all);
    open_chars_are_read(c);
    read_all_concat(Seq::empty(), c, all.skip(n));
    read_all_whitespace(read_all(Seq::empty(), c), all.skip(n));
    assert forall|j: int| 0 <= j < c.len() implies !is_split_point(c, d, j) by {
        if is_split_point(c, d, j) {
            assert(c.take(j) =~= s.take(j));
            assert(c[j] == s[j]);
            assert(is_split_point(s, d, j));
            if separator(s, d) is None {
                if balanced(s) && exists|i: int| is_separator(s, d, i) {
                    assert(false);
                }
                least_split_point(s, d, j);
            }
        }
    }
}

/// Where `d` stands outside quotes at some position of `s`, there is a
/// first such position.
proof fn least_split_point(s: Seq<char>, d: char, j: int)
    requires
        is_split_point(s, d, j),
    ensures
        exists|i: int| is_separator(s, d, i),
    decreases j,
{
    if exists|k: int| 0 <= k < j && is_split_point(s, d, k) {
        let k = choose|k: int| 0 <= k < j && is_split_point(s, d, k);
        least_split_point(s, d, k);
    } else {
        assert(is_separator(s, d, j));
    }
}

/// The quotes of a line that was split stay balanced when the line is
/// written out with other spacing.
proof fn split_line_stays_balanced(s: Seq<char>, d: char, left: nat, right: nat)
    requires
        separator(s, d) is Some,
    ensures
        balanced(
            classified(s, d).unwrap().code + gap(left, d, right) + classified(
                s,
                d,
            ).unwrap().comment,
        ),
{
    let none = Seq::<char>::empty();
    let line = classified(s, d).unwrap();
    let i = separator(s, d).unwrap();
    separator_found(s, d);
    classified_is_clean(s, d);
    let tail = s.skip(i + 1);
    let start = trim_shape(tail);
    let m = line.comment;
    let opened = read_one(none, d);
    // the line itself: its head is balanced, so the delimiter and the tail close
    assert(s =~= s.take(i).push(d) + tail);
    open_chars_are_read(s);
    open_chars_are_read(s.take(i));
    read_all_concat(none, s.take(i).push(d), tail);
    assert(s.take(i).push(d).drop_last() =~= s.take(i));
    assert(read_all(none, s.take(i)) =~= none);
    assert(read_all(none, s.take(i).push(d)) == opened);
    assert(read_all(none, s) =~= none);
    assert(read_all(opened, tail) =~= none);
    // the tail is the comment between white space
    let before = tail.take(start);
    let after = tail.skip(start + m.len());
    assert(tail =~= before + m + after);
    read_all_concat(opened, before + m, after);
    read_all_concat(opened, before, m);
    read_all_whitespace(opened, before);
    read_all_whitespace(read_all(opened, m), after);
    read_rendered(line.code, left, d, right, m);
    open_chars_are_read(line.code + gap(left, d, right) + m);
}

/// Code followed by spaces and a delimiter that is no quote is balanced.
proof fn closed_line_stays_balanced(c: Seq<char>, d: char, left: nat)
    requires
        balanced(c),
        !is_quote(d),
    ensures
        balanced(c + gap(left, d, 0) + Seq::<char>::empty()),
{
    read_rendered(c, left, d, 0, Seq::empty());
    open_chars_are_read(c + gap(left, d, 0) + Seq::<char>::empty());
}

/// A line that is classified, written out and classified again is split
/// as it was the first time, whatever the width and the margins.
///
/// The one case left out is a quote as delimiter that is to be written on
/// every line, on a line without comment: the delimiter written after the
/// code then opens a quoted span that nothing closes.
pub proof fn realign_is_stable(s: Seq<char>, args: Arguments, width: nat)
    requires
        classified(s, args.separator) is Some,
        !(args.place_separator_on_each_line && is_quote(args.separator) && classified(
            s,
            args.separator,
        ).unwrap().comment.len() == 0),
    ensures
        classified(
            prettified(classified(s, args.separator).unwrap(), args, width),
            args.separator,
        ) == classified(s, args.separator),
{
    let d = args.separator;
    let none = Seq::<char>::empty();
    let line = classified(s, d).unwrap();
    let text = prettified(line, args, width);
    let lm = args.lmargin as nat;
    let rm = args.rmargin as nat;
    classified_is_clean(s, d);
    if line.comment.len() > 0 {
        assert(separator(s, d) is Some);
        let (left, right) = if line.code.len() > 0 {
            (padding(width, line.code.len()) + lm, rm)
        } else {
            (width + rm, lm)
        };
        assert(text =~= line.code + gap(left, d, right) + line.comment);
        split_line_stays_balanced(s, d, left, right);
        rendered_is_classified(line.code, left, d, right, line.comment);
    } else if args.place_separator_on_each_line {
        let left = if line.code.len() > 0 {
            padding(width, line.code.len()) + lm
        } else {
            width + rm
        };
        assert(text =~= line.code + gap(left, d, 0) + none);
        assert(line.comment =~= none);
        if separator(s, d) is Some {
            split_line_stays_balanced(s, d, left, 0);
        } else {
            closed_line_stays_balanced(line.code, d, left);
        }
        rendered_is_classified(line.code, left, d, 0, none);
    } else if line.code.len() > 0 {
        assert(text == line.code);
        separator_missing(line.code, d);
        trim_end_of_padded(line.code, none);
        assert(line.code + none =~= line.code);
        assert(line.comment =~= none);
    } else {
        assert(text =~= none);
        blank_line_is_empty(none, d);
        assert(line.code =~= none);
        assert(line.comment =~= none);
    }
}

/// Each classified line of a file comes from one of its raw lines; the
/// result is the position of that raw line.
pub proof fn survivor_has_source(raw: Seq<Seq<char>>, d: char, i: int) -> (j: int)
    requires
        0 <= i < survivors(raw, d).len(),
    ensures
        0 <= j < raw.len(),
        classified(tabs_expanded(raw[j], TAB_WIDTH as nat), d) == Some(survivors(raw, d)[i]),
    decreases raw.len(),
{
    let before = survivors(raw.drop_last(), d);
    if i < before.len() {
        survivor_has_source(raw.drop_last(), d, i)
    } else {
        raw.len() - 1
    }
}

/// Raw lines that are classified, after their tabs are expanded, as the
/// lines of `lines`, one for one, give `lines`.
proof fn survivors_of_classified(raw: Seq<Seq<char>>, d: char, lines: Seq<LineView>)
    requires
        raw.len() == lines.len(),
        forall|i: int|
            0 <= i < raw.len() ==> classified(
                tabs_expanded(#[trigger] raw[i], TAB_WIDTH as nat),
                d,
            ) == Some(lines[i]),
    ensures
        survivors(raw, d) == lines,
    decreases raw.len(),
{
    if raw.len() > 0 {
        survivors_of_classified(raw.drop_last(), d, lines.drop_last());
        assert(raw.last() == raw[raw.len() - 1]);
        assert(lines.drop_last().push(lines.last()) =~= lines);
    } else {
        assert(lines =~= Seq::<LineView>::empty());
    }
}

/// The code and the comment of a line without tabs hold no tab.
proof fn classified_is_tab_free(s: Seq<char>, d: char)
    requires
        is_tab_free(s),
        classified(s, d) is Some,
    ensures
        is_tab_free(classified(s, d).unwrap().code),
        is_tab_free(classified(s, d).unwrap().comment),
        d == '\t' ==> classified(s, d).unwrap().comment.len() == 0,
{
    let line = classified(s, d).unwrap();
    match separator(s, d) {
        Some(i) => {
            separator_found(s, d);
            let head = s.take(i);
            let tail = s.skip(i + 1);
            trim_end_shape(head);
            let start = trim_shape(tail);
            assert forall|k: int| 0 <= k < line.code.len() implies #[trigger] line.code[k]
                != '\t' by {
                assert(line.code[k] == s[k]);
            }
            assert forall|k: int| 0 <= k < line.comment.len() implies #[trigger] line.comment[k]
                != '\t' by {
                assert(line.comment[k] == s[i + 1 + start + k]);
            }
            assert(s[i] != '\t');
        },
        None => {
            trim_end_shape(s);
            assert forall|k: int| 0 <= k < line.code.len() implies #[trigger] line.code[k]
                != '\t' by {
                assert(line.code[k] == s[k]);
            }
        },
    }
}

/// A line of a file that was written out is classified, when the file is
/// read again, as it was the first time.
proof fn written_line_is_stable(s: Seq<char>, args: Arguments, width: nat)
    requires
        is_tab_free(s),
        classified(s, args.separator) is Some,
        !(args.place_separator_on_each_line && is_quote(args.separator) && classified(
            s,
            args.separator,
        ).unwrap().comment.len() == 0),
    ensures
        classified(
            tabs_expanded(
                prettified(classified(s, args.separator).unwrap(), args, width),
                TAB_WIDTH as nat,
            ),
            args.separator,
        ) == classified(s, args.separator),
{
    let d = args.separator;
    let none = Seq::<char>::empty();
    let line = classified(s, d).unwrap();
    let text = prettified(line, args, width);
    classified_is_tab_free(s, d);
    classified_is_clean(s, d);
    if d == '\t' && args.place_separator_on_each_line {
        let left = if line.code.len() > 0 {
            padding(width, line.code.len()) + args.lmargin as nat
        } else {
            width + args.rmargin as nat
        };
        let run = spaces(left + TAB_WIDTH as nat);
        let again = line.code + run;
        assert(text =~= (line.code + spaces(left)).push(d));
        assert(text.drop_last() =~= line.code + spaces(left));
        assert(is_tab_free(line.code + spaces(left)));
        tab_free_is_expanded(line.code + spaces(left), TAB_WIDTH as nat);
        assert(tabs_expanded(text, TAB_WIDTH as nat) =~= again);
        open_chars_are_read(line.code);
        open_chars_are_read(again);
        read_all_concat(none, line.code, run);
        read_all_whitespace(read_all(none, line.code), run);
        assert(is_tab_free(again));
        separator_missing(again, d);
        trim_end_of_padded(line.code, run);
        assert(line.comment =~= none);
    } else {
        assert(is_tab_free(text));
        tab_free_is_expanded(text, TAB_WIDTH as nat);
        realign_is_stable(s, args, width);
    }
}

/// A file that was aligned is left as it is when it is aligned again with
/// the same settings.
///
/// The one case left out is a quote as delimiter that is to be written on
/// every line, in a file with a line without comment: that line is written
/// with a quote that nothing closes, and is lost when the file is read
/// again.
pub proof fn align_is_idempotent(raw: Seq<Seq<char>>, args: Arguments)
    requires
        aligned_file(raw, args) is Some,
        args.place_separator_on_each_line && is_quote(args.separator) ==> forall|i: int|
            0 <= i < survivors(raw, args.separator).len() ==> (#[trigger] survivors(
                raw,
                args.separator,
            )[i]).comment.len() > 0,
    ensures
        aligned_file(aligned_file(raw, args).unwrap(), args) == aligned_file(raw, args),
{
    let d = args.separator;
    let lines = survivors(raw, d);
    let written = aligned(lines, args);
    let width = longest_code(lines);
    assert forall|i: int| 0 <= i < written.len() implies classified(
        tabs_expanded(#[trigger] written[i], TAB_WIDTH as nat),
        d,
    ) == Some(lines[i]) by {
        let j = survivor_has_source(raw, d, i);
        let s = tabs_expanded(raw[j], TAB_WIDTH as nat);
        tabs_expanded_is_tab_free(raw[j], TAB_WIDTH as nat);
        written_line_is_stable(s, args, width);
    }
    survivors_of_classified(written, d, lines);
}

} // verus!
