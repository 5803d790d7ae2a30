//! Quoted spans: which quotes of a text are open, and when all are closed.

use vstd::prelude::*;

verus! {

/// The two characters that open and close a quoted span.
pub open spec fn is_quote(c: char) -> bool {
    c == '\'' || c == '"'
}

/// The positions of the quotes that are still open once `s` has been read
/// from left to right, innermost last.
///
/// A quote closes the innermost open quote if that is the same character;
/// otherwise it opens a span of its own.
pub open spec fn open_quotes(s: Seq<char>) -> Seq<int>
    decreases s.len(),
{
    if s.len() == 0 {
        Seq::empty()
    } else {
        let before = open_quotes(s.drop_last());
        let c = s.last();
        if !is_quote(c) {
            before
        } else if before.len() > 0 && s[before.last()] == c {
            before.drop_last()
        } else {
            before.push(s.len() - 1)
        }
    }
}

/// Every quote of `s` is closed within `s`.
pub open spec fn balanced(s: Seq<char>) -> bool {
    open_quotes(s).len() == 0
}

/// Every open quote of `s` is a position of `s`.
pub proof fn open_quotes_in_range(s: Seq<char>)
    ensures
        forall|k: int|
            0 <= k < open_quotes(s).len() ==> 0 <= #[trigger] open_quotes(s)[k] < s.len(),
    decreases s.len(),
{
    if s.len() > 0 {
        let before = open_quotes(s.drop_last());
        open_quotes_in_range(s.drop_last());
        assert forall|k: int| 0 <= k < open_quotes(s).len() implies 0 <= #[trigger] open_quotes(
            s,
        )[k] < s.len() by {
            if k < before.len() {
                assert(open_quotes(s)[k] == before[k]);
            }
        }
    }
}

/// The stack of open quote characters `stack` after one more character
/// has been read.
pub open spec fn read_one(stack: Seq<char>, c: char) -> Seq<char> {
    if !is_quote(c) {
        stack
    } else if stack.len() > 0 && stack.last() == c {
        stack.drop_last()
    } else {
        stack.push(c)
    }
}

/// The stack of open quote characters `stack` after `s` has been read.
pub open spec fn read_all(stack: Seq<char>, s: Seq<char>) -> Seq<char>
    decreases s.len(),
{
    if s.len() == 0 {
        stack
    } else {
        read_one(read_all(stack, s.drop_last()), s.last())
    }
}

/// The characters of the quotes that are open after `s`, innermost last.
pub open spec fn open_chars(s: Seq<char>) -> Seq<char> {
    open_quotes(s).map_values(|p: int| s[p])
}

/// The number of times that `c` occurs in `s`.
pub open spec fn occurrences(s: Seq<char>, c: char) -> nat
    decreases s.len(),
{
    if s.len() == 0 {
        0
    } else if s.last() == c {
        occurrences(s.drop_last(), c) + 1
    } else {
        occurrences(s.drop_last(), c)
    }
}

/// The open quotes of `s` are what reading `s` with no quote open leaves
/// on the stack.
pub proof fn open_chars_are_read(s: Seq<char>)
    ensures
        open_chars(s) == read_all(Seq::empty(), s),
        balanced(s) <==> read_all(Seq::empty(), s).len() == 0,
    decreases s.len(),
{
    if s.len() == 0 {
        assert(open_chars(s) =~= Seq::<char>::empty());
    } else {
        let t = s.drop_last();
        open_chars_are_read(t);
        open_quotes_in_range(t);
        let before = open_quotes(t);
        assert forall|k: int| 0 <= k < before.len() implies s[before[k]] == open_chars(t)[k] by {
            assert(t[before[k]] == s[before[k]]);
        }
        let c = s.last();
        if !is_quote(c) {
            assert(open_chars(s) =~= open_chars(t));
        } else if before.len() > 0 && s[before.last()] == c {
            assert(open_chars(t).last() == c);
            assert(open_chars(s) =~= open_chars(t).drop_last());
        } else {
            if before.len() > 0 {
                assert(open_chars(t).last() == s[before.last()]);
            }
            assert(open_chars(s) =~= open_chars(t).push(c));
        }
    }
}

/// Reading `a + b` is reading `a` and then `b`.
pub proof fn read_all_concat(stack: Seq<char>, a: Seq<char>, b: Seq<char>)
    ensures
        read_all(stack, a + b) == read_all(read_all(stack, a), b),
    decreases b.len(),
{
    if b.len() == 0 {
        assert(a + b =~= a);
    } else {
        assert((a + b).drop_last() =~= a + b.drop_last());
        read_all_concat(stack, a, b.drop_last());
    }
}

/// Text without quotes leaves the stack as it is.
pub proof fn read_all_plain(stack: Seq<char>, s: Seq<char>)
    requires
        forall|i: int| 0 <= i < s.len() ==> !is_quote(s[i]),
    ensures
        read_all(stack, s) == stack,
    decreases s.len(),
{
    if s.len() > 0 {
        read_all_plain(stack, s.drop_last());
    }
}

/// Where reading `s` changes the stack, `s` holds a quote.
pub proof fn read_all_changed(stack: Seq<char>, s: Seq<char>) -> (q: int)
    requires
        read_all(stack, s) != stack,
    ensures
        0 <= q < s.len(),
        is_quote(s[q]),
{
    if forall|i: int| 0 <= i < s.len() ==> !is_quote(s[i]) {
        read_all_plain(stack, s);
    }
    choose|i: int| 0 <= i < s.len() && is_quote(s[i])
}

/// A quote character is as often open after `s`, modulo two, as it occurs
/// in `s`.
pub proof fn open_parity(s: Seq<char>, c: char)
    requires
        is_quote(c),
    ensures
        occurrences(read_all(Seq::empty(), s), c) % 2 == occurrences(s, c) % 2,
    decreases s.len(),
{
    if s.len() > 0 {
        open_parity(s.drop_last(), c);
        let stack = read_all(Seq::empty(), s.drop_last());
        let x = s.last();
        if is_quote(x) {
            if stack.len() > 0 && stack.last() == x {
                assert(stack =~= stack.drop_last().push(x));
                assert(stack.drop_last().push(x).drop_last() =~= stack.drop_last());
            } else {
                assert(stack.push(x).drop_last() =~= stack);
            }
        }
    }
}

} // verus!
