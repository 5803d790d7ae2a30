//! Characters and character sequences: white space, trimming, padding.

use vstd::prelude::*;

verus! {

/// The characters that count as white space: those with the Unicode
/// property `White_Space`.
pub open spec fn is_whitespace(c: char) -> bool {
    ||| '\u{9}' <= c <= '\u{D}'
    ||| c == ' '
    ||| c == '\u{85}'
    ||| c == '\u{A0}'
    ||| c == '\u{1680}'
    ||| '\u{2000}' <= c <= '\u{200A}'
    ||| c == '\u{2028}'
    ||| c == '\u{2029}'
    ||| c == '\u{202F}'
    ||| c == '\u{205F}'
    ||| c == '\u{3000}'
}

/// `s` without the white space at its end.
pub open spec fn trim_end(s: Seq<char>) -> Seq<char>
    decreases s.len(),
{
    if s.len() > 0 && is_whitespace(s.last()) {
        trim_end(s.drop_last())
    } else {
        s
    }
}

/// `s` without the white space at its start.
pub open spec fn trim_start(s: Seq<char>) -> Seq<char>
    decreases s.len(),
{
    if s.len() > 0 && is_whitespace(s.first()) {
        trim_start(s.drop_first())
    } else {
        s
    }
}

/// `s` without the white space at either end.
pub open spec fn trim(s: Seq<char>) -> Seq<char> {
    trim_end(trim_start(s))
}

/// A run of `n` space characters.
pub open spec fn spaces(n: nat) -> Seq<char> {
    Seq::new(n, |i: int| ' ')
}

/// What each string of `v` says.
pub open spec fn texts(v: Seq<String>) -> Seq<Seq<char>> {
    v.map_values(|s: String| s@)
}

/// Tells whether `c` is white space.
pub fn is_whitespace_char(c: char) -> (b: bool)
    ensures
        b == is_whitespace(c),
{
    ('\u{9}' <= c && c <= '\u{D}') || c == ' ' || c == '\u{85}' || c == '\u{A0}' || c
        == '\u{1680}' || ('\u{2000}' <= c && c <= '\u{200A}') || c == '\u{2028}' || c
        == '\u{2029}' || c == '\u{202F}' || c == '\u{205F}' || c == '\u{3000}'
}

/// The characters of `s`, in order.
pub fn chars_of(s: &str) -> (v: Vec<char>)
    ensures
        v@ == s@,
{
    let mut v: Vec<char> = Vec::new();
    for c in it: s.chars()
        invariant
            v@ == it.seq().take(it.index() as int),
            it.seq() == s@,
    {
        v.push(c);
    }
    v
}

/// Appends one character to a string.
///
/// Calls `String::push` of the standard library, which is documented to
/// append the given character to the end of the string; the contract says
/// that and nothing more.
#[verifier::external_body]
pub(crate) fn push_char(s: &mut String, c: char)
    ensures
        final(s)@ == old(s)@.push(c),
{
    s.push(c)
}

/// Appends `n` spaces to `s`.
pub fn push_spaces(s: &mut String, n: usize)
    ensures
        final(s)@ == old(s)@ + spaces(n as nat),
{
    let mut i: usize = 0;
    while i < n
        invariant
            i <= n,
            s@ == old(s)@ + spaces(i as nat),
        decreases n - i,
    {
        push_char(s, ' ');
        i += 1;
        assert(s@ =~= old(s)@ + spaces(i as nat));
    }
}

/// Appends the characters `v[from..to]` to `s`.
pub fn push_range(s: &mut String, v: &Vec<char>, from: usize, to: usize)
    requires
        from <= to <= v@.len(),
    ensures
        final(s)@ == old(s)@ + v@.subrange(from as int, to as int),
{
    let mut i: usize = from;
    while i < to
        invariant
            from <= i <= to <= v@.len(),
            s@ == old(s)@ + v@.subrange(from as int, i as int),
        decreases to - i,
    {
        push_char(s, v[i]);
        i += 1;
        assert(s@ =~= old(s)@ + v@.subrange(from as int, i as int));
    }
    assert(s@ =~= old(s)@ + v@.subrange(from as int, to as int));
}

/// The end of `v[from..to]` once the white space at its end is left out.
pub fn trim_end_at(v: &Vec<char>, from: usize, to: usize) -> (end: usize)
    requires
        from <= to <= v@.len(),
    ensures
        from <= end <= to,
        v@.subrange(from as int, end as int) == trim_end(v@.subrange(from as int, to as int)),
{
    let mut end: usize = to;
    while end > from && is_whitespace_char(v[end - 1])
        invariant
            from <= end <= to <= v@.len(),
            trim_end(v@.subrange(from as int, end as int)) == trim_end(
                v@.subrange(from as int, to as int),
            ),
        decreases end,
    {
        assert(v@.subrange(from as int, end as int).drop_last() =~= v@.subrange(
            from as int,
            end - 1,
        ));
        end -= 1;
    }
    end
}

/// The start of `v[from..to]` once the white space at its start is left out.
pub fn trim_start_at(v: &Vec<char>, from: usize, to: usize) -> (start: usize)
    requires
        from <= to <= v@.len(),
    ensures
        from <= start <= to,
        v@.subrange(start as int, to as int) == trim_start(v@.subrange(from as int, to as int)),
{
    let mut start: usize = from;
    while start < to && is_whitespace_char(v[start])
        invariant
            from <= start <= to <= v@.len(),
            trim_start(v@.subrange(start as int, to as int)) == trim_start(
                v@.subrange(from as int, to as int),
            ),
        decreases to - start,
    {
        assert(v@.subrange(start as int, to as int).drop_first() =~= v@.subrange(
            start + 1,
            to as int,
        ));
        start += 1;
    }
    start
}

/// Every character of `s` is white space.
pub open spec fn all_whitespace(s: Seq<char>) -> bool {
    forall|i: int| 0 <= i < s.len() ==> is_whitespace(#[trigger] s[i])
}

/// `s` neither starts nor ends with white space.
pub open spec fn is_trimmed(s: Seq<char>) -> bool {
    s.len() > 0 ==> !is_whitespace(s.first()) && !is_whitespace(s.last())
}

/// `trim_end(s)` is the start of `s` up to its last character that is not
/// white space.
pub proof fn trim_end_shape(s: Seq<char>)
    ensures
        trim_end(s).len() <= s.len(),
        trim_end(s) == s.take(trim_end(s).len() as int),
        all_whitespace(s.skip(trim_end(s).len() as int)),
        trim_end(s).len() > 0 ==> !is_whitespace(trim_end(s).last()),
    decreases s.len(),
{
    if s.len() > 0 && is_whitespace(s.last()) {
        let r = s.drop_last();
        trim_end_shape(r);
        let n = trim_end(s).len() as int;
        assert(s.take(n) =~= r.take(n));
        assert forall|i: int| 0 <= i < s.skip(n).len() implies is_whitespace(
            #[trigger] s.skip(n)[i],
        ) by {
            if i < r.skip(n).len() {
                assert(s.skip(n)[i] == r.skip(n)[i]);
            }
        }
    } else {
        assert(s.take(s.len() as int) =~= s);
    }
}

/// `trim_start(s)` is the end of `s` from its first character that is not
/// white space.
pub proof fn trim_start_shape(s: Seq<char>)
    ensures
        trim_start(s).len() <= s.len(),
        trim_start(s) == s.skip(s.len() - trim_start(s).len()),
        all_whitespace(s.take(s.len() - trim_start(s).len())),
        trim_start(s).len() > 0 ==> !is_whitespace(trim_start(s).first()),
    decreases s.len(),
{
    if s.len() > 0 && is_whitespace(s.first()) {
        let r = s.drop_first();
        trim_start_shape(r);
        let k = s.len() - trim_start(s).len();
        assert(s.skip(k) =~= r.skip(k - 1));
        assert forall|i: int| 0 <= i < s.take(k).len() implies is_whitespace(
            #[trigger] s.take(k)[i],
        ) by {
            if i > 0 {
                assert(s.take(k)[i] == r.take(k - 1)[i - 1]);
            }
        }
    } else {
        assert(s.skip(0) =~= s);
    }
}

/// `trim(s)` is a stretch of `s` that is trimmed, with nothing but white
/// space on either side; the result is where it starts.
pub proof fn trim_shape(s: Seq<char>) -> (start: int)
    ensures
        0 <= start <= start + trim(s).len() <= s.len(),
        trim(s) == s.subrange(start, start + trim(s).len()),
        all_whitespace(s.take(start)),
        all_whitespace(s.skip(start + trim(s).len())),
        is_trimmed(trim(s)),
{
    let a = trim_start(s);
    trim_start_shape(s);
    trim_end_shape(a);
    let start = s.len() - a.len();
    let n = trim(s).len() as int;
    assert(trim(s) =~= s.subrange(start, start + n));
    assert(s.skip(start + n) =~= a.skip(n));
    if n > 0 {
        assert(trim(s).first() == a.first());
    }
    start
}

/// White space after a text that does not end with white space is all
/// that `trim_end` takes away.
pub proof fn trim_end_of_padded(t: Seq<char>, w: Seq<char>)
    requires
        all_whitespace(w),
        t.len() > 0 ==> !is_whitespace(t.last()),
    ensures
        trim_end(t + w) == t,
    decreases w.len(),
{
    if w.len() == 0 {
        assert(t + w =~= t);
    } else {
        assert(is_whitespace(w[w.len() - 1]));
        assert((t + w).drop_last() =~= t + w.drop_last());
        assert forall|i: int| 0 <= i < w.drop_last().len() implies is_whitespace(
            #[trigger] w.drop_last()[i],
        ) by {
            assert(w.drop_last()[i] == w[i]);
        }
        trim_end_of_padded(t, w.drop_last());
    }
}

/// White space before a text that does not start with white space is all
/// that `trim_start` takes away.
pub proof fn trim_start_of_padded(w: Seq<char>, t: Seq<char>)
    requires
        all_whitespace(w),
        t.len() > 0 ==> !is_whitespace(t.first()),
    ensures
        trim_start(w + t) == t,
    decreases w.len(),
{
    if w.len() == 0 {
        assert(w + t =~= t);
    } else {
        assert(is_whitespace(w[0]));
        assert((w + t).drop_first() =~= w.drop_first() + t);
        assert forall|i: int| 0 <= i < w.drop_first().len() implies is_whitespace(
            #[trigger] w.drop_first()[i],
        ) by {
            assert(w.drop_first()[i] == w[i + 1]);
        }
        trim_start_of_padded(w.drop_first(), t);
    }
}

/// A trimmed text with white space on either side is what `trim` gives
/// back.
pub proof fn trim_of_padded(before: Seq<char>, t: Seq<char>, after: Seq<char>)
    requires
        all_whitespace(before),
        all_whitespace(after),
        is_trimmed(t),
    ensures
        trim(before + t + after) == t,
{
    assert(before + t + after =~= before + (t + after));
    if t.len() > 0 {
        assert((t + after).first() == t.first());
        trim_start_of_padded(before, t + after);
        trim_end_of_padded(t, after);
    } else {
        assert(t + after =~= after);
        assert(all_whitespace(before + after));
        trim_start_of_padded(before + after, Seq::empty());
        assert(before + after + Seq::<char>::empty() =~= before + after);
    }
}

/// `trim_end` keeps everything up to a character that is not white space.
pub proof fn trim_end_keeps(s: Seq<char>, q: int)
    requires
        0 <= q < s.len(),
        !is_whitespace(s[q]),
    ensures
        trim_end(s).len() > q,
{
    trim_end_shape(s);
    let n = trim_end(s).len() as int;
    if q >= n {
        assert(s.skip(n)[q - n] == s[q]);
    }
}

} // verus!
