//! Character sequences: conversion between strings and vectors of characters,
//! and the small text operations the extractor is built from.
//!
//! Every operation is specified over `Seq<char>`, the view of a string.

use vstd::prelude::*;
use vstd::std_specs::iter::IteratorSpec;
use vstd::string::group_string_axioms;

verus! {

/// Appends one character to a string.
///
/// Trusted: calls `String::push`, which the standard library documents as
/// appending the given character to the end of the string.
#[verifier::external_body]
pub(crate) fn push_char(s: &mut String, c: char)
    ensures
        final(s)@ == old(s)@.push(c),
{
    s.push(c)
}

/// The characters of `s`, in order.
pub fn chars_of(s: &str) -> (v: Vec<char>)
    ensures
        v@ == s@,
{
    broadcast use group_string_axioms;

    let mut v: Vec<char> = Vec::new();
    let mut it = s.chars();
    loop
        invariant_except_break
            it.obeys_prophetic_iter_laws(),
            v@ + it.remaining() == s@,
            it.decrease() is Some,
        ensures
            v@ == s@,
        decreases it.decrease()->0,
    {
        let ghost before = it.remaining();
        let ghost taken = v@;
        match it.next() {
            Some(c) => {
                v.push(c);
                assert(v@ + it.remaining() =~= taken + before) by {
                    assert(before =~= seq![c] + it.remaining());
                }
            },
            None => {
                assert(v@ =~= s@);
                break ;
            },
        }
    }
    v
}

/// The string made of the characters of `v`, in order.
pub fn string_of(v: &Vec<char>) -> (s: String)
    ensures
        s@ == v@,
{
    let mut s = String::new();
    let mut i: usize = 0;
    while i < v.len()
        invariant
            i <= v.len(),
            s@ == v@.subrange(0, i as int),
        decreases v.len() - i,
    {
        push_char(&mut s, v[i]);
        i += 1;
        assert(s@ =~= v@.subrange(0, i as int));
    }
    assert(v@.subrange(0, v@.len() as int) =~= v@);
    s
}

/// The views of a sequence of character vectors, element by element.
pub open spec fn views(lines: Seq<Vec<char>>) -> Seq<Seq<char>> {
    Seq::new(lines.len(), |i: int| lines[i]@)
}

/// The views of a sequence of strings, element by element.
pub open spec fn string_views(items: Seq<String>) -> Seq<Seq<char>> {
    Seq::new(items.len(), |i: int| items[i]@)
}

/// `line` begins with `prefix`.
pub open spec fn starts_with(line: Seq<char>, prefix: Seq<char>) -> bool {
    prefix.len() <= line.len() && line.subrange(0, prefix.len() as int) == prefix
}

/// Tests whether `line` begins with `prefix`.
pub fn has_prefix(line: &Vec<char>, prefix: &Vec<char>) -> (b: bool)
    ensures
        b == starts_with(line@, prefix@),
{
    if prefix.len() > line.len() {
        return false;
    }
    let mut i: usize = 0;
    while i < prefix.len()
        invariant
            i <= prefix.len() <= line.len(),
            forall|j: int| 0 <= j < i ==> line@[j] == prefix@[j],
        decreases prefix.len() - i,
    {
        if line[i] != prefix[i] {
            assert(line@.subrange(0, prefix@.len() as int)[i as int] != prefix@[i as int]);
            return false;
        }
        i += 1;
    }
    assert(line@.subrange(0, prefix@.len() as int) =~= prefix@);
    true
}

/// The test that keeps every character but the space.
pub open spec fn not_space() -> spec_fn(char) -> bool {
    |c: char| c != ' '
}

/// `s` with every space character removed.
pub open spec fn without_spaces(s: Seq<char>) -> Seq<char> {
    s.filter(not_space())
}

/// A space that is put into a text, wherever, is gone with the others once
/// the spaces are removed.
pub proof fn lemma_space_makes_no_difference(before: Seq<char>, after: Seq<char>)
    ensures
        without_spaces(before + seq![' '] + after) == without_spaces(before + after),
{
    reveal_with_fuel(Seq::filter, 2);
    let space = seq![' '];
    Seq::filter_distributes_over_add(before, space, not_space());
    Seq::filter_distributes_over_add(before + space, after, not_space());
    Seq::filter_distributes_over_add(before, after, not_space());
    assert(space.drop_last() =~= Seq::<char>::empty());
    assert(!not_space()(space.last()));
    assert(space.filter(not_space()) =~= Seq::<char>::empty());
    assert(before.filter(not_space()) + space.filter(not_space()) =~= before.filter(not_space()));
}

/// A text without spaces stays as it is when the spaces are removed.
pub proof fn lemma_without_spaces_keeps_the_rest(s: Seq<char>)
    requires
        forall|i: int| 0 <= i < s.len() ==> #[trigger] s[i] != ' ',
    ensures
        without_spaces(s) == s,
    decreases s.len(),
{
    reveal(Seq::filter);
    if s.len() > 0 {
        let front = s.drop_last();
        assert forall|i: int| 0 <= i < front.len() implies #[trigger] front[i] != ' ' by {
            assert(front[i] == s[i]);
        }
        lemma_without_spaces_keeps_the_rest(front);
        assert(front.push(s.last()) =~= s);
    }
}

/// A copy of `line` with every space character removed.
pub fn strip_spaces(line: &Vec<char>) -> (r: Vec<char>)
    ensures
        r@ == without_spaces(line@),
{
    let mut r: Vec<char> = Vec::new();
    let mut i: usize = 0;
    proof {
        reveal(Seq::filter);
        assert(line@.take(0) =~= Seq::<char>::empty());
    }
    while i < line.len()
        invariant
            i <= line.len(),
            r@ == without_spaces(line@.take(i as int)),
        decreases line.len() - i,
    {
        let c = line[i];
        proof {
            reveal(Seq::filter);
            assert(line@.take(i + 1).drop_last() =~= line@.take(i as int));
            assert(line@.take(i + 1).last() == c);
        }
        if c != ' ' {
            r.push(c);
        }
        i += 1;
    }
    assert(line@.take(line@.len() as int) =~= line@);
    r
}

/// The whitespace characters of Unicode (`White_Space`).
pub open spec fn is_whitespace(c: char) -> bool {
    let n = c as u32;
    ||| 0x09 <= n <= 0x0D
    ||| n == 0x20
    ||| n == 0x85
    ||| n == 0xA0
    ||| n == 0x1680
    ||| 0x2000 <= n <= 0x200A
    ||| n == 0x2028
    ||| n == 0x2029
    ||| n == 0x202F
    ||| n == 0x205F
    ||| n == 0x3000
}

/// Tests whether `c` is a whitespace character.
pub fn is_whitespace_char(c: char) -> (b: bool)
    ensures
        b == is_whitespace(c),
{
    let n: u32 = c as u32;
    (0x09 <= n && n <= 0x0D) || n == 0x20 || n == 0x85 || n == 0xA0 || n == 0x1680 || (0x2000 <= n
        && n <= 0x200A) || n == 0x2028 || n == 0x2029 || n == 0x202F || n == 0x205F || n == 0x3000
}

/// The number of whitespace characters `s` begins with.
pub open spec fn leading_whitespace(s: Seq<char>) -> nat
    decreases s.len(),
{
    if s.len() > 0 && is_whitespace(s[0]) {
        1 + leading_whitespace(s.drop_first())
    } else {
        0
    }
}

/// `s` without the whitespace it begins with.
pub open spec fn trim_start(s: Seq<char>) -> Seq<char> {
    s.subrange(leading_whitespace(s) as int, s.len() as int)
}

/// A run of `n` whitespace characters that ends `s` or is followed by another
/// character is all the whitespace `s` begins with.
pub proof fn lemma_leading_whitespace(s: Seq<char>, n: nat)
    requires
        n <= s.len(),
        forall|j: int| 0 <= j < n ==> is_whitespace(#[trigger] s[j]),
        n < s.len() ==> !is_whitespace(s[n as int]),
    ensures
        leading_whitespace(s) == n,
    decreases n,
{
    if n > 0 {
        let rest = s.drop_first();
        assert forall|j: int| 0 <= j < n - 1 implies is_whitespace(#[trigger] rest[j]) by {
            assert(rest[j] == s[j + 1]);
        }
        lemma_leading_whitespace(rest, (n - 1) as nat);
    }
}

/// The part of `line` from position `from` on, without the whitespace it
/// begins with.
pub fn trimmed_tail(line: &Vec<char>, from: usize) -> (r: Vec<char>)
    requires
        from <= line.len(),
    ensures
        r@ == trim_start(line@.subrange(from as int, line@.len() as int)),
{
    let ghost tail = line@.subrange(from as int, line@.len() as int);
    let mut i: usize = from;
    while i < line.len() && is_whitespace_char(line[i])
        invariant
            from <= i <= line.len(),
            tail == line@.subrange(from as int, line@.len() as int),
            forall|j: int| 0 <= j < i - from ==> is_whitespace(#[trigger] tail[j]),
        decreases line.len() - i,
    {
        i += 1;
    }
    proof {
        lemma_leading_whitespace(tail, (i - from) as nat);
    }
    let mut r: Vec<char> = Vec::new();
    let ghost start = i;
    while i < line.len()
        invariant
            start <= i <= line.len(),
            r@ == line@.subrange(start as int, i as int),
        decreases line.len() - i,
    {
        r.push(line[i]);
        i += 1;
        assert(r@ =~= line@.subrange(start as int, i as int));
    }
    assert(r@ =~= tail.subrange((start - from) as int, tail.len() as int));
    r
}

/// The parts in order, with `sep` between each two neighbours.
pub open spec fn join(parts: Seq<Seq<char>>, sep: char) -> Seq<char>
    decreases parts.len(),
{
    if parts.len() == 0 {
        Seq::empty()
    } else if parts.len() == 1 {
        parts[0]
    } else {
        join(parts.drop_last(), sep).push(sep) + parts.last()
    }
}

/// Joining two runs of parts is joining each and putting the separator
/// between the two results: every part stands in the joined text as it is.
pub proof fn lemma_join_concat(a: Seq<Seq<char>>, b: Seq<Seq<char>>, sep: char)
    requires
        a.len() > 0,
        b.len() > 0,
    ensures
        join(a + b, sep) == join(a, sep).push(sep) + join(b, sep),
    decreases b.len(),
{
    assert((a + b).drop_last() =~= a + b.drop_last());
    assert((a + b).last() == b.last());
    if b.len() == 1 {
        assert(a + b.drop_last() =~= a);
    } else {
        lemma_join_concat(a, b.drop_last(), sep);
        assert((join(a, sep).push(sep) + join(b.drop_last(), sep)).push(sep) + b.last() =~= join(
            a,
            sep,
        ).push(sep) + (join(b.drop_last(), sep).push(sep) + b.last()));
    }
}

/// The length of a joined text: the lengths of the parts, and one separator
/// between each two neighbours.
pub open spec fn joined_len(parts: Seq<Seq<char>>) -> nat
    decreases parts.len(),
{
    if parts.len() == 0 {
        0
    } else if parts.len() == 1 {
        parts[0].len()
    } else {
        joined_len(parts.drop_last()) + 1 + parts.last().len()
    }
}

/// Joining adds nothing but the separators and takes nothing away.
pub proof fn lemma_join_len(parts: Seq<Seq<char>>, sep: char)
    ensures
        join(parts, sep).len() == joined_len(parts),
    decreases parts.len(),
{
    if parts.len() > 1 {
        lemma_join_len(parts.drop_last(), sep);
    }
}

/// Joins the parts from position `from` up to `to`, with `sep` between each
/// two neighbours.
pub fn join_lines(parts: &Vec<Vec<char>>, from: usize, to: usize, sep: char) -> (r: Vec<char>)
    requires
        from <= to <= parts.len(),
    ensures
        r@ == join(views(parts@).subrange(from as int, to as int), sep),
{
    let ghost chosen = views(parts@).subrange(from as int, to as int);
    let mut r: Vec<char> = Vec::new();
    let mut i: usize = from;
    proof {
        assert(chosen.take(0) =~= Seq::<Seq<char>>::empty());
    }
    while i < to
        invariant
            from <= i <= to <= parts.len(),
            chosen == views(parts@).subrange(from as int, to as int),
            r@ == join(chosen.take(i - from), sep),
        decreases to - i,
    {
        if i > from {
            r.push(sep);
        }
        let part = &parts[i];
        push_all(&mut r, part);
        proof {
            let upto = chosen.take(i + 1 - from);
            assert(upto.drop_last() =~= chosen.take(i - from));
            assert(upto.last() == part@);
            if i == from {
                assert(upto[0] == part@);
                assert(r@ =~= part@);
            }
        }
        i += 1;
    }
    assert(chosen.take(chosen.len() as int) =~= chosen);
    r
}

/// The number of characters of `s` before its first line feed, or the length
/// of `s` where it holds none.
pub open spec fn first_line_len(s: Seq<char>) -> nat
    decreases s.len(),
{
    if s.len() == 0 || s[0] == '\n' {
        0
    } else {
        1 + first_line_len(s.drop_first())
    }
}

/// A position `n` that no line feed precedes, and that ends `s` or holds a
/// line feed, is `first_line_len(s)`.
pub proof fn lemma_first_line_len_is(s: Seq<char>, n: nat)
    requires
        n <= s.len(),
        forall|j: int| 0 <= j < n ==> #[trigger] s[j] != '\n',
        n < s.len() ==> s[n as int] == '\n',
    ensures
        first_line_len(s) == n,
    decreases n,
{
    if n > 0 {
        let rest = s.drop_first();
        assert forall|j: int| 0 <= j < n - 1 implies #[trigger] rest[j] != '\n' by {
            assert(rest[j] == s[j + 1]);
        }
        lemma_first_line_len_is(rest, (n - 1) as nat);
    }
}

/// A line as it was cut off before a line feed, without the carriage return
/// that may end it.
pub open spec fn without_carriage_return(line: Seq<char>) -> Seq<char> {
    if line.len() > 0 && line.last() == '\r' {
        line.drop_last()
    } else {
        line
    }
}

/// The lines of a text. A line ends with a line feed, or with a carriage
/// return and a line feed, neither of which belongs to it; the last line needs
/// no line ending, and a text that ends with a line ending has no empty line
/// after it.
pub open spec fn split_lines(s: Seq<char>) -> Seq<Seq<char>>
    decreases s.len(),
{
    let n = first_line_len(s) as int;
    if s.len() == 0 {
        Seq::empty()
    } else if n >= s.len() {
        seq![s]
    } else {
        seq![without_carriage_return(s.subrange(0, n))] + split_lines(
            s.subrange(n + 1, s.len() as int),
        )
    }
}

/// Splits a text into its lines.
pub fn lines_of(text: &Vec<char>) -> (lines: Vec<Vec<char>>)
    ensures
        views(lines@) == split_lines(text@),
{
    let mut lines: Vec<Vec<char>> = Vec::new();
    let mut pos: usize = 0;
    proof {
        assert(views(lines@) =~= Seq::<Seq<char>>::empty());
        assert(text@.subrange(0, text@.len() as int) =~= text@);
    }
    while pos < text.len()
        invariant
            pos <= text.len(),
            views(lines@) + split_lines(text@.subrange(pos as int, text@.len() as int))
                == split_lines(text@),
        decreases text.len() - pos,
    {
        let ghost rest = text@.subrange(pos as int, text@.len() as int);
        let ghost done = views(lines@);
        let mut line: Vec<char> = Vec::new();
        let mut end: usize = pos;
        while end < text.len() && text[end] != '\n'
            invariant
                pos <= end <= text.len(),
                line@ == text@.subrange(pos as int, end as int),
                forall|j: int| pos <= j < end ==> #[trigger] text@[j] != '\n',
            decreases text.len() - end,
        {
            line.push(text[end]);
            end += 1;
            assert(line@ =~= text@.subrange(pos as int, end as int));
        }
        proof {
            assert forall|j: int| 0 <= j < end - pos implies #[trigger] rest[j] != '\n' by {
                assert(rest[j] == text@[pos + j]);
            }
            lemma_first_line_len_is(rest, (end - pos) as nat);
            assert(rest.subrange(0, end - pos) =~= line@);
        }
        if end < text.len() {
            let n = line.len();
            if n > 0 && line[n - 1] == '\r' {
                line.pop();
            }
            proof {
                assert(line@ =~= without_carriage_return(rest.subrange(0, end - pos)));
                assert(rest.subrange(end - pos + 1, rest.len() as int) =~= text@.subrange(
                    end + 1,
                    text@.len() as int,
                ));
            }
            lines.push(line);
            pos = end + 1;
            proof {
                assert(views(lines@) =~= done + seq![line@]);
                assert(views(lines@) + split_lines(
                    text@.subrange(pos as int, text@.len() as int),
                ) =~= done + split_lines(rest));
            }
        } else {
            lines.push(line);
            pos = end;
            proof {
                assert(line@ =~= rest);
                assert(views(lines@) =~= done + seq![line@]);
                assert(text@.subrange(pos as int, text@.len() as int) =~= Seq::<char>::empty());
                assert(views(lines@) + split_lines(
                    text@.subrange(pos as int, text@.len() as int),
                ) =~= done + split_lines(rest));
            }
        }
    }
    proof {
        assert(text@.subrange(pos as int, text@.len() as int) =~= Seq::<char>::empty());
        assert(views(lines@) + Seq::<Seq<char>>::empty() =~= views(lines@));
    }
    lines
}

/// The character of a decimal digit.
pub open spec fn digit_char(d: nat) -> char {
    if d == 0 {
        '0'
    } else if d == 1 {
        '1'
    } else if d == 2 {
        '2'
    } else if d == 3 {
        '3'
    } else if d == 4 {
        '4'
    } else if d == 5 {
        '5'
    } else if d == 6 {
        '6'
    } else if d == 7 {
        '7'
    } else if d == 8 {
        '8'
    } else {
        '9'
    }
}

/// The decimal digits of `n`, most significant first, without leading zeros.
pub open spec fn decimal(n: nat) -> Seq<char>
    decreases n,
{
    if n < 10 {
        seq![digit_char(n)]
    } else {
        decimal(n / 10).push(digit_char(n % 10))
    }
}

/// Appends the decimal digits of `n` to `out`.
pub fn push_decimal(out: &mut Vec<char>, n: usize)
    ensures
        final(out)@ == old(out)@ + decimal(n as nat),
    decreases n,
{
    if n >= 10 {
        push_decimal(out, n / 10);
    }
    let d: usize = n % 10;
    let c: char = if d == 0 {
        '0'
    } else if d == 1 {
        '1'
    } else if d == 2 {
        '2'
    } else if d == 3 {
        '3'
    } else if d == 4 {
        '4'
    } else if d == 5 {
        '5'
    } else if d == 6 {
        '6'
    } else if d == 7 {
        '7'
    } else if d == 8 {
        '8'
    } else {
        '9'
    };
    out.push(c);
    assert(final(out)@ =~= old(out)@ + decimal(n as nat));
}

/// Appends the characters of `tail` to `out`.
pub fn push_all(out: &mut Vec<char>, tail: &Vec<char>)
    ensures
        final(out)@ == old(out)@ + tail@,
{
    let mut k: usize = 0;
    assert(out@ =~= old(out)@ + tail@.subrange(0, 0));
    while k < tail.len()
        invariant
            k <= tail.len(),
            out@ == old(out)@ + tail@.subrange(0, k as int),
        decreases tail.len() - k,
    {
        out.push(tail[k]);
        k += 1;
        assert(out@ =~= old(out)@ + tail@.subrange(0, k as int));
    }
    assert(tail@.subrange(0, tail@.len() as int) =~= tail@);
}

/// Appends the characters of `tail` to `out`.
pub fn push_str(out: &mut Vec<char>, tail: &str)
    ensures
        final(out)@ == old(out)@ + tail@,
{
    let chars = chars_of(tail);
    push_all(out, &chars);
}

/// Tests whether two texts hold the same characters.
pub fn same_text(a: &Vec<char>, b: &Vec<char>) -> (same: bool)
    ensures
        same == (a@ == b@),
{
    if a.len() != b.len() {
        return false;
    }
    let mut i: usize = 0;
    while i < a.len()
        invariant
            i <= a.len(),
            a.len() == b.len(),
            forall|j: int| 0 <= j < i ==> a@[j] == b@[j],
        decreases a.len() - i,
    {
        if a[i] != b[i] {
            return false;
        }
        i += 1;
    }
    assert(a@ =~= b@);
    true
}

/// Tests whether `items` holds a string with the characters of `text`.
pub fn holds_text(items: &Vec<String>, text: &Vec<char>) -> (found: bool)
    ensures
        found == string_views(items@).contains(text@),
{
    let mut i: usize = 0;
    while i < items.len()
        invariant
            i <= items.len(),
            forall|j: int| 0 <= j < i ==> string_views(items@)[j] != text@,
        decreases items.len() - i,
    {
        let item = chars_of(items[i].as_str());
        if same_text(&item, text) {
            assert(string_views(items@)[i as int] == text@);
            return true;
        }
        i += 1;
    }
    false
}

} // verus!
