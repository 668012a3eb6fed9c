//! Newline-delimited text: splitting a byte stream into lines and putting it
//! back together.

use vstd::prelude::*;

verus! {

/// The byte that ends a line.
pub const NEWLINE: u8 = 10;

/// Position of the first newline in `s`, or `s.len()` when there is none.
pub open spec fn newline_at(s: Seq<u8>) -> int
    decreases s.len(),
{
    if s.len() == 0 || s[0] == NEWLINE {
        0
    } else {
        1 + newline_at(s.skip(1))
    }
}

/// The complete lines of `s`, in order and without their newlines.
pub open spec fn lines_of(s: Seq<u8>) -> Seq<Seq<u8>>
    decreases s.len(),
    via lines_of_decreases
{
    let n = newline_at(s);
    if n >= s.len() {
        Seq::empty()
    } else {
        seq![s.take(n)] + lines_of(s.skip(n + 1))
    }
}

#[via_fn]
proof fn lines_of_decreases(s: Seq<u8>) {
    lemma_newline_at(s);
}

/// What follows the last newline of `s`: the line that is still incomplete.
pub open spec fn tail_of(s: Seq<u8>) -> Seq<u8>
    decreases s.len(),
    via tail_of_decreases
{
    let n = newline_at(s);
    if n >= s.len() {
        s
    } else {
        tail_of(s.skip(n + 1))
    }
}

#[via_fn]
proof fn tail_of_decreases(s: Seq<u8>) {
    lemma_newline_at(s);
}

/// `lines` as one byte string, each line followed by a newline.
pub open spec fn joined(lines: Seq<Seq<u8>>) -> Seq<u8>
    decreases lines.len(),
{
    if lines.len() == 0 {
        Seq::empty()
    } else {
        lines[0].push(NEWLINE) + joined(lines.skip(1))
    }
}

/// Whether `s` holds no newline.
pub open spec fn one_line(s: Seq<u8>) -> bool {
    forall|i: int| 0 <= i < s.len() ==> s[i] != NEWLINE
}

pub proof fn lemma_newline_at(s: Seq<u8>)
    ensures
        0 <= newline_at(s) <= s.len(),
        newline_at(s) < s.len() ==> s[newline_at(s)] == NEWLINE,
        forall|i: int| 0 <= i < newline_at(s) ==> s[i] != NEWLINE,
    decreases s.len(),
{
    if s.len() == 0 || s[0] == NEWLINE {
    } else {
        let t = s.skip(1);
        lemma_newline_at(t);
        assert forall|i: int| 0 <= i < newline_at(s) implies s[i] != NEWLINE by {
            if i > 0 {
                assert(s[i] == t[i - 1]);
            }
        }
    }
}

/// A newline at `n` with none before it is the first one.
pub proof fn lemma_newline_at_is(s: Seq<u8>, n: int)
    requires
        0 <= n <= s.len(),
        n < s.len() ==> s[n] == NEWLINE,
        forall|i: int| 0 <= i < n ==> s[i] != NEWLINE,
    ensures
        newline_at(s) == n,
{
    lemma_newline_at(s);
    let m = newline_at(s);
    if m < n {
        assert(s[m] != NEWLINE);
    } else if n < m {
        assert(s[n] != NEWLINE);
    }
}

/// Putting the lines of a stream and its unfinished tail back together gives
/// the stream.
pub proof fn joined_lines_restore_stream(s: Seq<u8>)
    ensures
        joined(lines_of(s)) + tail_of(s) == s,
    decreases s.len(),
{
    lemma_newline_at(s);
    let n = newline_at(s);
    if n >= s.len() {
        assert(joined(lines_of(s)) + tail_of(s) =~= s);
    } else {
        let rest = s.skip(n + 1);
        joined_lines_restore_stream(rest);
        let ls = lines_of(s);
        assert(ls.skip(1) =~= lines_of(rest));
        assert(ls[0] == s.take(n));
        assert(joined(ls) + tail_of(s) =~= s.take(n).push(NEWLINE) + (joined(lines_of(rest))
            + tail_of(rest)));
        assert(s.take(n).push(NEWLINE) + rest =~= s);
    }
}

/// Splitting a stream read in two pieces gives the same lines and the same
/// tail as splitting it at once, as long as the first piece's tail is carried
/// over into the second.
pub proof fn lines_are_independent_of_chunking(a: Seq<u8>, b: Seq<u8>)
    ensures
        lines_of(a + b) == lines_of(a) + lines_of(tail_of(a) + b),
        tail_of(a + b) == tail_of(tail_of(a) + b),
    decreases a.len(),
{
    lemma_newline_at(a);
    let n = newline_at(a);
    if n >= a.len() {
        assert(lines_of(a) + lines_of(a + b) =~= lines_of(a + b));
    } else {
        let rest = a.skip(n + 1);
        lemma_newline_at_is(a + b, n);
        assert((a + b).take(n) =~= a.take(n));
        assert((a + b).skip(n + 1) =~= rest + b);
        lines_are_independent_of_chunking(rest, b);
        assert(lines_of(a + b) =~= lines_of(a) + lines_of(tail_of(a) + b));
    }
}

/// No line holds a newline, and neither does the tail.
pub proof fn lines_hold_no_newline(s: Seq<u8>)
    ensures
        forall|i: int| 0 <= i < lines_of(s).len() ==> one_line(#[trigger] lines_of(s)[i]),
        one_line(tail_of(s)),
    decreases s.len(),
{
    lemma_newline_at(s);
    let n = newline_at(s);
    if n < s.len() {
        let rest = s.skip(n + 1);
        lines_hold_no_newline(rest);
        assert forall|i: int| 0 <= i < lines_of(s).len() implies one_line(
            #[trigger] lines_of(s)[i],
        ) by {
            if i > 0 {
                assert(lines_of(s)[i] == lines_of(rest)[i - 1]);
            }
        }
    }
}

/// A single line followed by its newline splits into just that line.
pub proof fn lemma_lines_of_one(line: Seq<u8>)
    requires
        one_line(line),
    ensures
        lines_of(line.push(NEWLINE)) == seq![line],
        tail_of(line.push(NEWLINE)) == Seq::<u8>::empty(),
{
    let s = line.push(NEWLINE);
    lemma_newline_at_is(s, line.len() as int);
    assert(s.take(line.len() as int) =~= line);
    let rest = s.skip(line.len() as int + 1);
    assert(rest =~= Seq::<u8>::empty());
    lemma_newline_at(rest);
    assert(lines_of(rest) =~= Seq::<Seq<u8>>::empty());
    assert(tail_of(rest) =~= rest);
    assert(lines_of(s) =~= seq![line]);
}

/// Joining single lines and splitting the result gives the lines back.
pub proof fn lines_of_joined(lines: Seq<Seq<u8>>)
    requires
        forall|i: int| 0 <= i < lines.len() ==> one_line(#[trigger] lines[i]),
    ensures
        lines_of(joined(lines)) == lines,
        tail_of(joined(lines)) == Seq::<u8>::empty(),
    decreases lines.len(),
{
    if lines.len() == 0 {
        lemma_newline_at(Seq::<u8>::empty());
        assert(lines_of(joined(lines)) =~= lines);
    } else {
        let rest = lines.skip(1);
        assert forall|i: int| 0 <= i < rest.len() implies one_line(#[trigger] rest[i]) by {
            assert(rest[i] == lines[i + 1]);
        }
        lines_of_joined(rest);
        lemma_lines_of_one(lines[0]);
        lines_are_independent_of_chunking(lines[0].push(NEWLINE), joined(rest));
        assert(Seq::<u8>::empty() + joined(rest) =~= joined(rest));
        assert(seq![lines[0]] + rest =~= lines);
    }
}

/// The lines of a `Vec` of byte strings.
pub open spec fn views(lines: Seq<Vec<u8>>) -> Seq<Seq<u8>> {
    lines.map_values(|l: Vec<u8>| l@)
}

/// Copies `s[from..to]` into a fresh vector.
pub fn copy_range(s: &[u8], from: usize, to: usize) -> (out: Vec<u8>)
    requires
        from <= to <= s@.len(),
    ensures
        out@ == s@.subrange(from as int, to as int),
{
    let mut out: Vec<u8> = Vec::with_capacity(to - from);
    let mut i: usize = from;
    while i < to
        invariant
            from <= i <= to <= s@.len(),
            out@ == s@.subrange(from as int, i as int),
        decreases to - i,
    {
        out.push(s[i]);
        i = i + 1;
        assert(out@ =~= s@.subrange(from as int, i as int));
    }
    out
}

/// Appends `bytes` to `line_buf` and moves every complete line, without its
/// newline, to the end of `lines`. A trailing partial line stays in
/// `line_buf`.
pub fn drain_lines(line_buf: &mut Vec<u8>, bytes: &[u8], lines: &mut Vec<Vec<u8>>)
    ensures
        views(final(lines)@) == views(old(lines)@) + lines_of(old(line_buf)@ + bytes@),
        final(line_buf)@ == tail_of(old(line_buf)@ + bytes@),
{
    let ghost stream = old(line_buf)@ + bytes@;
    line_buf.extend_from_slice(bytes);
    assert(line_buf@ =~= stream);
    let total: usize = line_buf.len();
    let mut start: usize = 0;
    let mut i: usize = 0;
    assert(stream.skip(0) =~= stream);
    assert(views(lines@) + lines_of(stream) =~= views(old(lines)@) + lines_of(stream));
    while i < total
        invariant
            start <= i <= total,
            total == stream.len(),
            line_buf@ == stream,
            forall|k: int| start <= k < i ==> stream[k] != NEWLINE,
            views(lines@) + lines_of(stream.skip(start as int)) == views(old(lines)@) + lines_of(
                stream,
            ),
            tail_of(stream.skip(start as int)) == tail_of(stream),
        decreases total - i,
    {
        if line_buf[i] == NEWLINE {
            let line: Vec<u8> = copy_range(line_buf.as_slice(), start, i);
            let ghost rest = stream.skip(start as int);
            proof {
                lemma_newline_at_is(rest, i - start);
                assert(rest.take(i - start) =~= line@);
                assert(rest.skip(i - start + 1) =~= stream.skip(i + 1));
            }
            let ghost before = lines@;
            lines.push(line);
            assert(views(lines@) =~= views(before).push(line@));
            assert(views(lines@) + lines_of(stream.skip(i + 1)) =~= views(before) + lines_of(rest));
            start = i + 1;
        }
        i = i + 1;
    }
    proof {
        let rest = stream.skip(start as int);
        lemma_newline_at_is(rest, rest.len() as int);
        assert(lines_of(rest) =~= Seq::<Seq<u8>>::empty());
        assert(views(lines@) + lines_of(rest) =~= views(lines@));
    }
    let tail: Vec<u8> = copy_range(line_buf.as_slice(), start, total);
    assert(tail@ =~= stream.skip(start as int));
    *line_buf = tail;
}

/// Lines end at the byte 10 and nowhere else: text without that byte is one
/// unfinished line, and a line is complete with the first one that follows.
pub proof fn lines_end_at_newlines(line: Seq<u8>, rest: Seq<u8>)
    requires
        forall|i: int| 0 <= i < line.len() ==> line[i] != 10u8,
    ensures
        lines_of(line) == Seq::<Seq<u8>>::empty(),
        tail_of(line) == line,
        lines_of(line + seq![10u8] + rest) == seq![line] + lines_of(rest),
        tail_of(line + seq![10u8] + rest) == tail_of(rest),
{
    lemma_newline_at(line);
    lemma_newline_at_is(line, line.len() as int);
    let s = line + seq![10u8] + rest;
    lemma_newline_at_is(s, line.len() as int);
    assert(s.take(line.len() as int) =~= line);
    assert(s.skip(line.len() as int + 1) =~= rest);
}

/// A list of byte strings reads as its strings, in order.
pub proof fn strings_read_in_order(lines: Seq<Vec<u8>>, i: int)
    requires
        0 <= i < lines.len(),
    ensures
        views(lines).len() == lines.len(),
        views(lines)[i] == lines[i]@,
{
}

} // verus!
