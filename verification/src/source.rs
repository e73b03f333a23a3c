//! A source text as lines: how a text is split, and where an offset into
//! the text lies among its lines.

use crate::error_fmt::{
    can_point_at, is_point_of, lemma_point_unique, line_lengths, line_start, point_of,
};
use vstd::prelude::*;
use vstd::string::StringSliceAdditionalSpecFns;
use vstd::utf8::{
    encode_utf8, encode_utf8_valid_utf8, is_char_boundary, is_char_boundary_iff_is_leading_byte,
};

verus! {

/// Where the first line of a text ends: at its first line feed, or at the end
/// of the text where it has none.
pub open spec fn first_line_end(text: Seq<u8>) -> int
    decreases text.len(),
{
    if text.len() == 0 || text[0] == 10 {
        0
    } else {
        1 + first_line_end(text.drop_first())
    }
}

/// The lines of a text, without the line feeds that part them. A text has
/// one line more than it has line feeds: an empty text has one empty line.
pub open spec fn byte_lines(text: Seq<u8>) -> Seq<Seq<u8>>
    decreases text.len(),
{
    let end = first_line_end(text);
    if 0 <= end < text.len() {
        seq![text.subrange(0, end)] + byte_lines(text.subrange(end + 1, text.len() as int))
    } else {
        seq![text]
    }
}

/// Whether `lines` are the lines of `text`, each as a string.
pub open spec fn is_split_of(lines: Seq<String>, text: Seq<u8>) -> bool {
    &&& lines.len() == byte_lines(text).len()
    &&& forall|k: int|
        0 <= k < lines.len() ==> encode_utf8(#[trigger] lines[k]@) == byte_lines(text)[k]
}

/// The first line ends within the text, before it there is no line feed,
/// and where it ends before the text does, a line feed stands.
pub proof fn lemma_first_line_end(text: Seq<u8>)
    ensures
        0 <= first_line_end(text) <= text.len(),
        forall|i: int| 0 <= i < first_line_end(text) ==> text[i] != 10,
        first_line_end(text) < text.len() ==> text[first_line_end(text)] == 10,
    decreases text.len(),
{
    if text.len() > 0 && text[0] != 10 {
        lemma_first_line_end(text.drop_first());
        assert forall|i: int| 0 <= i < first_line_end(text) implies text[i] != 10 by {
            if i > 0 {
                assert(text[i] == text.drop_first()[i - 1]);
            }
        }
    }
}

/// Finds where the first line of a text ends.
fn find_line_end(text: &[u8]) -> (end: usize)
    ensures
        end == first_line_end(text@),
{
    let mut i: usize = 0;
    proof {
        assert(text@.subrange(0, text.len() as int) =~= text@);
    }
    while i < text.len() && text[i] != 10
        invariant
            i <= text.len(),
            first_line_end(text@) == i + first_line_end(
                text@.subrange(i as int, text.len() as int),
            ),
        decreases text.len() - i,
    {
        proof {
            let rest = text@.subrange(i as int, text.len() as int);
            assert(rest.drop_first() =~= text@.subrange(i + 1, text.len() as int));
        }
        i += 1;
    }
    i
}

/// Splits a text into its lines.
pub fn split_lines(source: &str) -> (lines: Vec<String>)
    ensures
        is_split_of(lines@, source.spec_bytes()),
        lines.len() > 0,
{
    let mut lines: Vec<String> = Vec::new();
    let mut rest: &str = source;
    // The lines found so far, as bytes
    let ghost mut done: Seq<Seq<u8>> = seq![];
    loop
        invariant
            done.len() == lines.len(),
            forall|k: int| 0 <= k < lines.len() ==> encode_utf8(#[trigger] lines[k]@) == done[k],
            byte_lines(source.spec_bytes()) == done + byte_lines(rest.spec_bytes()),
        decreases rest.spec_bytes().len(),
    {
        let bytes = rest.as_bytes();
        let end = find_line_end(bytes);
        proof {
            lemma_first_line_end(bytes@);
            encode_utf8_valid_utf8(rest@);
        }
        if end >= bytes.len() {
            lines.push(rest.to_owned());
            proof {
                done = done.push(bytes@);
                assert(byte_lines(source.spec_bytes()) =~= done);
            }
            return lines;
        }
        proof {
            is_char_boundary_iff_is_leading_byte(bytes@, end as int);
        }
        let (line, tail) = rest.split_at(end);
        proof {
            // The tail starts with the line feed, which is one byte long
            encode_utf8_valid_utf8(tail@);
            assert(tail.spec_bytes()[0] == 10);
            reveal_with_fuel(is_char_boundary, 2);
            assert(is_char_boundary(tail.spec_bytes(), 1));
        }
        let (_, after) = tail.split_at(1);
        proof {
            assert(after.spec_bytes() =~= bytes@.subrange(end + 1, bytes@.len() as int));
            assert(done.push(line.spec_bytes()) + byte_lines(after.spec_bytes()) =~= done
                + byte_lines(bytes@));
            done = done.push(line.spec_bytes());
        }
        lines.push(line.to_owned());
        rest = after;
    }
}

/// How long each of the lines is.
pub open spec fn lengths(lines: Seq<Seq<u8>>) -> Seq<nat> {
    Seq::new(lines.len(), |i: int| lines[i].len())
}

/// The line and the place in it at which the offset `at` lies, found by
/// going through the text line by line.
pub open spec fn spot(text: Seq<u8>, at: int) -> (int, int)
    decreases text.len(),
{
    let end = first_line_end(text);
    if 0 <= end < text.len() && at > end {
        let (line, column) = spot(text.subrange(end + 1, text.len() as int), at - end - 1);
        (line + 1, column)
    } else {
        (0, at)
    }
}

/// With one line in front, every line starts later by the length of that
/// line and its line feed.
proof fn lemma_line_start_shift(first: nat, rest: Seq<nat>, i: int)
    requires
        0 <= i <= rest.len(),
    ensures
        line_start(seq![first] + rest, i + 1) == first + 1 + line_start(rest, i),
    decreases i,
{
    let all = seq![first] + rest;
    if i > 0 {
        lemma_line_start_shift(first, rest, i - 1);
        assert(all[i] == rest[i - 1]);
    } else {
        assert(all[0] == first);
        assert(line_start(all, 0) == 0);
    }
}

/// A text has one line at least.
pub proof fn lemma_lines_exist(text: Seq<u8>)
    ensures
        byte_lines(text).len() > 0,
{
}

/// All the lines of a text, with a line feed behind each, are one byte longer
/// than the text.
proof fn lemma_lines_cover(text: Seq<u8>)
    ensures
        line_start(lengths(byte_lines(text)), byte_lines(text).len() as int) == text.len() + 1,
        byte_lines(text).len() > 0,
    decreases text.len(),
{
    let end = first_line_end(text);
    lemma_first_line_end(text);
    if end < text.len() {
        let rest = text.subrange(end + 1, text.len() as int);
        lemma_lines_cover(rest);
        assert(lengths(byte_lines(text)) =~= seq![end as nat] + lengths(byte_lines(rest)));
        lemma_line_start_shift(
            end as nat,
            lengths(byte_lines(rest)),
            byte_lines(rest).len() as int,
        );
    } else {
        let lens = lengths(byte_lines(text));
        assert(lens[0] == text.len());
        assert(line_start(lens, 0) == 0);
    }
}

/// An offset into a text lies where going through the lines finds it.
pub proof fn lemma_spot_is_point(text: Seq<u8>, at: int)
    requires
        0 <= at <= text.len(),
    ensures
        is_point_of(lengths(byte_lines(text)), at, spot(text, at)),
    decreases text.len(),
{
    let end = first_line_end(text);
    let lens = lengths(byte_lines(text));
    lemma_first_line_end(text);
    lemma_lines_cover(text);
    if end < text.len() && at > end {
        let rest = text.subrange(end + 1, text.len() as int);
        let rest_lens = lengths(byte_lines(rest));
        lemma_spot_is_point(rest, at - end - 1);
        lemma_lines_cover(rest);
        assert(lens =~= seq![end as nat] + rest_lens);
        let (line, column) = spot(rest, at - end - 1);
        lemma_line_start_shift(end as nat, rest_lens, line);
        assert(lens[line + 1] == rest_lens[line]);
    } else {
        assert(lens[0] == end);
        assert(line_start(lens, 0) == 0);
    }
}

/// Two offsets with no line feed between them lie on one line, as far apart
/// as they are in the text.
pub proof fn lemma_spot_along_a_line(text: Seq<u8>, from: int, to: int)
    requires
        0 <= from <= to <= text.len(),
        forall|i: int| from <= i < to ==> text[i] != 10,
    ensures
        spot(text, to) == (spot(text, from).0, spot(text, from).1 + to - from),
    decreases text.len(),
{
    let end = first_line_end(text);
    lemma_first_line_end(text);
    if end < text.len() && from > end {
        let rest = text.subrange(end + 1, text.len() as int);
        assert forall|i: int| from - end - 1 <= i < to - end - 1 implies rest[i] != 10 by {
            assert(rest[i] == text[i + end + 1]);
        }
        lemma_spot_along_a_line(rest, from - end - 1, to - end - 1);
    }
}

/// In a text split into lines, a stretch without a line feed can be pointed
/// at: it ends on the line on which it starts, and not to the left of where it
/// starts.
pub proof fn lemma_line_stretch_can_be_pointed_at(
    lines: Seq<String>,
    text: Seq<u8>,
    from: usize,
    to: usize,
)
    requires
        is_split_of(lines, text),
        from <= to <= text.len(),
        forall|i: int| from <= i < to ==> text[i] != 10,
    ensures
        can_point_at(lines, from, Some(to)),
        can_point_at(lines, from, None),
{
    let lens = lengths(byte_lines(text));
    assert(line_lengths(lines) =~= lens);
    lemma_lines_cover(text);
    lemma_spot_is_point(text, from as int);
    lemma_spot_is_point(text, to as int);
    lemma_spot_along_a_line(text, from as int, to as int);
    lemma_point_unique(lens, from as int, spot(text, from as int), point_of(lens, from as int));
    lemma_point_unique(lens, to as int, spot(text, to as int), point_of(lens, to as int));
}

} // verus!
