//! The lines of a box: how wide the widest is, and how each is filled up to
//! the width of the box and closed by the right border.
use crate::text::byte_len;
use crate::text::byte_length;
use crate::text::push_repeated;
use crate::text::repeated;
use vstd::prelude::*;

verus! {

/// The texts of the lines.
pub open spec fn texts(lines: Seq<String>) -> Seq<Seq<char>> {
    Seq::new(lines.len(), |line: int| lines[line]@)
}

/// The number of bytes of the widest line, or `least` where no line is wider.
pub open spec fn widest(lines: Seq<Seq<char>>, least: nat) -> nat
    decreases lines.len(),
{
    if lines.len() == 0 {
        least
    } else if byte_len(lines.last()) > widest(lines.drop_last(), least) {
        byte_len(lines.last())
    } else {
        widest(lines.drop_last(), least)
    }
}

/// The lines one after the other, each filled up with spaces to `width`
/// bytes and closed by the right border.
pub open spec fn framed(lines: Seq<Seq<char>>, width: nat) -> Seq<char>
    decreases lines.len(),
{
    if lines.len() == 0 {
        Seq::empty()
    } else {
        framed(lines.drop_last(), width) + lines.last() + repeated(
            ' ',
            (width - byte_len(lines.last())) as nat,
        ) + "  ║"@
    }
}

/// No line is wider than the widest, and the widest is at least `least`.
pub proof fn lemma_widest_bounds(lines: Seq<Seq<char>>, least: nat)
    ensures
        least <= widest(lines, least),
        forall|line: int|
            0 <= line < lines.len() ==> byte_len(#[trigger] lines[line]) <= widest(lines, least),
    decreases lines.len(),
{
    if lines.len() > 0 {
        lemma_widest_bounds(lines.drop_last(), least);
        assert forall|line: int| 0 <= line < lines.len() implies
            byte_len(#[trigger] lines[line]) <= widest(lines, least)
        by {
            if line < lines.len() - 1 {
                assert(lines.drop_last()[line] == lines[line]);
            }
        }
    }
}

/// The number of bytes of the widest line, or `least` where no line is wider.
pub fn widest_line(lines: &Vec<String>, least: usize) -> (width: usize)
    requires
        forall|line: int|
            0 <= line < lines@.len() ==> byte_len(#[trigger] lines@[line]@) <= usize::MAX,
    ensures
        width == widest(texts(lines@), least as nat),
{
    let mut width: usize = least;
    let mut line: usize = 0;
    assert(texts(lines@).take(0) =~= Seq::<Seq<char>>::empty());
    while line < lines.len()
        invariant
            line <= lines@.len(),
            forall|other: int|
                0 <= other < lines@.len() ==> byte_len(#[trigger] lines@[other]@) <= usize::MAX,
            width == widest(texts(lines@).take(line as int), least as nat),
        decreases lines@.len() - line,
    {
        let taken: usize = byte_length(&lines[line]);
        proof {
            let seen = texts(lines@).take(line + 1);
            assert(seen.drop_last() =~= texts(lines@).take(line as int));
            assert(seen.last() == lines@[line as int]@);
        }
        if taken > width {
            width = taken;
        }
        line += 1;
    }
    assert(texts(lines@).take(lines@.len() as int) =~= texts(lines@));
    width
}

/// Appends the lines, each filled up to `width` bytes and closed by the
/// right border.
pub fn frame_lines(drawn: &mut String, lines: &Vec<String>, width: usize)
    requires
        forall|line: int| 0 <= line < lines@.len() ==> byte_len(#[trigger] lines@[line]@) <= width,
    ensures
        final(drawn)@ == old(drawn)@ + framed(texts(lines@), width as nat),
{
    let mut line: usize = 0;
    proof {
        reveal_strlit(" ");
        assert(texts(lines@).take(0) =~= Seq::<Seq<char>>::empty());
        assert(drawn@ =~= old(drawn)@ + framed(texts(lines@).take(0), width as nat));
    }
    while line < lines.len()
        invariant
            line <= lines@.len(),
            " "@.len() == 1,
            " "@[0] == ' ',
            forall|other: int|
                0 <= other < lines@.len() ==> byte_len(#[trigger] lines@[other]@) <= width,
            drawn@ == old(drawn)@ + framed(texts(lines@).take(line as int), width as nat),
        decreases lines@.len() - line,
    {
        let ghost before = drawn@;
        let taken: usize = byte_length(&lines[line]);
        drawn.append(lines[line].as_str());
        push_repeated(drawn, " ", width - taken);
        drawn.append("  ║");
        proof {
            let seen = texts(lines@).take(line + 1);
            assert(seen.drop_last() =~= texts(lines@).take(line as int));
            assert(seen.last() == lines@[line as int]@);
            assert(drawn@ =~= old(drawn)@ + framed(seen, width as nat));
        }
        line += 1;
    }
    assert(texts(lines@).take(lines@.len() as int) =~= texts(lines@));
}

} // verus!
