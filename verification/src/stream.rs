//! The diagnostic stream as text: what it holds once lines have been written
//! to it, and the lines that a reader finds in it.

use vstd::prelude::*;

verus! {

/// Whether `text` holds no line break.
pub open spec fn is_single_line(text: Seq<char>) -> bool {
    forall|i: int| 0 <= i < text.len() ==> text[i] != '\n'
}

/// What the stream holds after `lines` were written to it in turn, each
/// followed by a line break.
pub open spec fn written(lines: Seq<Seq<char>>) -> Seq<char>
    decreases lines.len(),
{
    if lines.len() == 0 {
        Seq::empty()
    } else {
        lines.first() + seq!['\n'] + written(lines.drop_first())
    }
}

/// The place of the first line break in `text`, or its length if it has none.
pub open spec fn first_break(text: Seq<char>) -> nat
    decreases text.len(),
{
    if text.len() == 0 || text[0] == '\n' {
        0
    } else {
        1 + first_break(text.drop_first())
    }
}

/// The lines that a reader finds in `text`: what stands before each line
/// break, and after the last one if anything stands there.
pub open spec fn lines_of(text: Seq<char>) -> Seq<Seq<char>>
    decreases text.len(),
{
    let cut = first_break(text) as int;
    if text.len() == 0 {
        Seq::empty()
    } else if cut >= text.len() {
        seq![text]
    } else {
        seq![text.subrange(0, cut)] + lines_of(text.subrange(cut + 1, text.len() as int))
    }
}

/// Two texts without a line break make one without a line break.
pub proof fn lemma_joined_single_line(head: Seq<char>, tail: Seq<char>)
    requires
        is_single_line(head),
        is_single_line(tail),
    ensures
        is_single_line(head + tail),
{
    assert forall|i: int| 0 <= i < (head + tail).len() implies (head + tail)[i] != '\n' by {
        if i < head.len() {
            assert((head + tail)[i] == head[i]);
        } else {
            assert((head + tail)[i] == tail[i - head.len()]);
        }
    }
}

/// The first line break of a line that is followed by one stands at the
/// line's end.
pub proof fn lemma_first_break(line: Seq<char>, rest: Seq<char>)
    requires
        is_single_line(line),
    ensures
        first_break(line + seq!['\n'] + rest) == line.len(),
    decreases line.len(),
{
    let text = line + seq!['\n'] + rest;
    if line.len() == 0 {
        assert(text[0] == '\n');
    } else {
        assert(text[0] == line[0]);
        assert(text.drop_first() =~= line.drop_first() + seq!['\n'] + rest);
        assert forall|i: int| 0 <= i < line.drop_first().len() implies line.drop_first()[i]
            != '\n' by {
            assert(line.drop_first()[i] == line[i + 1]);
        }
        lemma_first_break(line.drop_first(), rest);
    }
}

/// Lines without a line break in them are read back from the stream as they
/// were written: as many, the same, and in the same order.
pub proof fn lemma_lines_read_back(lines: Seq<Seq<char>>)
    requires
        forall|i: int| 0 <= i < lines.len() ==> is_single_line(#[trigger] lines[i]),
    ensures
        lines_of(written(lines)) == lines,
    decreases lines.len(),
{
    if lines.len() > 0 {
        let line = lines.first();
        let rest = written(lines.drop_first());
        let text = written(lines);
        assert(text == line + seq!['\n'] + rest);
        lemma_first_break(line, rest);
        assert(text.subrange(0, line.len() as int) =~= line);
        assert(text.subrange(line.len() as int + 1, text.len() as int) =~= rest);
        assert forall|i: int| 0 <= i < lines.drop_first().len() implies is_single_line(
            #[trigger] lines.drop_first()[i],
        ) by {
            assert(lines.drop_first()[i] == lines[i + 1]);
        }
        lemma_lines_read_back(lines.drop_first());
        assert(seq![line] + lines.drop_first() =~= lines);
    }
}

} // verus!
