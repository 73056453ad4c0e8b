//! The alignment renderer: given a completed line and the target width,
//! emits the exact character sequence for that line through a sink,
//! according to the alignment mode.

use vstd::prelude::*;
use vstd::arithmetic::div_mod::{lemma_fundamental_div_mod, lemma_mod_division_less_than_divisor};

use crate::line::{lemma_pack_lines_fit, line_len, pack, words_total, Line};
use crate::sink::Writer;

verus! {

/// The alignment policy for rendered lines.
#[derive(Debug)]
pub enum Align {
    Left,
    Right,
    Justify,
}

/// A run of `n` space characters.
pub open spec fn spaces(n: nat) -> Seq<char>
    decreases n,
{
    if n == 0 {
        Seq::empty()
    } else {
        seq![' '] + spaces((n - 1) as nat)
    }
}

/// The width left over when a line holding `ws` is rendered at width `max`.
pub open spec fn free_space(ws: Seq<Seq<char>>, max: nat) -> nat {
    if line_len(ws) <= max {
        (max - line_len(ws)) as nat
    } else {
        0
    }
}

/// The number of inter-word gaps justification distributes spaces over:
/// one fewer than the word count, except that a one-word line is treated
/// as having a single gap.
pub open spec fn line_gaps(ws: Seq<Seq<char>>) -> nat {
    if ws.len() <= 1 {
        1
    } else {
        (ws.len() - 1) as nat
    }
}

/// The characters emitted for every word after the first: each word is
/// preceded by one mandatory space, `big` extra spaces, and one further
/// extra space while `rem` gaps remain to absorb the remainder.
pub open spec fn tail_rendered(ws: Seq<Seq<char>>, big: nat, rem: nat) -> Seq<char>
    decreases ws.len(),
{
    if ws.len() == 0 {
        Seq::empty()
    } else {
        let extra: nat = if rem > 0 {
            1
        } else {
            0
        };
        let next_rem: nat = if rem > 0 {
            (rem - 1) as nat
        } else {
            0
        };
        spaces(1 + big + extra) + ws[0] + tail_rendered(ws.drop_first(), big, next_rem)
    }
}

/// The exact character sequence a line of words `ws` is rendered to at
/// width `max` under `align`: no leading pad and single separating spaces
/// for `Left`; a leading pad of the free space for `Right`; the free space
/// distributed over the gaps, leftmost gaps first, for `Justify`.
pub open spec fn rendered_line(ws: Seq<Seq<char>>, max: nat, align: Align) -> Seq<char> {
    if ws.len() == 0 {
        Seq::empty()
    } else {
        match align {
            Align::Left => ws[0] + tail_rendered(ws.drop_first(), 0, 0),
            Align::Right => spaces(free_space(ws, max)) + ws[0] + tail_rendered(
                ws.drop_first(),
                0,
                0,
            ),
            Align::Justify => {
                let free = free_space(ws, max);
                let gaps = line_gaps(ws);
                ws[0] + tail_rendered(ws.drop_first(), free / gaps, free % gaps)
            },
        }
    }
}

/// The full output for a sequence of packed lines: each line's rendering
/// followed by a line terminator.
pub open spec fn rendered(lines: Seq<Seq<Seq<char>>>, max: nat, align: Align) -> Seq<char>
    decreases lines.len(),
{
    if lines.len() == 0 {
        Seq::empty()
    } else {
        rendered_line(lines[0], max, align) + seq!['\n'] + rendered(
            lines.drop_first(),
            max,
            align,
        )
    }
}

pub proof fn lemma_spaces_len(n: nat)
    ensures
        spaces(n).len() == n,
    decreases n,
{
    if n > 0 {
        lemma_spaces_len((n - 1) as nat);
    }
}

pub proof fn lemma_spaces_add(a: nat, b: nat)
    ensures
        spaces(a + b) == spaces(a) + spaces(b),
    decreases a,
{
    if a == 0 {
        assert(spaces(0 + b) =~= spaces(0) + spaces(b));
    } else {
        lemma_spaces_add((a - 1) as nat, b);
        assert(spaces(a + b) =~= spaces(a) + spaces(b));
    }
}

pub proof fn lemma_spaces_all_spaces(n: nat)
    ensures
        forall|i: int| 0 <= i < spaces(n).len() ==> spaces(n)[i] == ' ',
    decreases n,
{
    if n > 0 {
        lemma_spaces_all_spaces((n - 1) as nat);
        assert forall|i: int| 0 <= i < spaces(n).len() implies spaces(n)[i] == ' ' by {
            if i > 0 {
                assert(spaces(n)[i] == spaces((n - 1) as nat)[i - 1]);
            }
        }
    }
}

/// The width of the tail of a rendered line: each of the words with its
/// gap of `1 + big` spaces, plus one extra space for each of the first
/// `rem` gaps.
pub proof fn lemma_tail_rendered_len(ws: Seq<Seq<char>>, big: nat, rem: nat)
    ensures
        tail_rendered(ws, big, rem).len() == words_total(ws) + ws.len() * (1 + big) + (
        if rem <= ws.len() {
            rem
        } else {
            ws.len() as nat
        }),
    decreases ws.len(),
{
    if ws.len() > 0 {
        let extra: nat = if rem > 0 {
            1
        } else {
            0
        };
        let next_rem: nat = if rem > 0 {
            (rem - 1) as nat
        } else {
            0
        };
        lemma_spaces_len(1 + big + extra);
        lemma_tail_rendered_len(ws.drop_first(), big, next_rem);
        assert(ws.len() * (1 + big) == (1 + big) + (ws.len() - 1) * (1 + big))
            by (nonlinear_arith)
            requires ws.len() >= 1;
    }
}

/// A space character written through a sink is the sequence `spaces(1)`.
proof fn lemma_one_space()
    ensures
        " "@ == spaces(1),
{
    reveal_strlit(" ");
    lemma_spaces_len(1);
    assert(spaces(1)[0] == (seq![' '] + spaces(0))[0]);
    assert(" "@ =~= spaces(1));
}

/// Writes `n` spaces through the sink, one fragment each.
fn write_spaces<W: Writer>(writer: &mut W, n: usize)
    ensures
        final(writer).written() == old(writer).written() + spaces(n as nat),
{
    let mut j: usize = 0;
    while j < n
        invariant
            j <= n,
            writer.written() == old(writer).written() + spaces(j as nat),
        decreases n - j,
    {
        writer.write(" ");
        proof {
            lemma_one_space();
            lemma_spaces_add(j as nat, 1);
            assert(old(writer).written() + spaces(j as nat) + spaces(1) =~= old(
                writer,
            ).written() + spaces((j + 1) as nat));
        }
        j = j + 1;
    }
}

/// Writes every word of `line` after the first, each preceded by one
/// mandatory space, `big` extra spaces, and one further extra space while
/// remainder gaps are left.
fn write_tail<W: Writer>(line: &Line, writer: &mut W, big: usize, rem: usize)
    requires
        line.wf(),
        line@.len() >= 1,
    ensures
        final(writer).written() == old(writer).written() + tail_rendered(
            line@.drop_first(),
            big as nat,
            rem as nat,
        ),
{
    let mut i: usize = 1;
    let mut rem_left: usize = rem;
    proof {
        assert(line@.skip(1) =~= line@.drop_first());
    }
    while i < line.words_count
        invariant
            line.wf(),
            1 <= i <= line@.len(),
            old(writer).written() + tail_rendered(line@.drop_first(), big as nat, rem as nat)
                == writer.written() + tail_rendered(
                line@.skip(i as int),
                big as nat,
                rem_left as nat,
            ),
        decreases line@.len() - i,
    {
        let ghost w_before = writer.written();
        let ghost suffix = line@.skip(i as int);
        let ghost extra: nat = if rem_left > 0 { 1nat } else { 0nat };
        write_spaces(writer, big);
        if rem_left > 0 {
            writer.write(" ");
            rem_left = rem_left - 1;
        }
        writer.write(" ");
        let word = line.word_at(i);
        writer.write(word);
        proof {
            lemma_one_space();
            lemma_spaces_add(big as nat, extra);
            lemma_spaces_add(big as nat + extra, 1);
            assert(suffix[0] == line@[i as int]);
            assert(suffix.drop_first() =~= line@.skip(i + 1));
            assert(writer.written() =~= w_before + spaces(1 + big as nat + extra) + suffix[0]);
            assert(w_before + tail_rendered(suffix, big as nat, rem_left as nat + extra)
                =~= writer.written() + tail_rendered(line@.skip(i + 1), big as nat,
                rem_left as nat));
        }
        i = i + 1;
    }
    proof {
        assert(line@.skip(line@.len() as int) =~= Seq::<Seq<char>>::empty());
        assert(writer.written() + tail_rendered(
            Seq::<Seq<char>>::empty(),
            big as nat,
            rem_left as nat,
        ) =~= writer.written());
    }
}

/// Renders one completed line at width `max_len` under `align`, writing
/// the words and separators through the sink fragment by fragment.
pub fn render_line<W: Writer>(line: &Line, writer: &mut W, max_len: usize, align: &Align)
    requires
        line.wf(),
        line@.len() > 0,
        line_len(line@) <= max_len,
    ensures
        final(writer).written() == old(writer).written() + rendered_line(
            line@,
            max_len as nat,
            *align,
        ),
{
    match align {
        Align::Left => {
            writer.write(line.word_at(0));
            write_tail(line, writer, 0, 0);
        },
        Align::Right => {
            write_spaces(writer, max_len - line.len);
            writer.write(line.word_at(0));
            write_tail(line, writer, 0, 0);
        },
        Align::Justify => {
            let free = max_len - line.len;
            let gaps = if line.words_count == 1 {
                1
            } else {
                line.words_count - 1
            };
            let big = free / gaps;
            let rem = free % gaps;
            writer.write(line.word_at(0));
            write_tail(line, writer, big, rem);
        },
    }
    proof {
        assert(writer.written() =~= old(writer).written() + rendered_line(
            line@,
            max_len as nat,
            *align,
        ));
    }
}

/// The total width of a rendered line is exactly the target width whenever
/// the mode is `Right`, or the mode is `Justify` and the line has at least
/// two words, or the line's content already fills the width. (A short line
/// rendered `Left`, or a short one-word line rendered `Justify`, keeps its
/// own content width instead.)
pub proof fn lemma_rendered_line_width(ws: Seq<Seq<char>>, max: nat, align: Align)
    requires
        ws.len() > 0,
        line_len(ws) <= max,
        align is Right || (align is Justify && ws.len() >= 2) || line_len(ws) == max,
    ensures
        rendered_line(ws, max, align).len() == max,
{
    let rest = ws.drop_first();
    assert(words_total(ws) == ws[0].len() + words_total(rest));
    match align {
        Align::Left => {
            lemma_tail_rendered_len(rest, 0, 0);
            assert(rest.len() * 1 == rest.len());
        },
        Align::Right => {
            lemma_spaces_len(free_space(ws, max));
            lemma_tail_rendered_len(rest, 0, 0);
            assert(rest.len() * 1 == rest.len());
        },
        Align::Justify => {
            let free = free_space(ws, max);
            let gaps = line_gaps(ws);
            let big = free / gaps;
            let rem = free % gaps;
            lemma_tail_rendered_len(rest, big, rem);
            lemma_fundamental_div_mod(free as int, gaps as int);
            lemma_mod_division_less_than_divisor(free as int, gaps as int);
            if ws.len() >= 2 {
                assert(rest.len() == gaps);
                assert(rest.len() * (1 + big) == rest.len() + gaps * big)
                    by (nonlinear_arith)
                    requires rest.len() == gaps;
            } else {
                assert(free == 0);
                assert(big == 0 && rem == 0);
                assert(rest.len() == 0);
            }
        },
    }
}

/// The width law for whole runs: every line that greedy packing produces,
/// rendered under `Right`, or under `Justify` when it holds two or more
/// words, or whose content already fills the width, spans exactly the
/// target width. (A short line of one word under `Justify`, and any short
/// line under `Left`, keeps its content width: nothing pads it.)
pub proof fn lemma_packed_line_width(ws: Seq<Seq<char>>, max: nat, align: Align, k: int)
    requires
        forall|i: int| 0 <= i < ws.len() ==> #[trigger] ws[i].len() <= max,
        0 <= k < pack(ws, max).len(),
        align is Right || (align is Justify && pack(ws, max)[k].len() >= 2) || line_len(
            pack(ws, max)[k],
        ) == max,
    ensures
        rendered_line(pack(ws, max)[k], max, align).len() == max,
{
    lemma_pack_lines_fit(ws, max);
    lemma_rendered_line_width(pack(ws, max)[k], max, align);
}

} // verus!
