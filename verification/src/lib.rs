//! Reformats plain text into fixed-width lines.
//!
//! Words are packed greedily into lines no wider than a configured maximum,
//! and each completed line is rendered left-aligned, right-aligned or
//! justified through an output sink.

pub mod config;
pub mod line;
pub mod render;
pub mod roundtrip;
pub mod sink;
pub mod words;

pub use config::Config;
pub use line::{Line, LineState};
pub use render::Align;
pub use sink::{StdoutWriter, StringWriter, Writer};

use vstd::prelude::*;

use crate::line::{pack, pack_rec, word_views};
use crate::render::{render_line, rendered, rendered_line};
use crate::words::{all_words_fit, tokenize, words_of};
use vstd::string::StrSliceExecFns;

verus! {

/// The fatal condition of a run: a single word is wider than the configured
/// maximum width, so no line can ever hold it.
#[derive(Debug)]
pub enum WrapError {
    WordTooLong,
}

/// The exact output of a run: the input's words packed greedily into lines
/// of width at most `max` and rendered under `align`, each line followed by
/// a line terminator.
pub open spec fn aligned_output(content: Seq<char>, max: nat, align: Align) -> Seq<char> {
    rendered(pack(words_of(content), max), max, align)
}

/// A line terminator written through a sink is the one-character sequence.
proof fn lemma_newline()
    ensures
        "\n"@ == seq!['\n'],
{
    reveal_strlit("\n");
    assert("\n"@ =~= seq!['\n']);
}

/// Feeds the words in order through a line builder of width `max_len`,
/// rendering each completed line and the final partial line through the
/// sink.
fn process<W: Writer>(ws: &Vec<&str>, writer: &mut W, max_len: usize, align: &Align)
    requires
        forall|i: int| 0 <= i < ws@.len() ==> #[trigger] ws@[i]@.len() <= max_len,
    ensures
        final(writer).written() == old(writer).written() + rendered(
            pack(word_views(ws@), max_len as nat),
            max_len as nat,
            *align,
        ),
{
    let ghost all = word_views(ws@);
    let ghost max: nat = max_len as nat;
    let mut line = Line::new(max_len);
    let mut idx: usize = 0;
    proof {
        assert(all.skip(0) =~= all);
    }
    while idx < ws.len()
        invariant
            forall|i: int| 0 <= i < ws@.len() ==> #[trigger] ws@[i]@.len() <= max_len,
            all == word_views(ws@),
            max == max_len as nat,
            idx <= ws@.len(),
            line.wf(),
            line.max_len == max_len,
            old(writer).written() + rendered(pack(all, max), max, *align) == writer.written()
                + rendered(pack_rec(all.skip(idx as int), max, line@), max, *align),
        decreases ws@.len() - idx,
    {
        let word = ws[idx];
        let ghost remaining = all.skip(idx as int);
        let ghost cur = line@;
        proof {
            assert(remaining[0] == word@);
            assert(remaining.drop_first() =~= all.skip(idx as int + 1));
        }
        match line.push(word) {
            LineState::NextWord => {},
            LineState::Wrap => {
                let ghost w_before = writer.written();
                render_line(&line, writer, max_len, align);
                writer.write("\n");
                line.clear();
                let _ = line.push(word);
                proof {
                    lemma_newline();
                    assert(line@ =~= seq![word@]);
                    assert(pack_rec(remaining, max, cur) == seq![cur] + pack_rec(
                        remaining.drop_first(),
                        max,
                        seq![word@],
                    ));
                    let tail_lines = pack_rec(remaining.drop_first(), max, seq![word@]);
                    assert((seq![cur] + tail_lines)[0] == cur);
                    assert((seq![cur] + tail_lines).drop_first() =~= tail_lines);
                    assert(rendered(seq![cur] + tail_lines, max, *align) == rendered_line(
                        cur,
                        max,
                        *align,
                    ) + seq!['\n'] + rendered(tail_lines, max, *align));
                    assert(writer.written() =~= w_before + rendered_line(cur, max, *align)
                        + seq!['\n']);
                    assert(w_before + rendered(pack_rec(remaining, max, cur), max, *align)
                        =~= writer.written() + rendered(tail_lines, max, *align));
                }
            },
        }
        idx = idx + 1;
    }
    proof {
        assert(all.skip(ws@.len() as int) =~= Seq::<Seq<char>>::empty());
    }
    if line.words_count > 0 {
        let ghost cur = line@;
        let ghost w_before = writer.written();
        render_line(&line, writer, max_len, align);
        writer.write("\n");
        proof {
            lemma_newline();
            assert(pack_rec(Seq::<Seq<char>>::empty(), max, cur) == seq![cur]);
            assert(seq![cur][0] == cur);
            assert(seq![cur].drop_first() =~= Seq::<Seq<Seq<char>>>::empty());
            assert(rendered(Seq::<Seq<Seq<char>>>::empty(), max, *align) == Seq::<char>::empty());
            assert(rendered(seq![cur], max, *align) == rendered_line(cur, max, *align)
                + seq!['\n'] + rendered(Seq::<Seq<Seq<char>>>::empty(), max, *align));
            assert(rendered(seq![cur], max, *align) =~= rendered_line(cur, max, *align)
                + seq!['\n']);
            assert(writer.written() =~= w_before + rendered(seq![cur], max, *align));
        }
    } else {
        proof {
            assert(line@.len() == 0);
            assert(rendered(pack_rec(Seq::<Seq<char>>::empty(), max, line@), max, *align)
                =~= Seq::<char>::empty());
            assert(writer.written() + Seq::<char>::empty() =~= writer.written());
        }
    }
}

/// Wraps `content` into lines of width at most `max_len` and writes the
/// rendering under `align` through the sink. If any word of the input is
/// wider than `max_len`, no valid line can hold it: the run fails with
/// `WordTooLong` before anything is written.
pub fn run<W: Writer>(content: &str, writer: &mut W, max_len: usize, align: &Align) -> (r: Result<
    (),
    WrapError,
>)
    ensures
        r is Ok <==> all_words_fit(content@, max_len as nat),
        r is Ok ==> final(writer).written() == old(writer).written() + aligned_output(
            content@,
            max_len as nat,
            *align,
        ),
        r is Err ==> final(writer).written() == old(writer).written(),
{
    let ws = tokenize(content);
    let mut k: usize = 0;
    while k < ws.len()
        invariant
            word_views(ws@) == words_of(content@),
            k <= ws@.len(),
            forall|i: int| 0 <= i < k ==> #[trigger] ws@[i]@.len() <= max_len,
        decreases ws@.len() - k,
    {
        if ws[k].unicode_len() > max_len {
            proof {
                assert(words_of(content@)[k as int].len() > max_len);
                assert(!all_words_fit(content@, max_len as nat));
            }
            return Err(WrapError::WordTooLong);
        }
        k = k + 1;
    }
    proof {
        assert forall|i: int|
            0 <= i < words_of(content@).len() implies #[trigger] words_of(content@)[i].len()
            <= max_len by {
            assert(words_of(content@)[i] == ws@[i]@);
        }
    }
    process(&ws, writer, max_len, align);
    Ok(())
}

} // verus!
