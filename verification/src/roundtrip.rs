//! The round-trip law: collapsing each emitted line's separators and
//! splitting the output on spaces and line terminators reproduces the
//! original word sequence, whatever the alignment mode.

use vstd::prelude::*;

use crate::line::{added_len, line_len, pack, pack_rec};
use crate::render::{
    free_space, line_gaps, rendered, rendered_line, spaces, tail_rendered,
    lemma_spaces_all_spaces, lemma_spaces_len, Align,
};
use crate::words::{all_words_fit, words_of};

verus! {

/// A separator character of the emitted output: a space or a line
/// terminator.
pub open spec fn is_break(c: char) -> bool {
    c == ' ' || c == '\n'
}

/// A word as the round trip needs it: non-empty and free of separator
/// characters.
pub open spec fn plain_word(w: Seq<char>) -> bool {
    w.len() > 0 && forall|i: int| 0 <= i < w.len() ==> !is_break(#[trigger] w[i])
}

pub open spec fn all_plain(ws: Seq<Seq<char>>) -> bool {
    forall|i: int| 0 <= i < ws.len() ==> plain_word(#[trigger] ws[i])
}

/// The word fragments `cur` has collected, none if it is empty.
pub open spec fn flush(cur: Seq<char>) -> Seq<Seq<char>> {
    if cur.len() == 0 {
        Seq::empty()
    } else {
        seq![cur]
    }
}

/// Splits `s` on separator characters, dropping empty fragments; `cur` is
/// the partial word read so far.
pub open spec fn squeeze_rec(s: Seq<char>, cur: Seq<char>) -> Seq<Seq<char>>
    decreases s.len(),
{
    if s.len() == 0 {
        flush(cur)
    } else if is_break(s[0]) {
        flush(cur) + squeeze_rec(s.drop_first(), Seq::empty())
    } else {
        squeeze_rec(s.drop_first(), cur.push(s[0]))
    }
}

/// The words of an emitted text: the maximal non-empty fragments between
/// separator characters, in order.
pub open spec fn squeeze(s: Seq<char>) -> Seq<Seq<char>> {
    squeeze_rec(s, Seq::empty())
}

/// A block of separators closes the current word and contributes nothing.
proof fn lemma_squeeze_breaks(sep: Seq<char>, b: Seq<char>, cur: Seq<char>)
    requires
        sep.len() > 0,
        forall|i: int| 0 <= i < sep.len() ==> is_break(#[trigger] sep[i]),
    ensures
        squeeze_rec(sep + b, cur) == flush(cur) + squeeze_rec(b, Seq::empty()),
    decreases sep.len(),
{
    assert((sep + b)[0] == sep[0]);
    assert((sep + b).drop_first() =~= sep.drop_first() + b);
    if sep.len() == 1 {
        assert(sep.drop_first() + b =~= b);
    } else {
        lemma_squeeze_breaks(sep.drop_first(), b, Seq::empty());
        assert(flush(Seq::<char>::empty()) + squeeze_rec(b, Seq::empty()) =~= squeeze_rec(
            b,
            Seq::empty(),
        ));
        assert(squeeze_rec(sep + b, cur) =~= flush(cur) + squeeze_rec(b, Seq::empty()));
    }
}

/// A run of separator-free characters is appended to the current word.
proof fn lemma_squeeze_word(w: Seq<char>, b: Seq<char>, cur: Seq<char>)
    requires
        forall|i: int| 0 <= i < w.len() ==> !is_break(#[trigger] w[i]),
    ensures
        squeeze_rec(w + b, cur) == squeeze_rec(b, cur + w),
    decreases w.len(),
{
    if w.len() == 0 {
        assert(w + b =~= b);
        assert(cur + w =~= cur);
    } else {
        assert((w + b)[0] == w[0]);
        assert((w + b).drop_first() =~= w.drop_first() + b);
        lemma_squeeze_word(w.drop_first(), b, cur.push(w[0]));
        assert(cur.push(w[0]) + w.drop_first() =~= cur + w);
    }
}

/// The tail of a rendered line contributes exactly its words: the gaps
/// between them are separator runs.
proof fn lemma_squeeze_tail(
    rest: Seq<Seq<char>>,
    big: nat,
    rem: nat,
    tail: Seq<char>,
    cur: Seq<char>,
)
    requires
        all_plain(rest),
        cur.len() > 0,
    ensures
        squeeze_rec(tail_rendered(rest, big, rem) + seq!['\n'] + tail, cur) == seq![cur] + rest
            + squeeze_rec(tail, Seq::empty()),
    decreases rest.len(),
{
    if rest.len() == 0 {
        assert(tail_rendered(rest, big, rem) + seq!['\n'] + tail =~= seq!['\n'] + tail);
        assert(is_break(seq!['\n'][0]));
        lemma_squeeze_breaks(seq!['\n'], tail, cur);
        assert(seq![cur] + rest =~= seq![cur]);
        assert(flush(cur) =~= seq![cur]);
    } else {
        let extra: nat = if rem > 0 {
            1
        } else {
            0
        };
        let next_rem: nat = if rem > 0 {
            (rem - 1) as nat
        } else {
            0
        };
        let g = 1 + big + extra;
        let after_gap = rest[0] + tail_rendered(rest.drop_first(), big, next_rem) + seq!['\n']
            + tail;
        let after_word = tail_rendered(rest.drop_first(), big, next_rem) + seq!['\n'] + tail;
        lemma_spaces_len(g);
        lemma_spaces_all_spaces(g);
        assert(tail_rendered(rest, big, rem) + seq!['\n'] + tail =~= spaces(g) + after_gap);
        lemma_squeeze_breaks(spaces(g), after_gap, cur);
        assert(after_gap =~= rest[0] + after_word);
        assert(plain_word(rest[0]));
        lemma_squeeze_word(rest[0], after_word, Seq::empty());
        assert(Seq::<char>::empty() + rest[0] =~= rest[0]);
        lemma_squeeze_tail(rest.drop_first(), big, next_rem, tail, rest[0]);
        assert(flush(cur) =~= seq![cur]);
        assert(seq![cur] + (seq![rest[0]] + rest.drop_first() + squeeze_rec(tail, Seq::empty()))
            =~= seq![cur] + rest + squeeze_rec(tail, Seq::empty()));
        assert(squeeze_rec(tail_rendered(rest, big, rem) + seq!['\n'] + tail, cur) =~= seq![cur]
            + rest + squeeze_rec(tail, Seq::empty()));
    }
}

/// One rendered line followed by its terminator contributes exactly its
/// words.
proof fn lemma_squeeze_line(ws: Seq<Seq<char>>, max: nat, align: Align, tail: Seq<char>)
    requires
        ws.len() > 0,
        all_plain(ws),
    ensures
        squeeze_rec(rendered_line(ws, max, align) + seq!['\n'] + tail, Seq::empty()) == ws
            + squeeze_rec(tail, Seq::empty()),
{
    let rest = ws.drop_first();
    assert(plain_word(ws[0]));
    let (big, rem): (nat, nat) = match align {
        Align::Left => (0nat, 0nat),
        Align::Right => (0nat, 0nat),
        Align::Justify => (
            free_space(ws, max) / line_gaps(ws),
            free_space(ws, max) % line_gaps(ws),
        ),
    };
    let after_word = tail_rendered(rest, big, rem) + seq!['\n'] + tail;
    if align is Right && free_space(ws, max) > 0 {
        let pad = free_space(ws, max);
        lemma_spaces_len(pad);
        lemma_spaces_all_spaces(pad);
        assert(rendered_line(ws, max, align) + seq!['\n'] + tail =~= spaces(pad) + (ws[0]
            + after_word));
        lemma_squeeze_breaks(spaces(pad), ws[0] + after_word, Seq::empty());
        assert(flush(Seq::<char>::empty()) + squeeze_rec(ws[0] + after_word, Seq::empty())
            =~= squeeze_rec(ws[0] + after_word, Seq::empty()));
    } else {
        if align is Right {
            lemma_spaces_len(free_space(ws, max));
            assert(spaces(free_space(ws, max)) =~= Seq::<char>::empty());
        }
        assert(rendered_line(ws, max, align) + seq!['\n'] + tail =~= ws[0] + after_word);
    }
    lemma_squeeze_word(ws[0], after_word, Seq::empty());
    assert(Seq::<char>::empty() + ws[0] =~= ws[0]);
    lemma_squeeze_tail(rest, big, rem, tail, ws[0]);
    assert(seq![ws[0]] + rest =~= ws);
    assert(seq![ws[0]] + rest + squeeze_rec(tail, Seq::empty()) =~= ws + squeeze_rec(
        tail,
        Seq::empty(),
    ));
}

/// Greedy packing emits every word it is fed, in order: squeezing the
/// rendering of `pack_rec(ws, max, cur)` yields `cur`'s words and then
/// `ws`.
proof fn lemma_squeeze_pack(ws: Seq<Seq<char>>, max: nat, align: Align, cur: Seq<Seq<char>>)
    requires
        all_plain(ws),
        all_plain(cur),
        forall|i: int| 0 <= i < ws.len() ==> #[trigger] ws[i].len() <= max,
    ensures
        squeeze(rendered(pack_rec(ws, max, cur), max, align)) == cur + ws,
    decreases ws.len(),
{
    if ws.len() == 0 {
        if cur.len() == 0 {
            assert(rendered(pack_rec(ws, max, cur), max, align) =~= Seq::<char>::empty());
            assert(squeeze(Seq::<char>::empty()) =~= cur + ws);
        } else {
            assert(pack_rec(ws, max, cur) == seq![cur]);
            assert(seq![cur][0] == cur);
            assert(seq![cur].drop_first() =~= Seq::<Seq<Seq<char>>>::empty());
            assert(rendered(Seq::<Seq<Seq<char>>>::empty(), max, align) == Seq::<char>::empty());
            assert(rendered(seq![cur], max, align) =~= rendered_line(cur, max, align)
                + seq!['\n'] + Seq::<char>::empty());
            assert(rendered(seq![cur], max, align) =~= rendered_line(cur, max, align)
                + seq!['\n']);
            lemma_squeeze_line(cur, max, align, Seq::empty());
            assert(rendered_line(cur, max, align) + seq!['\n'] + Seq::<char>::empty()
                =~= rendered_line(cur, max, align) + seq!['\n']);
            assert(squeeze_rec(Seq::<char>::empty(), Seq::<char>::empty())
                == Seq::<Seq<char>>::empty());
            assert(cur + squeeze_rec(Seq::<char>::empty(), Seq::<char>::empty()) =~= cur + ws);
        }
    } else {
        let w = ws[0];
        assert(plain_word(w));
        if line_len(cur) + added_len(cur, w) <= max {
            assert(all_plain(cur.push(w))) by {
                assert(forall|i: int|
                    0 <= i < cur.len() ==> cur.push(w)[i] == #[trigger] cur[i]);
                assert(cur.push(w)[cur.len() as int] == w);
            }
            lemma_squeeze_pack(ws.drop_first(), max, align, cur.push(w));
            assert(cur.push(w) + ws.drop_first() =~= cur + ws);
        } else {
            assert(cur.len() > 0) by {
                if cur.len() == 0 {
                    assert(line_len(cur) == 0);
                    assert(added_len(cur, w) == w.len());
                }
            }
            assert(all_plain(seq![w])) by {
                assert(seq![w][0] == w);
            }
            lemma_squeeze_pack(ws.drop_first(), max, align, seq![w]);
            let tail_lines = pack_rec(ws.drop_first(), max, seq![w]);
            assert(pack_rec(ws, max, cur) == seq![cur] + tail_lines);
            assert((seq![cur] + tail_lines)[0] == cur);
            assert((seq![cur] + tail_lines).drop_first() =~= tail_lines);
            assert(rendered(seq![cur] + tail_lines, max, align) == rendered_line(cur, max, align)
                + seq!['\n'] + rendered(tail_lines, max, align));
            lemma_squeeze_line(cur, max, align, rendered(tail_lines, max, align));
            assert(seq![w] + ws.drop_first() =~= ws);
            assert(cur + (seq![w] + ws.drop_first()) =~= cur + ws);
        }
    }
}

/// The round-trip law: for any word sequence whose words are non-empty,
/// free of separator characters, and no wider than the target width,
/// splitting the full rendered output on separator characters (dropping
/// the empty fragments that padding and double spacing leave) reproduces
/// the word sequence exactly, in every alignment mode.
pub proof fn lemma_round_trip(ws: Seq<Seq<char>>, max: nat, align: Align)
    requires
        all_plain(ws),
        forall|i: int| 0 <= i < ws.len() ==> #[trigger] ws[i].len() <= max,
    ensures
        squeeze(rendered(pack(ws, max), max, align)) == ws,
{
    lemma_squeeze_pack(ws, max, align, Seq::empty());
    assert(Seq::<Seq<char>>::empty() + ws =~= ws);
}

/// The round-trip law stated of a whole run: squeezing the output that
/// `run` emits for an input text gives back that text's word sequence.
pub proof fn lemma_output_round_trip(content: Seq<char>, max: nat, align: Align)
    requires
        all_plain(words_of(content)),
        all_words_fit(content, max),
    ensures
        squeeze(crate::aligned_output(content, max, align)) == words_of(content),
{
    lemma_round_trip(words_of(content), max, align);
}

} // verus!
