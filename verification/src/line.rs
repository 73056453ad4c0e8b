//! The line builder: accumulates words up to a maximum width and reports
//! wrap points, together with the mathematical model of a line's width and
//! of greedy packing.

use vstd::prelude::*;
use vstd::string::StrSliceExecFns;

verus! {

/// The views of a sequence of word slices.
pub open spec fn word_views(ws: Seq<&str>) -> Seq<Seq<char>> {
    ws.map_values(|w: &str| w@)
}

/// The sum of the lengths of all words, without separators.
pub open spec fn words_total(ws: Seq<Seq<char>>) -> nat
    decreases ws.len(),
{
    if ws.len() == 0 {
        0
    } else {
        ws[0].len() + words_total(ws.drop_first())
    }
}

/// The width of a line holding the words `ws`: the sum of the word lengths
/// plus one separating space between each pair of adjacent words.
pub open spec fn line_len(ws: Seq<Seq<char>>) -> nat {
    if ws.len() == 0 {
        0
    } else {
        (words_total(ws) + ws.len() - 1) as nat
    }
}

/// The width that appending `w` adds to a line currently holding `ws`:
/// the word's own length, plus one for the separating space if the line
/// is already non-empty.
pub open spec fn added_len(ws: Seq<Seq<char>>, w: Seq<char>) -> nat {
    if ws.len() == 0 {
        w.len()
    } else {
        w.len() + 1
    }
}

pub proof fn lemma_words_total_push(ws: Seq<Seq<char>>, w: Seq<char>)
    ensures
        words_total(ws.push(w)) == words_total(ws) + w.len(),
    decreases ws.len(),
{
    assert(ws.push(w)[0] == if ws.len() == 0 { w } else { ws[0] });
    if ws.len() == 0 {
        assert(ws.push(w).drop_first() =~= Seq::<Seq<char>>::empty());
        assert(words_total(ws.push(w)) == w.len() + words_total(Seq::<Seq<char>>::empty()));
    } else {
        assert(ws.push(w).drop_first() =~= ws.drop_first().push(w));
        lemma_words_total_push(ws.drop_first(), w);
        assert(words_total(ws.push(w)) == ws[0].len() + words_total(ws.drop_first().push(w)));
    }
}

pub proof fn lemma_line_len_push(ws: Seq<Seq<char>>, w: Seq<char>)
    ensures
        line_len(ws.push(w)) == line_len(ws) + added_len(ws, w),
{
    lemma_words_total_push(ws, w);
}

/// Greedy packing: `cur` is the line under construction. Each word is
/// appended to it when it fits, and otherwise closes `cur` and opens a
/// fresh line holding just that word. A non-empty line left at the end is
/// emitted as the final line.
pub open spec fn pack_rec(ws: Seq<Seq<char>>, max: nat, cur: Seq<Seq<char>>) -> Seq<
    Seq<Seq<char>>,
>
    decreases ws.len(),
{
    if ws.len() == 0 {
        if cur.len() == 0 {
            Seq::empty()
        } else {
            seq![cur]
        }
    } else if line_len(cur) + added_len(cur, ws[0]) <= max {
        pack_rec(ws.drop_first(), max, cur.push(ws[0]))
    } else {
        seq![cur] + pack_rec(ws.drop_first(), max, seq![ws[0]])
    }
}

/// The lines that greedy packing cuts the word sequence `ws` into, each no
/// wider than `max`.
pub open spec fn pack(ws: Seq<Seq<char>>, max: nat) -> Seq<Seq<Seq<char>>> {
    pack_rec(ws, max, Seq::empty())
}

proof fn lemma_pack_rec_lines_fit(ws: Seq<Seq<char>>, max: nat, cur: Seq<Seq<char>>)
    requires
        forall|i: int| 0 <= i < ws.len() ==> #[trigger] ws[i].len() <= max,
        line_len(cur) <= max,
    ensures
        forall|k: int|
            0 <= k < pack_rec(ws, max, cur).len() ==> line_len(
                #[trigger] pack_rec(ws, max, cur)[k],
            ) <= max && pack_rec(ws, max, cur)[k].len() > 0,
    decreases ws.len(),
{
    if ws.len() == 0 {
    } else {
        let w = ws[0];
        if line_len(cur) + added_len(cur, w) <= max {
            lemma_line_len_push(cur, w);
            lemma_pack_rec_lines_fit(ws.drop_first(), max, cur.push(w));
            let rest = pack_rec(ws.drop_first(), max, cur.push(w));
            assert forall|k: int|
                0 <= k < pack_rec(ws, max, cur).len() implies line_len(
                #[trigger] pack_rec(ws, max, cur)[k],
            ) <= max && pack_rec(ws, max, cur)[k].len() > 0 by {
                assert(pack_rec(ws, max, cur)[k] == rest[k]);
            }
        } else {
            assert(cur.len() > 0) by {
                if cur.len() == 0 {
                    assert(line_len(cur) == 0);
                    assert(added_len(cur, w) == w.len());
                }
            }
            assert(line_len(seq![w]) == w.len()) by {
                assert(seq![w][0] == w);
                assert(seq![w].drop_first() =~= Seq::<Seq<char>>::empty());
                assert(words_total(Seq::<Seq<char>>::empty()) == 0);
            }
            lemma_pack_rec_lines_fit(ws.drop_first(), max, seq![w]);
            let rest = pack_rec(ws.drop_first(), max, seq![w]);
            assert forall|k: int|
                0 <= k < pack_rec(ws, max, cur).len() implies line_len(
                #[trigger] pack_rec(ws, max, cur)[k],
            ) <= max && pack_rec(ws, max, cur)[k].len() > 0 by {
                if k == 0 {
                    assert(pack_rec(ws, max, cur)[k] == cur);
                } else {
                    assert(pack_rec(ws, max, cur)[k] == rest[k - 1]);
                }
            }
        }
    }
}

/// The line builder's invariant, stated of the packing model: when every
/// word fits the width, every packed line is non-empty and its content
/// width never exceeds the maximum.
pub proof fn lemma_pack_lines_fit(ws: Seq<Seq<char>>, max: nat)
    requires
        forall|i: int| 0 <= i < ws.len() ==> #[trigger] ws[i].len() <= max,
    ensures
        forall|k: int|
            0 <= k < pack(ws, max).len() ==> line_len(#[trigger] pack(ws, max)[k]) <= max
                && pack(ws, max)[k].len() > 0,
{
    lemma_pack_rec_lines_fit(ws, max, Seq::empty());
}

/// What `Line::push` reports: either the word was appended, or the line is
/// full and must be rendered and cleared before the word is retried.
pub enum LineState {
    Wrap,
    NextWord,
}

/// A line of words under construction, never wider than `max_len`.
pub struct Line<'a> {
    pub words: Vec<&'a str>,
    pub words_count: usize,
    pub len: usize,
    pub max_len: usize,
}

impl<'a> View for Line<'a> {
    type V = Seq<Seq<char>>;

    open spec fn view(&self) -> Seq<Seq<char>> {
        word_views(self.words@)
    }
}

impl<'a> Line<'a> {
    /// The recorded count and width agree with the stored words, and the
    /// content never exceeds the configured maximum.
    pub open spec fn wf(&self) -> bool {
        &&& self.words_count == self.words@.len()
        &&& self.len == line_len(self@)
        &&& line_len(self@) <= self.max_len
    }

    pub fn new(max_len: usize) -> (l: Line<'a>)
        ensures
            l.wf(),
            l@ == Seq::<Seq<char>>::empty(),
            l.max_len == max_len,
    {
        let l = Line { words_count: 0, len: 0, max_len, words: Vec::new() };
        proof {
            assert(l@ =~= Seq::<Seq<char>>::empty());
        }
        l
    }

    /// Appends `word` if it fits beside the words already held, and
    /// otherwise leaves the line unchanged and reports a wrap point.
    pub fn push(&mut self, word: &'a str) -> (r: LineState)
        requires
            old(self).wf(),
            word@.len() <= old(self).max_len,
        ensures
            final(self).wf(),
            final(self).max_len == old(self).max_len,
            line_len(old(self)@) + added_len(old(self)@, word@) <= old(self).max_len ==> {
                &&& final(self)@ == old(self)@.push(word@)
                &&& r is NextWord
            },
            line_len(old(self)@) + added_len(old(self)@, word@) > old(self).max_len ==> {
                &&& final(self)@ == old(self)@
                &&& r is Wrap
            },
    {
        let word_len = word.unicode_len();
        let space_left = self.max_len - self.len;
        let fits = if self.words_count != 0 {
            word_len < space_left
        } else {
            word_len <= space_left
        };
        if fits {
            proof {
                lemma_line_len_push(self@, word@);
            }
            self.words.push(word);
            if self.words_count != 0 {
                self.len = self.len + 1 + word_len;
            } else {
                self.len = self.len + word_len;
            }
            self.words_count = self.words.len();
            proof {
                assert(self@ =~= old(self)@.push(word@));
            }
            LineState::NextWord
        } else {
            LineState::Wrap
        }
    }

    /// Resets the line to empty, keeping the configured maximum.
    pub fn clear(&mut self)
        ensures
            final(self).wf(),
            final(self)@ == Seq::<Seq<char>>::empty(),
            final(self).max_len == old(self).max_len,
    {
        self.words_count = 0;
        self.len = 0;
        self.words.clear();
        proof {
            assert(self@ =~= Seq::<Seq<char>>::empty());
        }
    }

    /// The word at position `i`, counted from the left.
    pub fn word_at(&self, i: usize) -> (w: &'a str)
        requires
            i < self@.len(),
        ensures
            w@ == self@[i as int],
    {
        self.words[i]
    }
}

} // verus!
