//! Tokenizing the input: one trailing line terminator is stripped, and the
//! rest is split on literal space characters.

use vstd::prelude::*;
use vstd::string::StrSliceExecFns;

use crate::line::word_views;

verus! {

/// Splits `s` on space characters, `cur` being the partial word read so
/// far. Every maximal run between spaces becomes a word, so consecutive
/// spaces yield empty words, exactly as the input is written.
pub open spec fn split_rec(s: Seq<char>, cur: Seq<char>) -> Seq<Seq<char>>
    decreases s.len(),
{
    if s.len() == 0 {
        seq![cur]
    } else if s[0] == ' ' {
        seq![cur] + split_rec(s.drop_first(), Seq::empty())
    } else {
        split_rec(s.drop_first(), cur.push(s[0]))
    }
}

/// The input with one trailing line terminator removed, if it ends in one.
pub open spec fn strip_terminator(content: Seq<char>) -> Seq<char> {
    if content.len() > 0 && content.last() == '\n' {
        content.drop_last()
    } else {
        content
    }
}

/// The word sequence of an input text: the text with one trailing line
/// terminator stripped, split on spaces. Empty input produces no words.
pub open spec fn words_of(content: Seq<char>) -> Seq<Seq<char>> {
    let t = strip_terminator(content);
    if t.len() == 0 {
        Seq::empty()
    } else {
        split_rec(t, Seq::empty())
    }
}

/// Every word of the input fits within the width `max`.
pub open spec fn all_words_fit(content: Seq<char>, max: nat) -> bool {
    forall|i: int|
        0 <= i < words_of(content).len() ==> #[trigger] words_of(content)[i].len() <= max
}

/// Cuts `content` into its word sequence: one trailing terminator is
/// stripped, and the rest is split on literal spaces.
pub fn tokenize<'a>(content: &'a str) -> (ws: Vec<&'a str>)
    ensures
        word_views(ws@) == words_of(content@),
{
    let n = content.unicode_len();
    let end = if n > 0 && content.get_char(n - 1) == '\n' {
        n - 1
    } else {
        n
    };
    let t = content.substring_char(0, end);
    proof {
        assert(t@ =~= strip_terminator(content@));
    }
    let mut ws: Vec<&'a str> = Vec::new();
    if end == 0 {
        proof {
            assert(word_views(ws@) =~= words_of(content@));
        }
        return ws;
    }
    let mut start: usize = 0;
    let mut i: usize = 0;
    proof {
        assert(t@.skip(0) =~= t@);
        assert(t@.subrange(0, 0) =~= Seq::<char>::empty());
        assert(word_views(ws@) =~= Seq::<Seq<char>>::empty());
    }
    while i < end
        invariant
            0 <= start <= i <= end,
            end == t@.len(),
            t@ == strip_terminator(content@),
            split_rec(t@, Seq::empty()) == word_views(ws@) + split_rec(
                t@.skip(i as int),
                t@.subrange(start as int, i as int),
            ),
        decreases end - i,
    {
        let c = t.get_char(i);
        proof {
            assert(t@.skip(i as int)[0] == t@[i as int]);
            assert(t@.skip(i as int).drop_first() =~= t@.skip(i as int + 1));
        }
        let ghost ws0 = ws@;
        let ghost cur = t@.subrange(start as int, i as int);
        if c == ' ' {
            let w = t.substring_char(start, i);
            ws.push(w);
            proof {
                assert(word_views(ws@) =~= word_views(ws0).push(cur));
                assert(t@.subrange(i as int + 1, i as int + 1) =~= Seq::<char>::empty());
                assert(split_rec(t@.skip(i as int), cur) == seq![cur] + split_rec(
                    t@.skip(i as int + 1),
                    Seq::empty(),
                ));
                assert(word_views(ws0) + split_rec(t@.skip(i as int), cur) =~= word_views(ws@)
                    + split_rec(t@.skip(i as int + 1), t@.subrange(i as int + 1, i as int + 1)));
            }
            start = i + 1;
        } else {
            proof {
                assert(t@.subrange(start as int, i as int + 1) =~= cur.push(t@[i as int]));
                assert(split_rec(t@.skip(i as int), cur) == split_rec(
                    t@.skip(i as int + 1),
                    t@.subrange(start as int, i as int + 1),
                ));
            }
        }
        i = i + 1;
    }
    let ghost ws0 = ws@;
    let ghost cur = t@.subrange(start as int, end as int);
    let w = t.substring_char(start, end);
    ws.push(w);
    proof {
        assert(t@.skip(end as int) =~= Seq::<char>::empty());
        assert(split_rec(t@.skip(end as int), cur) == seq![cur]);
        assert(word_views(ws@) =~= word_views(ws0).push(cur));
        assert(word_views(ws@) =~= word_views(ws0) + seq![cur]);
        assert(word_views(ws@) =~= words_of(content@));
    }
    ws
}

} // verus!
