//! How the words of a text depend on the words of its parts.

use vstd::prelude::*;

use crate::text;

verus! {

proof fn lemma_state_after_gap(a: Seq<char>, gap: char, b: Seq<char>)
    requires
        text::is_white_space(gap),
    ensures
        text::word_state(a.push(gap) + b) == (
            text::words(a) + text::word_state(b).0,
            text::word_state(b).1,
        ),
    decreases b.len(),
{
    let whole = a.push(gap) + b;
    if b.len() == 0 {
        assert(whole == a.push(gap));
        assert(whole.drop_last() == a);
        assert(text::words(a) + text::word_state(b).0 == text::words(a));
    } else {
        let front = b.drop_last();
        lemma_state_after_gap(a, gap, front);
        assert(whole.drop_last() == a.push(gap) + front);
        assert(whole.last() == b.last());
        let (done, cur) = text::word_state(front);
        assert(text::words(a) + done.push(cur) == (text::words(a) + done).push(cur));
    }
}

/// White space parts words: the words of two texts with a gap between them
/// are the words of the one and then those of the other.
pub proof fn law_words_of_parts(a: Seq<char>, gap: char, b: Seq<char>)
    requires
        text::is_white_space(gap),
    ensures
        text::words(a.push(gap) + b) == text::words(a) + text::words(b),
{
    lemma_state_after_gap(a, gap, b);
    let (done, cur) = text::word_state(b);
    assert(text::words(a) + done.push(cur) == (text::words(a) + done).push(cur));
}

/// White space at the ends of a text parts nothing.
pub proof fn law_trimming_keeps_words(s: Seq<char>)
    ensures
        text::words(text::trim(s)) == text::words(s),
{
    lemma_trim_start(s);
    lemma_trim_end(text::trim_start(s));
}

proof fn lemma_trim_end(s: Seq<char>)
    ensures
        text::words(text::trim_end(s)) == text::words(s),
    decreases s.len(),
{
    if s.len() > 0 && text::is_white_space(s.last()) {
        let front = s.drop_last();
        lemma_trim_end(front);
        law_words_of_parts(front, s.last(), Seq::empty());
        assert(front.push(s.last()) + Seq::<char>::empty() == s);
        assert(text::words(front) + text::words(Seq::empty()) == text::words(front));
    }
}

proof fn lemma_trim_start(s: Seq<char>)
    ensures
        text::words(text::trim_start(s)) == text::words(s),
    decreases s.len(),
{
    if s.len() > 0 && text::is_white_space(s[0]) {
        let rest = s.skip(1);
        lemma_trim_start(rest);
        let none = Seq::<char>::empty();
        law_words_of_parts(none, s[0], rest);
        assert(none.push(s[0]) + rest == s);
        assert(text::words(none) + text::words(rest) == text::words(rest));
    }
}

/// A word: not empty, and without white space.
pub open spec fn is_word(w: Seq<char>) -> bool {
    w.len() > 0 && forall|i: int| 0 <= i < w.len() ==> !text::is_white_space(#[trigger] w[i])
}

proof fn lemma_words_are_words(s: Seq<char>)
    ensures
        forall|k: int|
            0 <= k < text::word_state(s).0.len() ==> is_word(#[trigger] text::word_state(s).0[k]),
        forall|i: int|
            0 <= i < text::word_state(s).1.len() ==> !text::is_white_space(
                #[trigger] text::word_state(s).1[i],
            ),
    decreases s.len(),
{
    if s.len() > 0 {
        lemma_words_are_words(s.drop_last());
        let (d0, c0) = text::word_state(s.drop_last());
        let (d1, c1) = text::word_state(s);
        assert forall|k: int| 0 <= k < d1.len() implies is_word(#[trigger] d1[k]) by {
            if k < d0.len() {
                assert(d1[k] == d0[k]);
            }
        }
    }
}

proof fn lemma_one_word(w: Seq<char>)
    requires
        forall|i: int| 0 <= i < w.len() ==> !text::is_white_space(#[trigger] w[i]),
    ensures
        text::word_state(w) == (Seq::<Seq<char>>::empty(), w),
    decreases w.len(),
{
    if w.len() > 0 {
        let front = w.drop_last();
        assert forall|i: int| 0 <= i < front.len() implies !text::is_white_space(
            #[trigger] front[i],
        ) by {
            assert(front[i] == w[i]);
        }
        lemma_one_word(front);
        assert(front.push(w.last()) == w);
        assert(!text::is_white_space(w[w.len() - 1]));
    }
}

/// Every word of a text is a word.
pub proof fn law_words_are_words(s: Seq<char>)
    ensures
        forall|k: int| 0 <= k < text::words(s).len() ==> is_word(#[trigger] text::words(s)[k]),
{
    lemma_words_are_words(s);
    let (done, cur) = text::word_state(s);
    assert forall|k: int| 0 <= k < text::words(s).len() implies is_word(
        #[trigger] text::words(s)[k],
    ) by {
        if k < done.len() {
            assert(text::words(s)[k] == done[k]);
        }
    }
}

/// Words that are joined by spaces are the words of the result.
pub proof fn law_joined_words_are_words(ws: Seq<Seq<char>>)
    requires
        forall|k: int| 0 <= k < ws.len() ==> is_word(#[trigger] ws[k]),
    ensures
        text::words(text::join(ws, " "@)) == ws,
    decreases ws.len(),
{
    reveal_strlit(" ");
    if ws.len() == 0 {
        assert(text::words(text::join(ws, " "@)) == ws);
    } else {
        let last = ws.last();
        assert(is_word(ws[ws.len() - 1]));
        lemma_one_word(last);
        assert(text::words(last) == seq![last]);
        if ws.len() == 1 {
            assert(text::words(ws[0]) == ws);
        } else {
            let front = ws.drop_last();
            assert forall|k: int| 0 <= k < front.len() implies is_word(#[trigger] front[k]) by {
                assert(front[k] == ws[k]);
            }
            law_joined_words_are_words(front);
            let a = text::join(front, " "@);
            assert(a + " "@ + last == a.push(' ') + last);
            law_words_of_parts(a, ' ', last);
            assert(front + seq![last] == ws);
        }
    }
}

/// The words of some lines, one line after the other.
pub open spec fn words_of_lines(lines: Seq<Seq<char>>) -> Seq<Seq<char>>
    decreases lines.len(),
{
    if lines.len() == 0 {
        Seq::empty()
    } else {
        words_of_lines(lines.drop_last()) + text::words(lines.last())
    }
}

/// The words of joined lines are the words of the lines.
pub proof fn law_words_of_joined_lines(lines: Seq<Seq<char>>)
    ensures
        text::words(text::join(lines, "\n"@)) == words_of_lines(lines),
    decreases lines.len(),
{
    reveal_strlit("\n");
    if lines.len() == 0 {
        assert(text::words(text::join(lines, "\n"@)) == words_of_lines(lines));
    } else if lines.len() == 1 {
        assert(words_of_lines(lines.drop_last()) == Seq::<Seq<char>>::empty());
        assert(words_of_lines(lines) == text::words(lines[0]));
    } else {
        let front = lines.drop_last();
        law_words_of_joined_lines(front);
        let a = text::join(front, "\n"@);
        assert(a + "\n"@ + lines.last() == a.push('\n') + lines.last());
        law_words_of_parts(a, '\n', lines.last());
    }
}

} // verus!
