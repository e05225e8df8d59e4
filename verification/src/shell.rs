//! Quoting for a shell.

use vstd::prelude::*;
use vstd::string::*;

use crate::text;
use crate::text::{copy, replaced_char};

verus! {

/// A text in single quotes; a single quote in it ends the quotes, stands
/// escaped, and opens them again.
pub open spec fn quoted(s: Seq<char>) -> Seq<char> {
    "'"@ + text::replace_char(s, '\'', "'\\''"@) + "'"@
}

/// Puts a text in single quotes.
pub fn shell_quote(input: &str) -> (r: String)
    ensures
        r@ == quoted(input@),
{
    copy("'").concat(replaced_char(input, '\'', "'\\''").as_str()).concat("'")
}

/// Where a shell stands in a word.
#[derive(Clone, Copy)]
pub enum WordMode {
    Plain,
    Quoted,
    Escaped,
}

/// How a shell reads a word made of single quotes, escapes and plain
/// characters: the characters read so far, where it stands, and whether all
/// of them stood in quotes or behind an escape.
pub open spec fn shell_read(s: Seq<char>) -> (Seq<char>, WordMode, bool)
    decreases s.len(),
{
    if s.len() == 0 {
        (Seq::empty(), WordMode::Plain, true)
    } else {
        let (value, mode, is_safe) = shell_read(s.drop_last());
        let c = s.last();
        match mode {
            WordMode::Quoted => if c == '\'' {
                (value, WordMode::Plain, is_safe)
            } else {
                (value.push(c), WordMode::Quoted, is_safe)
            },
            WordMode::Escaped => (value.push(c), WordMode::Plain, is_safe),
            WordMode::Plain => if c == '\'' {
                (value, WordMode::Quoted, is_safe)
            } else if c == '\\' {
                (value, WordMode::Escaped, is_safe)
            } else {
                (value.push(c), WordMode::Plain, false)
            },
        }
    }
}

proof fn lemma_open_quote(s: Seq<char>)
    ensures
        shell_read("'"@ + text::replace_char(s, '\'', "'\\''"@)) == (s, WordMode::Quoted, true),
    decreases s.len(),
{
    reveal_strlit("'");
    reveal_strlit("'\\''");
    let open = "'"@;
    let by = "'\\''"@;
    let whole = open + text::replace_char(s, '\'', by);
    if s.len() == 0 {
        assert(whole == open);
        assert(open.drop_last() == Seq::<char>::empty());
        assert(shell_read(open.drop_last()) == (Seq::<char>::empty(), WordMode::Plain, true));
        assert(shell_read(whole).0 == s);
    } else {
        let front = s.drop_last();
        lemma_open_quote(front);
        let before = open + text::replace_char(front, '\'', by);
        if s.last() == '\'' {
            assert(whole == before + by);
            let w1 = before.push('\'');
            let w2 = w1.push('\\');
            let w3 = w2.push('\'');
            let w4 = w3.push('\'');
            assert(whole == w4);
            assert(w1.drop_last() == before);
            assert(w2.drop_last() == w1);
            assert(w3.drop_last() == w2);
            assert(w4.drop_last() == w3);
            assert(shell_read(w1) == (front, WordMode::Plain, true));
            assert(shell_read(w2) == (front, WordMode::Escaped, true));
            assert(shell_read(w3) == (front.push('\''), WordMode::Plain, true));
            assert(shell_read(w4) == (front.push('\''), WordMode::Quoted, true));
        } else {
            assert(whole == before.push(s.last()));
            assert(whole.drop_last() == before);
        }
        assert(front.push(s.last()) == s);
    }
}

/// A shell reads a quoted text as one word that is the text itself, and takes
/// no character of it for anything else.
pub proof fn law_quoted_text_is_read_back(s: Seq<char>)
    ensures
        shell_read(quoted(s)) == (s, WordMode::Plain, true),
{
    reveal_strlit("'");
    lemma_open_quote(s);
    assert(quoted(s).drop_last() == "'"@ + text::replace_char(s, '\'', "'\\''"@));
}

} // verus!
