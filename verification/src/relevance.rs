//! What makes two tasks resemble each other: keywords, tags and paths.

use vstd::prelude::*;
use vstd::string::*;

use crate::paths;
use crate::paths::parent_of;
use crate::text;
use crate::text::{
    ascii_lower, begins, chars_of, copy, digit, find_from, is_among, replaced_char, same,
    slice_of, split_alnum, split_words, string_of, string_of_all, trimmed_start,
};

verus! {

// ---------------------------------------------------------------------------
// Keywords

/// Only digits.
pub open spec fn is_number(w: Seq<char>) -> bool {
    forall|i: int| 0 <= i < w.len() ==> text::is_digit(#[trigger] w[i])
}

/// Long enough to say something, and not a number.
pub open spec fn is_keyword(w: Seq<char>) -> bool {
    w.len() >= 4 && !is_number(w)
}

/// The keywords of a text: its words of letters and digits in lower case,
/// each once, in the order in which they first occur.
pub open spec fn keywords(s: Seq<char>) -> Seq<Seq<char>> {
    text::distinct(text::words(text::gapped(s)).filter(|w: Seq<char>| is_keyword(w)))
}

fn keyword(w: &str) -> (r: bool)
    ensures
        r == is_keyword(w@),
{
    let c: Vec<char> = chars_of(w);
    if c.len() < 4 {
        return false;
    }
    let mut i: usize = 0;
    while i < c.len()
        invariant
            i <= c@.len(),
            c@ == w@,
            c@.len() >= 4,
            forall|k: int| 0 <= k < i ==> text::is_digit(#[trigger] c@[k]),
        decreases c@.len() - i,
    {
        if !digit(c[i]) {
            assert(!text::is_digit(w@[i as int]));
            return true;
        }
        i += 1;
    }
    assert(is_number(w@));
    false
}

/// The keywords of a text.
pub fn extract_keywords(input: &str) -> (r: Vec<String>)
    ensures
        text::views(r@) == keywords(input@),
{
    let words: Vec<String> = split_alnum(input);
    let ghost all = text::views(words@);
    let ghost p = |w: Seq<char>| is_keyword(w);
    let mut out: Vec<String> = Vec::new();
    let mut i: usize = 0;
    proof {
        reveal(Seq::filter);
        assert(text::views(out@) == text::distinct(all.take(0).filter(p)));
    }
    while i < words.len()
        invariant
            i <= words@.len(),
            all == text::views(words@),
            p == (|w: Seq<char>| is_keyword(w)),
            text::views(out@) == text::distinct(all.take(i as int).filter(p)),
        decreases words@.len() - i,
    {
        proof {
            reveal(Seq::filter);
            assert(all.take(i + 1).drop_last() == all.take(i as int));
            assert(all[i as int] == words@[i as int]@);
            let f = all.take(i as int).filter(p);
            assert(f.push(all[i as int]).drop_last() == f);
        }
        if keyword(words[i].as_str()) && !is_among(&out, words[i].as_str()) {
            let ghost before = out@;
            out.push(copy(words[i].as_str()));
            assert(text::views(out@) == text::views(before).push(all[i as int]));
        }
        i += 1;
    }
    assert(all.take(i as int) == all);
    out
}

/// The texts in lower case.
pub open spec fn lowered(s: Seq<Seq<char>>) -> Seq<Seq<char>> {
    s.map_values(|w: Seq<char>| text::lower(w))
}

/// Turns texts into lower case.
pub fn lower_all(words: &Vec<String>) -> (r: Vec<String>)
    ensures
        text::views(r@) == lowered(text::views(words@)),
{
    let ghost all = lowered(text::views(words@));
    let mut out: Vec<String> = Vec::new();
    let mut i: usize = 0;
    while i < words.len()
        invariant
            i <= words@.len(),
            all == lowered(text::views(words@)),
            text::views(out@) == all.take(i as int),
        decreases words@.len() - i,
    {
        let ghost before = out@;
        let w: String = string_of_all(&ascii_lower(&chars_of(words[i].as_str())));
        let ghost shown = w@;
        assert(text::views(words@)[i as int] == words@[i as int]@);
        out.push(w);
        i += 1;
        assert(text::views(out@) == text::views(before).push(shown));
        assert(all.take(i as int) == all.take(i - 1).push(all[i - 1]));
    }
    assert(all.take(i as int) == all);
    out
}

// ---------------------------------------------------------------------------
// Sets of texts

/// How many different texts two lists have in common.
pub open spec fn common(a: Seq<Seq<char>>, b: Seq<Seq<char>>) -> nat {
    a.to_set().intersect(b.to_set()).len()
}

/// Counts the different texts that two lists have in common.
pub fn count_common(a: &Vec<String>, b: &Vec<String>) -> (r: usize)
    ensures
        r == common(text::views(a@), text::views(b@)),
        r <= a@.len(),
{
    let ghost av = text::views(a@);
    let ghost bs = text::views(b@).to_set();
    let mut seen: Vec<String> = Vec::new();
    let mut count: usize = 0;
    let mut i: usize = 0;
    proof {
        assert(av.take(0).to_set().intersect(bs) =~= Set::empty());
    }
    while i < a.len()
        invariant
            i <= a@.len(),
            av == text::views(a@),
            bs == text::views(b@).to_set(),
            text::views(seen@) == av.take(i as int),
            count <= i,
            count == av.take(i as int).to_set().intersect(bs).len(),
        decreases a@.len() - i,
    {
        let ghost x = av[i as int];
        proof {
            let s0 = av.take(i as int).to_set();
            let s1 = av.take(i + 1).to_set();
            assert(av.take(i + 1) == av.take(i as int).push(x));
            assert(s1 =~= s0.insert(x)) by {
                assert forall|y: Seq<char>| s1.contains(y) == s0.insert(x).contains(y) by {
                    let t0 = av.take(i as int);
                    let t1 = av.take(i + 1);
                    if t1.contains(y) {
                        let k = choose|k: int| 0 <= k < t1.len() && t1[k] == y;
                        if k < i {
                            assert(t0[k] == y);
                        }
                    }
                    if t0.contains(y) {
                        let k = choose|k: int| 0 <= k < t0.len() && t0[k] == y;
                        assert(t1[k] == y);
                    }
                    assert(t1[i as int] == x);
                }
            }
            if s0.contains(x) || !bs.contains(x) {
                assert(s1.intersect(bs) =~= s0.intersect(bs));
            } else {
                assert(s1.intersect(bs) =~= s0.intersect(bs).insert(x));
            }
        }
        let word: &str = a[i].as_str();
        if !is_among(&seen, word) && is_among(b, word) {
            count += 1;
        }
        let ghost before = seen@;
        seen.push(copy(word));
        assert(text::views(seen@) == text::views(before).push(x));
        i += 1;
        assert(av.take(i as int) == av.take(i - 1).push(av[i - 1]));
    }
    assert(av.take(i as int) == av);
    count
}

/// How many of `a`, counted as often as they occur, are in `b`.
pub open spec fn occurring(a: Seq<Seq<char>>, b: Seq<Seq<char>>) -> nat
    decreases a.len(),
{
    if a.len() == 0 {
        0
    } else {
        occurring(a.drop_last(), b) + (if b.contains(a.last()) {
            1nat
        } else {
            0nat
        })
    }
}

/// Counts those of `a` that are in `b`, as often as they occur.
pub fn count_occurring(a: &Vec<String>, b: &Vec<String>) -> (r: usize)
    ensures
        r == occurring(text::views(a@), text::views(b@)),
        r <= a@.len(),
{
    let ghost av = text::views(a@);
    let mut count: usize = 0;
    let mut i: usize = 0;
    while i < a.len()
        invariant
            i <= a@.len(),
            av == text::views(a@),
            count <= i,
            count == occurring(av.take(i as int), text::views(b@)),
        decreases a@.len() - i,
    {
        assert(av.take(i + 1).drop_last() == av.take(i as int));
        if is_among(b, a[i].as_str()) {
            count += 1;
        }
        i += 1;
    }
    assert(av.take(i as int) == av);
    count
}

// ---------------------------------------------------------------------------
// Paths

/// The directory of a path, with forward slashes; none where it is empty or
/// the current one.
pub open spec fn directory(path: Seq<char>) -> Option<Seq<char>> {
    match paths::parent(path) {
        Some(p) => {
            let q = text::replace_char(p, '\\', "/"@);
            if q.len() == 0 || q == "."@ {
                None
            } else {
                Some(q)
            }
        },
        None => None,
    }
}

/// The directory of a path.
pub fn parent_dir(path: &str) -> (r: Option<String>)
    ensures
        paths::opt_view(r) == directory(path@),
{
    match parent_of(path) {
        Some(p) => {
            let q: String = replaced_char(p.as_str(), '\\', "/");
            if q.as_str().unicode_len() == 0 || same(q.as_str(), ".") {
                None
            } else {
                Some(q)
            }
        },
        None => None,
    }
}

/// The directories of some paths, without the paths that have none.
pub open spec fn directories(ps: Seq<Seq<char>>) -> Seq<Seq<char>>
    decreases ps.len(),
{
    if ps.len() == 0 {
        Seq::empty()
    } else {
        match directory(ps.last()) {
            Some(d) => directories(ps.drop_last()).push(d),
            None => directories(ps.drop_last()),
        }
    }
}

/// The directories of some paths.
pub fn parent_dirs(ps: &Vec<String>) -> (r: Vec<String>)
    ensures
        text::views(r@) == directories(text::views(ps@)),
        r@.len() <= ps@.len(),
{
    let ghost all = text::views(ps@);
    let mut out: Vec<String> = Vec::new();
    let mut i: usize = 0;
    assert(text::views(out@) == directories(all.take(0)));
    while i < ps.len()
        invariant
            i <= ps@.len(),
            all == text::views(ps@),
            out@.len() <= i,
            text::views(out@) == directories(all.take(i as int)),
        decreases ps@.len() - i,
    {
        assert(all.take(i + 1).drop_last() == all.take(i as int));
        assert(all[i as int] == ps@[i as int]@);
        match parent_dir(ps[i].as_str()) {
            Some(d) => {
                let ghost before = out@;
                let ghost shown = d@;
                out.push(d);
                assert(text::views(out@) == text::views(before).push(shown));
            },
            None => {},
        }
        i += 1;
    }
    assert(all.take(i as int) == all);
    out
}

/// What may stand around a path in a sentence.
pub open spec fn is_wrapping(c: char) -> bool {
    c == '"' || c == '\'' || c == ',' || c == ':' || c == ';' || c == '(' || c == ')' || c == '['
        || c == ']' || c == '`'
}

fn wrapping(c: char) -> (r: bool)
    ensures
        r == is_wrapping(c),
{
    c == '"' || c == '\'' || c == ',' || c == ':' || c == ';' || c == '(' || c == ')' || c == '['
        || c == ']' || c == '`'
}

/// A word without what stands around it.
pub open spec fn unwrapped(w: Seq<char>) -> Seq<char>
    decreases w.len(),
{
    if w.len() > 0 && is_wrapping(w[0]) {
        unwrapped(w.skip(1))
    } else if w.len() > 0 && is_wrapping(w.last()) {
        unwrapped(w.drop_last())
    } else {
        w
    }
}

/// The path that a word of a description names: what looks like a path has a
/// directory.
pub open spec fn path_token(w: Seq<char>) -> Option<Seq<char>> {
    if directory(unwrapped(w)) is Some {
        Some(unwrapped(w))
    } else {
        None
    }
}

/// The path that a word of a description names.
pub fn clean_task_path_token(token: &str) -> (r: Option<String>)
    ensures
        paths::opt_view(r) == path_token(token@),
{
    let c: Vec<char> = chars_of(token);
    let mut from: usize = 0;
    let mut to: usize = c.len();
    assert(c@.subrange(0, c@.len() as int) == c@);
    while from < to && wrapping(c[from])
        invariant
            from <= to == c@.len(),
            unwrapped(c@) == unwrapped(c@.subrange(from as int, to as int)),
        decreases to - from,
    {
        assert(c@.subrange(from as int, to as int).skip(1) == c@.subrange(from + 1, to as int));
        from += 1;
    }
    while from < to && wrapping(c[to - 1])
        invariant
            from <= to <= c@.len(),
            from < to ==> !is_wrapping(c@[from as int]),
            unwrapped(c@) == unwrapped(c@.subrange(from as int, to as int)),
        decreases to - from,
    {
        assert(c@.subrange(from as int, to as int).drop_last() == c@.subrange(
            from as int,
            to - 1,
        ));
        to -= 1;
    }
    let cleaned: String = string_of(&c, from, to);
    match parent_dir(cleaned.as_str()) {
        Some(_) => Some(cleaned),
        None => None,
    }
}

/// The paths that some words name.
pub open spec fn path_tokens(ws: Seq<Seq<char>>) -> Seq<Seq<char>>
    decreases ws.len(),
{
    if ws.len() == 0 {
        Seq::empty()
    } else {
        match path_token(ws.last()) {
            Some(p) => path_tokens(ws.drop_last()).push(p),
            None => path_tokens(ws.drop_last()),
        }
    }
}

/// The paths that a description names, each once.
pub open spec fn path_hints(description: Seq<char>) -> Seq<Seq<char>> {
    text::distinct(path_tokens(text::words(description)))
}

proof fn lemma_word_count(s: Seq<char>)
    ensures
        text::word_state(s).0.len() + text::word_state(s).1.len() <= s.len(),
    decreases s.len(),
{
    if s.len() > 0 {
        lemma_word_count(s.drop_last());
    }
}

/// The paths that a description names.
pub fn extract_path_hints(description: &str) -> (r: Vec<String>)
    ensures
        text::views(r@) == path_hints(description@),
        r@.len() <= description@.len(),
{
    let words: Vec<String> = split_words(&chars_of(description));
    let ghost all = text::views(words@);
    proof {
        lemma_word_count(description@);
        assert(all.len() <= description@.len());
    }
    let mut out: Vec<String> = Vec::new();
    let mut i: usize = 0;
    assert(text::views(out@) == text::distinct(path_tokens(all.take(0))));
    while i < words.len()
        invariant
            i <= words@.len(),
            all == text::views(words@),
            out@.len() <= i,
            text::views(out@) == text::distinct(path_tokens(all.take(i as int))),
        decreases words@.len() - i,
    {
        proof {
            assert(all.take(i + 1).drop_last() == all.take(i as int));
            assert(all[i as int] == words@[i as int]@);
        }
        match clean_task_path_token(words[i].as_str()) {
            Some(p) => {
                let ghost shown = p@;
                proof {
                    let f = path_tokens(all.take(i as int));
                    assert(f.push(shown).drop_last() == f);
                }
                if !is_among(&out, p.as_str()) {
                    let ghost before = out@;
                    out.push(p);
                    assert(text::views(out@) == text::views(before).push(shown));
                }
            },
            None => {},
        }
        i += 1;
    }
    assert(all.take(i as int) == all);
    out
}

// ---------------------------------------------------------------------------
// Frontmatter

/// What follows the opening line of dashes.
pub open spec fn after_dashes(content: Seq<char>) -> Seq<char> {
    let rest = text::trim_start(content).skip(3);
    if text::starts_with(rest, "\n"@) {
        rest.skip(1)
    } else {
        rest
    }
}

/// The text between the opening and the closing line of dashes.
pub open spec fn is_frontmatter(content: Seq<char>, front: Option<Seq<char>>) -> bool {
    let after = after_dashes(content);
    match front {
        Some(f) => {
            &&& text::starts_with(text::trim_start(content), "---"@)
            &&& exists|i: int| #[trigger]
                text::is_first_match(after, "\n---"@, 0, i) && f == after.take(i)
        },
        None => !text::starts_with(text::trim_start(content), "---"@) || !text::contains(
            after,
            "\n---"@,
        ),
    }
}

/// The frontmatter of a task file.
pub fn extract_frontmatter(content: &str) -> (r: Option<String>)
    ensures
        is_frontmatter(content@, paths::opt_view(r)),
{
    let t: Vec<char> = trimmed_start(&chars_of(content));
    if !begins(&t, "---") {
        return None;
    }
    proof {
        reveal_strlit("---");
        reveal_strlit("\n");
    }
    let rest: Vec<char> = slice_of(&t, 3, t.len());
    assert(rest@ == t@.skip(3));
    let after: Vec<char> = if begins(&rest, "\n") {
        let a: Vec<char> = slice_of(&rest, 1, rest.len());
        assert(a@ == rest@.skip(1));
        a
    } else {
        rest
    };
    assert(after@ == after_dashes(content@));
    let close: Vec<char> = chars_of("\n---");
    match find_from(&after, &close, 0) {
        Some(i) => {
            assert(after@.subrange(0, i as int) == after@.take(i as int));
            Some(string_of(&after, 0, i))
        },
        None => {
            None
        },
    }
}

/// The paths that a task file lists as changed: `parse` reads them from the
/// frontmatter. A file without frontmatter lists none.
pub fn load_changed_paths<F: Fn(String) -> Vec<String>>(content: &str, parse: &F) -> (r: Vec<
    String,
>)
    requires
        forall|s: String| #[trigger] call_requires(*parse, (s,)),
    ensures
        exists|front: Option<Seq<char>>| #[trigger]
            is_frontmatter(content@, front) && match front {
                Some(f) => exists|s: String| s@ == f && #[trigger] call_ensures(*parse, (s,), r),
                None => r@.len() == 0,
            },
{
    match extract_frontmatter(content) {
        Some(front) => {
            let ghost given = front;
            let r: Vec<String> = parse(front);
            assert(call_ensures(*parse, (given,), r));
            assert(is_frontmatter(content@, Some(given@)));
            r
        },
        None => {
            assert(is_frontmatter(content@, None));
            Vec::new()
        },
    }
}

} // verus!
