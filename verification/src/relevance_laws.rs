//! What holds of what is read from descriptions and task files: keywords, paths
//! and the frontmatter.

use vstd::prelude::*;

use crate::paths;
use crate::relevance;
use crate::text;
use crate::text_laws;

verus! {

/// Leaving out repetitions leaves every text once.
pub proof fn law_distinct_texts_are_kept_once(s: Seq<Seq<char>>)
    ensures
        forall|x: Seq<char>| #[trigger] text::distinct(s).contains(x) <==> s.contains(x),
        text::distinct(s).no_duplicates(),
        text::distinct(s).len() <= s.len(),
    decreases s.len(),
{
    if s.len() > 0 {
        let front = s.drop_last();
        law_distinct_texts_are_kept_once(front);
        let before = text::distinct(front);
        let all = text::distinct(s);
        assert forall|x: Seq<char>| #[trigger] all.contains(x) <==> s.contains(x) by {
            if all.contains(x) {
                let k = choose|k: int| 0 <= k < all.len() && all[k] == x;
                if k < before.len() {
                    assert(before[k] == x);
                    assert(before.contains(x));
                    let i = choose|i: int| 0 <= i < front.len() && front[i] == x;
                    assert(s[i] == x);
                } else {
                    assert(s[s.len() - 1] == x);
                }
            }
            if s.contains(x) {
                let i = choose|i: int| 0 <= i < s.len() && s[i] == x;
                if i < front.len() {
                    assert(front[i] == x);
                    assert(before.contains(x));
                    let k = choose|k: int| 0 <= k < before.len() && before[k] == x;
                    assert(all[k] == x);
                } else if before.contains(x) {
                    let k = choose|k: int| 0 <= k < before.len() && before[k] == x;
                    assert(all[k] == x);
                } else {
                    assert(all[all.len() - 1] == x);
                }
            }
        }
    }
}

/// The keywords of a text are its words of letters and digits in lower case
/// that have at least four characters and are no numbers, each once.
pub proof fn law_keywords_say_something(s: Seq<char>, w: Seq<char>)
    ensures
        relevance::keywords(s).contains(w) <==> text::words(text::gapped(s)).contains(w) && w.len()
            >= 4 && exists|i: int| 0 <= i < w.len() && !('0' <= #[trigger] w[i] <= '9'),
        relevance::keywords(s).no_duplicates(),
{
    let ws = text::words(text::gapped(s));
    let keep = |x: Seq<char>| relevance::is_keyword(x);
    crate::merge::git_ops::lemma_kept(ws, keep);
    law_distinct_texts_are_kept_once(ws.filter(keep));
    assert(relevance::keywords(s).contains(w) <==> ws.filter(keep).contains(w));
    assert(ws.filter(keep).contains(w) <==> ws.contains(w) && keep(w));
}

/// Letters are read in lower case, digits as they are, and anything else parts
/// words.
pub proof fn law_words_are_parted_by_signs(s: Seq<char>, i: int)
    requires
        0 <= i < s.len(),
    ensures
        ({
            let c = s[i];
            let r = text::gapped(s)[i];
            &&& 'a' <= c <= 'z' || '0' <= c <= '9' ==> r == c
            &&& 'A' <= c <= 'Z' ==> r as u32 == c as u32 + 32
            &&& !('a' <= c <= 'z') && !('0' <= c <= '9') && !('A' <= c <= 'Z') ==> r == ' '
            &&& text::gapped(s).len() == s.len()
        }),
{
}

/// A file in a directory belongs to that directory, and one without a directory
/// to none.
pub proof fn law_files_belong_to_their_directory(base: Seq<char>, name: Seq<char>)
    requires
        text_laws::is_plain_name(name),
        base.len() > 0,
        base.last() != '/',
        base.len() > 1 ==> !(base.last() == '.' && base[base.len() - 2] == '/'),
        !base.contains('\\'),
        base != seq!['.'],
    ensures
        relevance::directory(base + seq!['/'] + name) == Some(base),
        relevance::directory(name) is None,
{
    text_laws::law_names_are_found_in_paths(base, name);
    lemma_unreplaced(base, '\\', "/"@);
    reveal_strlit(".");
    assert("."@ =~= seq!['.']);
    assert(paths::join_path(base, name) == base + seq!['/'] + name);
    assert(paths::parent(name) == Some(Seq::<char>::empty())) by {
        lemma_no_start(name);
        assert(name.last() != '/') by {
            if name.last() == '/' {
                assert(name.contains('/'));
            }
        }
        if name.len() > 1 {
            assert(name[name.len() - 2] != '/') by {
                if name[name.len() - 2] == '/' {
                    assert(name.contains('/'));
                }
            }
        }
        assert(paths::tidy_end(name) == name);
        assert(name != seq!['/']) by {
            if name == seq!['/'] {
                assert(name[0] == '/');
                assert(name.contains('/'));
            }
        }
        assert(name.take(0) =~= Seq::<char>::empty());
        assert(paths::tidy_end(Seq::empty()) == Seq::<char>::empty());
    }
    assert(text::replace_char(Seq::empty(), '\\', "/"@) =~= Seq::<char>::empty());
}

proof fn lemma_no_start(s: Seq<char>)
    requires
        !s.contains('/'),
    ensures
        paths::last_start(s) == 0,
    decreases s.len(),
{
    if s.len() > 0 {
        let front = s.drop_last();
        assert(!front.contains('/')) by {
            if front.contains('/') {
                let k = choose|k: int| 0 <= k < front.len() && front[k] == '/';
                assert(s[k] == '/');
            }
        }
        lemma_no_start(front);
        assert(s[s.len() - 1] != '/') by {
            if s[s.len() - 1] == '/' {
                assert(s.contains('/'));
            }
        }
    }
}

proof fn lemma_unreplaced(s: Seq<char>, c: char, by: Seq<char>)
    requires
        !s.contains(c),
    ensures
        text::replace_char(s, c, by) == s,
    decreases s.len(),
{
    if s.len() > 0 {
        let front = s.drop_last();
        assert(!front.contains(c)) by {
            if front.contains(c) {
                let k = choose|k: int| 0 <= k < front.len() && front[k] == c;
                assert(s[k] == c);
            }
        }
        lemma_unreplaced(front, c, by);
        assert(s[s.len() - 1] != c) by {
            if s[s.len() - 1] == c {
                assert(s.contains(c));
            }
        }
        assert(front.push(s.last()) =~= s);
    }
}

/// Quotes, brackets and other signs around a word.
pub open spec fn is_wrapping(s: Seq<char>) -> bool {
    forall|i: int|
        0 <= i < s.len() ==> #[trigger] s[i] == '"' || s[i] == '\'' || s[i] == '`' || s[i] == ','
            || s[i] == ':' || s[i] == ';' || s[i] == '(' || s[i] == ')' || s[i] == '[' || s[i]
            == ']'
}

/// A path in a description is found whatever quotes, brackets and commas stand
/// around it.
pub proof fn law_wrapped_paths_are_found(a: Seq<char>, path: Seq<char>, b: Seq<char>)
    requires
        is_wrapping(a),
        is_wrapping(b),
        path.len() > 0,
        !is_wrapping(seq![path[0]]),
        !is_wrapping(seq![path.last()]),
    ensures
        relevance::unwrapped(a + path + b) == path,
        relevance::directory(path) is Some ==> relevance::path_token(a + path + b) == Some(path),
        relevance::directory(path) is None ==> relevance::path_token(a + path + b) is None,
    decreases a.len() + b.len(),
{
    let w = a + path + b;
    assert(seq![path[0]][0] == path[0]);
    assert(!relevance::is_wrapping(path[0])) by {
        if relevance::is_wrapping(path[0]) {
            assert(is_wrapping(seq![path[0]]));
        }
    }
    assert(!relevance::is_wrapping(path.last())) by {
        if relevance::is_wrapping(path.last()) {
            assert(is_wrapping(seq![path.last()]));
        }
    }
    if a.len() > 0 {
        let rest = a.skip(1);
        assert(a[0] == w[0]);
        assert(relevance::is_wrapping(w[0]));
        assert forall|i: int| 0 <= i < rest.len() implies #[trigger] rest[i] == a[i + 1] by {}
        assert(is_wrapping(rest));
        law_wrapped_paths_are_found(rest, path, b);
        assert(w.skip(1) =~= rest + path + b);
    } else if b.len() > 0 {
        let rest = b.drop_last();
        assert(w =~= path + b);
        assert(w[0] == path[0]);
        assert(w.last() == b[b.len() - 1]);
        assert(relevance::is_wrapping(w.last()));
        assert forall|i: int| 0 <= i < rest.len() implies #[trigger] rest[i] == b[i] by {}
        assert(is_wrapping(rest));
        law_wrapped_paths_are_found(a, path, rest);
        assert(w.drop_last() =~= a + path + rest);
    } else {
        assert(w =~= path);
    }
}

proof fn lemma_path_tokens(ws: Seq<Seq<char>>, p: Seq<char>)
    ensures
        relevance::path_tokens(ws).contains(p) <==> exists|i: int|
            0 <= i < ws.len() && relevance::path_token(#[trigger] ws[i]) == Some(p),
    decreases ws.len(),
{
    if ws.len() > 0 {
        let front = ws.drop_last();
        lemma_path_tokens(front, p);
        let before = relevance::path_tokens(front);
        let all = relevance::path_tokens(ws);
        if all.contains(p) {
            let k = choose|k: int| 0 <= k < all.len() && all[k] == p;
            if k < before.len() {
                assert(before[k] == p);
                assert(before.contains(p));
                let i = choose|i: int|
                    0 <= i < front.len() && relevance::path_token(#[trigger] front[i]) == Some(p);
                assert(ws[i] == front[i]);
            } else {
                assert(relevance::path_token(ws[ws.len() - 1]) == Some(p));
            }
        }
        if exists|i: int| 0 <= i < ws.len() && relevance::path_token(#[trigger] ws[i]) == Some(p) {
            let i = choose|i: int|
                0 <= i < ws.len() && relevance::path_token(#[trigger] ws[i]) == Some(p);
            if i < front.len() {
                assert(front[i] == ws[i]);
                let k = choose|k: int| 0 <= k < before.len() && before[k] == p;
                assert(all[k] == p);
            } else {
                assert(all[all.len() - 1] == p);
            }
        }
    }
}

/// The paths of a description are those that its words name, each once.
pub proof fn law_descriptions_name_paths(description: Seq<char>, p: Seq<char>)
    ensures
        relevance::path_hints(description).contains(p) <==> exists|i: int|
            0 <= i < text::words(description).len() && relevance::path_token(
                #[trigger] text::words(description)[i],
            ) == Some(p),
        relevance::path_hints(description).no_duplicates(),
{
    let ws = text::words(description);
    law_distinct_texts_are_kept_once(relevance::path_tokens(ws));
    lemma_path_tokens(ws, p);
}

/// The frontmatter of a file is what stands between its first line, which is
/// three dashes, and the next line that starts with three dashes.
pub proof fn law_frontmatter_is_between_dashes(
    front: Seq<char>,
    rest: Seq<char>,
    found: Option<Seq<char>>,
)
    requires
        forall|i: int| 0 <= i < front.len() ==> !#[trigger] text::matches_at(
            front + "\n---"@ + rest,
            "\n---"@,
            i,
        ),
        relevance::is_frontmatter("---\n"@ + front + "\n---"@ + rest, found),
    ensures
        found == Some(front),
{
    let content = "---\n"@ + front + "\n---"@ + rest;
    let body = front + "\n---"@ + rest;
    reveal_strlit("---\n");
    reveal_strlit("---");
    reveal_strlit("\n---");
    reveal_strlit("\n");
    assert(content[0] == '-');
    assert(!text::is_white_space('-'));
    assert(text::trim_start(content) == content);
    assert(content.subrange(0, 3) =~= "---"@);
    let after = content.skip(3);
    assert(after.subrange(0, 1) =~= "\n"@);
    assert(after.skip(1) =~= body);
    assert(relevance::after_dashes(content) == body);
    let n = front.len() as int;
    assert(body.subrange(n, n + 4) =~= "\n---"@);
    assert(text::matches_at(body, "\n---"@, n));
    assert(found is Some);
    let f = found->Some_0;
    let i = choose|i: int| #[trigger]
        text::is_first_match(body, "\n---"@, 0, i) && f == body.take(i);
    assert(i <= n) by {
        if i > n {
            assert(!text::matches_at(body, "\n---"@, n));
        }
    }
    if i < n {
        assert(!text::matches_at(body, "\n---"@, i));
    }
    assert(body.take(n) =~= front);
}

/// A file that does not begin with dashes has no frontmatter.
pub proof fn law_other_files_have_no_frontmatter(content: Seq<char>, found: Option<Seq<char>>)
    requires
        content.len() > 0,
        content[0] != '-',
        !text::is_white_space(content[0]),
        relevance::is_frontmatter(content, found),
    ensures
        found is None,
{
    reveal_strlit("---");
    if found is Some {
        assert(text::trim_start(content) == content);
        assert(content.subrange(0, 3)[0] == content[0]);
        assert("---"@[0] == '-');
    }
}

} // verus!
