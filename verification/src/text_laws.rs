//! What holds of texts and paths: what is put together is found again.

use vstd::prelude::*;

use crate::paths;
use crate::text;

verus! {

// ---------------------------------------------------------------------------
// Texts

/// Neither end of a text is white space.
pub open spec fn is_trimmed(s: Seq<char>) -> bool {
    s.len() > 0 ==> !text::is_white_space(s[0]) && !text::is_white_space(s.last())
}

/// Nothing but white space.
pub open spec fn is_blank(s: Seq<char>) -> bool {
    forall|i: int| 0 <= i < s.len() ==> text::is_white_space(#[trigger] s[i])
}

proof fn lemma_trim_start(a: Seq<char>, s: Seq<char>)
    requires
        is_blank(a),
        s.len() > 0 ==> !text::is_white_space(s[0]),
    ensures
        text::trim_start(a + s) == s,
    decreases a.len(),
{
    if a.len() == 0 {
        assert(a + s =~= s);
    } else {
        assert(text::is_white_space(a[0]));
        let rest = a.skip(1);
        assert forall|i: int| 0 <= i < rest.len() implies text::is_white_space(#[trigger] rest[i]) by {
            assert(rest[i] == a[i + 1]);
        }
        lemma_trim_start(rest, s);
        assert((a + s).skip(1) =~= rest + s);
    }
}

proof fn lemma_trim_end(s: Seq<char>, b: Seq<char>)
    requires
        is_blank(b),
        s.len() > 0 ==> !text::is_white_space(s.last()),
    ensures
        text::trim_end(s + b) == s,
    decreases b.len(),
{
    if b.len() == 0 {
        assert(s + b =~= s);
    } else {
        assert(text::is_white_space(b[b.len() - 1]));
        let rest = b.drop_last();
        assert forall|i: int| 0 <= i < rest.len() implies text::is_white_space(#[trigger] rest[i]) by {
            assert(rest[i] == b[i]);
        }
        lemma_trim_end(s, rest);
        assert((s + b).drop_last() =~= s + rest);
    }
}

/// Trimming takes off the white space around a text, all of it and nothing
/// else; spaces, tabs and line ends are white space, letters, digits and
/// ordinary signs are not.
pub proof fn law_trimming_takes_white_space(a: Seq<char>, s: Seq<char>, b: Seq<char>, c: char)
    requires
        is_blank(a),
        is_blank(b),
        is_trimmed(s),
    ensures
        text::trim(a + s + b) == s,
        c == ' ' || c == '\t' || c == '\n' || c == '\r' ==> text::is_white_space(c),
        '!' <= c <= '~' ==> !text::is_white_space(c),
{
    if s.len() == 0 {
        let all = a + b;
        assert(a + s + b =~= all + Seq::<char>::empty());
        assert forall|i: int| 0 <= i < all.len() implies text::is_white_space(#[trigger] all[i]) by {
            if i < a.len() {
                assert(all[i] == a[i]);
            } else {
                assert(all[i] == b[i - a.len()]);
            }
        }
        lemma_trim_start(all, Seq::empty());
        assert(s =~= Seq::<char>::empty());
    } else {
        assert(a + s + b =~= a + (s + b));
        lemma_trim_start(a, s + b);
        lemma_trim_end(s, b);
    }
}

proof fn lemma_line_state(head: Seq<char>, line: Seq<char>)
    requires
        forall|i: int| 0 <= i < line.len() ==> #[trigger] line[i] != '\n',
        text::line_state(head).1.len() == 0,
    ensures
        text::line_state(head + line) == (text::line_state(head).0, line),
    decreases line.len(),
{
    if line.len() == 0 {
        assert(head + line =~= head);
        assert(text::line_state(head).1 =~= line);
    } else {
        let front = line.drop_last();
        assert forall|i: int| 0 <= i < front.len() implies #[trigger] front[i] != '\n' by {
            assert(front[i] == line[i]);
        }
        lemma_line_state(head, front);
        assert((head + line).drop_last() =~= head + front);
        assert(line[line.len() - 1] != '\n');
        assert(front.push(line.last()) =~= line);
    }
}

/// A line without its end.
pub open spec fn is_plain_line(line: Seq<char>) -> bool {
    (forall|i: int| 0 <= i < line.len() ==> #[trigger] line[i] != '\n') && (line.len() > 0
        ==> line.last() != '\r')
}

/// Each line with an end behind it.
pub open spec fn terminated(lines: Seq<Seq<char>>, end: Seq<char>) -> Seq<char>
    decreases lines.len(),
{
    if lines.len() == 0 {
        Seq::empty()
    } else {
        terminated(lines.drop_last(), end) + lines.last() + end
    }
}

proof fn lemma_terminated(lines: Seq<Seq<char>>, end: Seq<char>)
    requires
        forall|k: int| 0 <= k < lines.len() ==> is_plain_line(#[trigger] lines[k]),
        end == seq!['\n'] || end == seq!['\r', '\n'],
    ensures
        text::line_state(terminated(lines, end)) == (lines, Seq::<char>::empty()),
    decreases lines.len(),
{
    if lines.len() == 0 {
        assert(lines =~= Seq::<Seq<char>>::empty());
    } else {
        let front = lines.drop_last();
        let line = lines[lines.len() - 1];
        assert(is_plain_line(line));
        assert forall|k: int| 0 <= k < front.len() implies is_plain_line(#[trigger] front[k]) by {
            assert(front[k] == lines[k]);
        }
        lemma_terminated(front, end);
        let head = terminated(front, end);
        let all = terminated(lines, end);
        if end == seq!['\n'] {
            lemma_line_state(head, line);
            assert(all.drop_last() =~= head + line);
            assert(all.last() == '\n');
            assert(text::strip_cr(line) == line);
        } else {
            lemma_line_state(head, line.push('\r'));
            assert(all.drop_last() =~= head + line.push('\r'));
            assert(all.last() == '\n');
            assert(text::strip_cr(line.push('\r')) =~= line);
        }
        assert(front.push(line) =~= lines);
    }
}

/// Lines that were written one below the other, with either line end, are read
/// back as they were, whether or not the last one has its end.
pub proof fn law_lines_are_read_back(lines: Seq<Seq<char>>, end: Seq<char>, rest: Seq<char>)
    requires
        forall|k: int| 0 <= k < lines.len() ==> is_plain_line(#[trigger] lines[k]),
        end == seq!['\n'] || end == seq!['\r', '\n'],
        is_plain_line(rest),
        rest.len() > 0,
    ensures
        text::lines(terminated(lines, end)) == lines,
        text::lines(terminated(lines, end) + rest) == lines.push(rest),
{
    lemma_terminated(lines, end);
    lemma_line_state(terminated(lines, end), rest);
}

/// A padded text is as wide as asked for, unless it was wider; it is the text,
/// with spaces on the one side only.
pub proof fn law_padding_keeps_the_text(s: Seq<char>, width: nat)
    ensures
        ({
            let n = if s.len() < width {
                width
            } else {
                s.len()
            };
            let right = text::pad_right(s, width);
            let left = text::pad_left(s, width);
            &&& right.len() == n && left.len() == n
            &&& right.subrange(0, s.len() as int) == s
            &&& left.subrange(n - s.len(), n as int) == s
            &&& forall|i: int| s.len() <= i < n ==> #[trigger] right[i] == ' '
            &&& forall|i: int| 0 <= i < n - s.len() ==> #[trigger] left[i] == ' '
        }),
{
    let right = text::pad_right(s, width);
    let left = text::pad_left(s, width);
    assert(right.subrange(0, s.len() as int) =~= s);
    assert(left.subrange(left.len() - s.len(), left.len() as int) =~= s);
}

/// The digits of a number, from the last one on, are its remainders by ten.
pub proof fn law_decimals_are_positional(n: nat)
    ensures
        text::decimal(n).last() as int == '0' as int + n % 10,
        n >= 10 ==> text::decimal(n).drop_last() == text::decimal(n / 10),
        n < 10 ==> text::decimal(n).len() == 1,
        text::signed(n as int) == text::decimal(n),
        n > 0 ==> text::signed(-n) == seq!['-'] + text::decimal(n),
{
    reveal_strlit("-");
    assert("-"@ =~= seq!['-']);
    if n >= 10 {
        assert(text::decimal(n).drop_last() =~= text::decimal(n / 10));
    }
}

/// A text that is put together holds each of its parts.
pub proof fn lemma_holds(head: Seq<char>, part: Seq<char>, rest: Seq<char>)
    ensures
        text::contains(head + part + rest, part),
        text::starts_with(part + rest, part),
        text::ends_with(head + part, part),
{
    let s = head + part + rest;
    assert(s.subrange(head.len() as int, (head.len() + part.len()) as int) =~= part);
    assert(text::matches_at(s, part, head.len() as int));
    assert((part + rest).subrange(0, part.len() as int) =~= part);
    let t = head + part;
    assert(t.subrange(t.len() - part.len(), t.len() as int) =~= part);
}

/// What a part holds, the whole holds.
pub proof fn lemma_holds_within(
    head: Seq<char>,
    part: Seq<char>,
    rest: Seq<char>,
    needle: Seq<char>,
)
    requires
        text::contains(part, needle),
    ensures
        text::contains(head + part + rest, needle),
{
    let s = head + part + rest;
    let i = choose|i: int| text::matches_at(part, needle, i);
    assert(s.subrange(head.len() + i, head.len() + i + needle.len()) =~= part.subrange(
        i,
        i + needle.len(),
    ));
    assert(text::matches_at(s, needle, head.len() + i));
}

/// The text of `s` stands in `whole` behind `label`.
pub open spec fn shows(whole: Seq<char>, label: Seq<char>, s: Seq<char>) -> bool {
    text::contains(whole, label + s)
}

/// What stands behind its label in a text is shown.
pub proof fn lemma_shows(head: Seq<char>, label: Seq<char>, s: Seq<char>, rest: Seq<char>)
    ensures
        shows(head + label + s + rest, label, s),
{
    lemma_holds(head, label + s, rest);
    assert(head + (label + s) + rest =~= head + label + s + rest);
}

/// The parts of a text may be put together in any order of steps.
pub proof fn lemma_parts(head: Seq<char>, label: Seq<char>, s: Seq<char>, rest: Seq<char>)
    ensures
        head + (label + s + rest) == head + label + s + rest,
{
    assert(head + (label + s + rest) =~= head + label + s + rest);
}

// ---------------------------------------------------------------------------
// Paths

/// A name that may stand in a path.
pub open spec fn is_plain_name(name: Seq<char>) -> bool {
    &&& name.len() > 0
    &&& !name.contains('/')
    &&& name != seq!['.']
    &&& name != seq!['.', '.']
}

proof fn lemma_segments_of_name(head: Seq<char>, name: Seq<char>)
    requires
        !name.contains('/'),
        paths::segment_state(head).1.len() == 0,
    ensures
        paths::segment_state(head + name) == (paths::segment_state(head).0, name),
    decreases name.len(),
{
    if name.len() == 0 {
        assert(head + name =~= head);
        assert(paths::segment_state(head).1 =~= name);
    } else {
        let front = name.drop_last();
        assert(!front.contains('/')) by {
            if front.contains('/') {
                let k = choose|k: int| 0 <= k < front.len() && front[k] == '/';
                assert(name[k] == '/');
            }
        }
        lemma_segments_of_name(head, front);
        assert((head + name).drop_last() =~= head + front);
        assert(name[name.len() - 1] != '/') by {
            if name[name.len() - 1] == '/' {
                assert(name.contains('/'));
            }
        }
        assert(front.push(name.last()) =~= name);
    }
}

proof fn lemma_first_segment(head: Seq<char>, rest: Seq<char>)
    requires
        paths::segment_state(head).0.len() > 0,
    ensures
        paths::segment_state(head + rest).0.len() > 0,
        paths::segment_state(head + rest).0[0] == paths::segment_state(head).0[0],
    decreases rest.len(),
{
    if rest.len() == 0 {
        assert(head + rest =~= head);
    } else {
        lemma_first_segment(head, rest.drop_last());
        assert((head + rest).drop_last() =~= head + rest.drop_last());
    }
}

/// Something in a directory is called by its own name, and the directory is
/// what it lies in.
pub proof fn law_names_are_found_in_paths(base: Seq<char>, name: Seq<char>)
    requires
        is_plain_name(name),
        base.len() > 0,
        base.last() != '/',
        base.len() > 1 ==> !(base.last() == '.' && base[base.len() - 2] == '/'),
    ensures
        paths::join_path(base, name) == base + seq!['/'] + name,
        paths::file_name(paths::join_path(base, name)) == Some(name),
        paths::file_name(name) == Some(name),
        paths::parent(paths::join_path(base, name)) == Some(base),
{
    assert(name[0] != '/') by {
        if name[0] == '/' {
            assert(name.contains('/'));
        }
    }
    let path = paths::join_path(base, name);
    let head = base.push('/');
    assert(path =~= base + seq!['/'] + name);
    assert(head.drop_last() =~= base);
    lemma_segments_of_name(head, name);
    assert(path =~= head + name);
    assert(paths::segments(path).last() == name);
    lemma_segments_of_name(Seq::empty(), name);
    assert(Seq::<char>::empty() + name =~= name);
    assert(paths::segments(name).last() == name);

    assert(path.last() == name.last());
    assert(name.last() != '/') by {
        if name.last() == '/' {
            assert(name.contains('/'));
        }
    }
    assert(paths::tidy_end(path) == path) by {
        if path[path.len() - 2] == '/' && path.last() == '.' {
            if name.len() > 1 {
                assert(name[name.len() - 2] == '/');
                assert(name.contains('/'));
            } else {
                assert(name =~= seq!['.']);
            }
        }
    }
    lemma_last_start(head, name);
    assert(path.take(head.len() as int) =~= head);
    assert(paths::last_start(path) == head.len());
    assert(paths::tidy_end(head) == paths::tidy_end(base));
    assert(paths::tidy_end(base) == base);
    assert(path != seq!['/']) by {
        assert(path.len() > 1);
    }
}

proof fn lemma_last_start(head: Seq<char>, name: Seq<char>)
    requires
        !name.contains('/'),
        head.len() > 0,
        head.last() == '/',
    ensures
        paths::last_start(head + name) == head.len(),
    decreases name.len(),
{
    if name.len() == 0 {
        assert(head + name =~= head);
    } else {
        let front = name.drop_last();
        assert(!front.contains('/')) by {
            if front.contains('/') {
                let k = choose|k: int| 0 <= k < front.len() && front[k] == '/';
                assert(name[k] == '/');
            }
        }
        lemma_last_start(head, front);
        assert((head + name).drop_last() =~= head + front);
        assert(name[name.len() - 1] != '/') by {
            if name[name.len() - 1] == '/' {
                assert(name.contains('/'));
            }
        }
    }
}

/// The first component of a path that is not absolute is all before its first
/// slash; that of an absolute one is the root.
pub proof fn law_first_component_is_the_top(top: Seq<char>, rest: Seq<char>)
    requires
        top.len() > 0,
        !top.contains('/'),
    ensures
        paths::first_component(top + seq!['/'] + rest) == top,
        paths::first_component(top) == top,
        paths::first_component(seq!['/'] + rest) == seq!['/'],
{
    assert(top[0] != '/') by {
        if top[0] == '/' {
            assert(top.contains('/'));
        }
    }
    lemma_segments_of_name(Seq::empty(), top);
    assert(Seq::<char>::empty() + top =~= top);
    let head = top.push('/');
    assert(head.drop_last() =~= top);
    assert(paths::segment_state(head).0 =~= seq![top]);
    lemma_first_segment(head, rest);
    assert(head + rest =~= top + seq!['/'] + rest);
}

proof fn lemma_last_dot(stem: Seq<char>, kind: Seq<char>)
    requires
        !kind.contains('.'),
    ensures
        paths::last_dot(stem.push('.') + kind) == Some(stem.len() as int),
    decreases kind.len(),
{
    let all = stem.push('.') + kind;
    if kind.len() == 0 {
        assert(all =~= stem.push('.'));
    } else {
        let front = kind.drop_last();
        assert(!front.contains('.')) by {
            if front.contains('.') {
                let k = choose|k: int| 0 <= k < front.len() && front[k] == '.';
                assert(kind[k] == '.');
            }
        }
        lemma_last_dot(stem, front);
        assert(all.drop_last() =~= stem.push('.') + front);
        assert(kind[kind.len() - 1] != '.') by {
            if kind[kind.len() - 1] == '.' {
                assert(kind.contains('.'));
            }
        }
    }
}

/// A file in a directory has the extension behind the last dot of its name, and
/// the stem before that dot.
pub proof fn law_extensions_are_found_in_paths(base: Seq<char>, stem: Seq<char>, kind: Seq<char>)
    requires
        base.len() > 0,
        base.last() != '/',
        base.len() > 1 ==> !(base.last() == '.' && base[base.len() - 2] == '/'),
        stem.len() > 0,
        !stem.contains('/'),
        kind.len() > 0,
        !kind.contains('/'),
        !kind.contains('.'),
    ensures
        ({
            let path = paths::join_path(base, stem + seq!['.'] + kind);
            &&& paths::extension(path) == Some(kind)
            &&& paths::stem(path) == Some(stem)
        }),
{
    let name = stem + seq!['.'] + kind;
    assert(!name.contains('/')) by {
        if name.contains('/') {
            let k = choose|k: int| 0 <= k < name.len() && name[k] == '/';
            if k < stem.len() {
                assert(stem[k] == '/');
            } else if k > stem.len() {
                assert(kind[k - stem.len() - 1] == '/');
            }
        }
    }
    assert(name.len() >= 3);
    law_names_are_found_in_paths(base, name);
    assert(name =~= stem.push('.') + kind);
    lemma_last_dot(stem, kind);
    assert(name.skip((stem.len() + 1) as int) =~= kind);
    assert(name.take(stem.len() as int) =~= stem);
}

/// A name without a dot, or with none but its first character, is all stem.
pub proof fn law_hidden_names_have_no_extension(base: Seq<char>, rest: Seq<char>)
    requires
        base.len() > 0,
        base.last() != '/',
        base.len() > 1 ==> !(base.last() == '.' && base[base.len() - 2] == '/'),
        rest.len() > 0,
        !rest.contains('/'),
        !rest.contains('.'),
    ensures
        paths::extension(paths::join_path(base, seq!['.'] + rest)) is None,
        paths::stem(paths::join_path(base, seq!['.'] + rest)) == Some(seq!['.'] + rest),
        paths::extension(paths::join_path(base, rest)) is None,
        paths::stem(paths::join_path(base, rest)) == Some(rest),
{
    let hidden = seq!['.'] + rest;
    assert(hidden[1] == rest[0]);
    assert(rest[0] != '.' && rest[0] != '/') by {
        if rest[0] == '.' {
            assert(rest.contains('.'));
        }
        if rest[0] == '/' {
            assert(rest.contains('/'));
        }
    }
    assert(!hidden.contains('/')) by {
        if hidden.contains('/') {
            let k = choose|k: int| 0 <= k < hidden.len() && hidden[k] == '/';
            assert(rest[k - 1] == '/');
        }
    }
    law_names_are_found_in_paths(base, hidden);
    law_names_are_found_in_paths(base, rest);
    lemma_last_dot(Seq::empty(), rest);
    assert(hidden =~= Seq::<char>::empty().push('.') + rest);
    lemma_no_dot(rest);
}

proof fn lemma_no_dot(s: Seq<char>)
    requires
        !s.contains('.'),
    ensures
        paths::last_dot(s) is None,
    decreases s.len(),
{
    if s.len() > 0 {
        let front = s.drop_last();
        assert(!front.contains('.')) by {
            if front.contains('.') {
                let k = choose|k: int| 0 <= k < front.len() && front[k] == '.';
                assert(s[k] == '.');
            }
        }
        lemma_no_dot(front);
        assert(s[s.len() - 1] != '.') by {
            if s[s.len() - 1] == '.' {
                assert(s.contains('.'));
            }
        }
    }
}

} // verus!
