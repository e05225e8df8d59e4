//! Slash-separated paths as text.
//!
//! Joining follows the usual rule for Unix paths: an absolute second part
//! replaces the first, and no separator is doubled. Components that are empty
//! or a lone `.` carry no name.

use vstd::prelude::*;
use vstd::string::*;

use crate::text::{chars_of, copy, slice_of, string_of, string_of_all};

verus! {

/// `base` extended by `part`.
pub open spec fn join_path(base: Seq<char>, part: Seq<char>) -> Seq<char> {
    if part.len() > 0 && part[0] == '/' {
        part
    } else if base.len() == 0 || base.last() == '/' {
        base + part
    } else {
        base.push('/') + part
    }
}

/// Extends `base` by `part`.
pub fn joined(base: &str, part: &str) -> (r: String)
    ensures
        r@ == join_path(base@, part@),
{
    let b: Vec<char> = chars_of(base);
    let p: Vec<char> = chars_of(part);
    if p.len() > 0 && p[0] == '/' {
        return copy(part);
    }
    let mut out: String = copy(base);
    let n: usize = b.len();
    if n > 0 && b[n - 1] != '/' {
        out.push('/');
    }
    out.append(part);
    out
}

/// The segments ended so far and the segment in progress after reading `s`.
pub open spec fn segment_state(s: Seq<char>) -> (Seq<Seq<char>>, Seq<char>)
    decreases s.len(),
{
    if s.len() == 0 {
        (Seq::empty(), Seq::empty())
    } else {
        let (done, cur) = segment_state(s.drop_last());
        if s.last() == '/' {
            (done.push(cur), Seq::empty())
        } else {
            (done, cur.push(s.last()))
        }
    }
}

/// The pieces of `s` between slashes, empty ones among them.
pub open spec fn segments(s: Seq<char>) -> Seq<Seq<char>> {
    let (done, cur) = segment_state(s);
    done.push(cur)
}

/// The pieces of `s` between slashes.
pub fn split_segments(s: &Vec<char>) -> (r: Vec<Vec<char>>)
    ensures
        r@.len() == segments(s@).len(),
        forall|i: int| 0 <= i < r@.len() ==> (#[trigger] r@[i])@ == segments(s@)[i],
{
    let mut done: Vec<Vec<char>> = Vec::new();
    let mut cur: Vec<char> = Vec::new();
    let mut i: usize = 0;
    while i < s.len()
        invariant
            i <= s@.len(),
            segment_state(s@.take(i as int)).1 == cur@,
            segment_state(s@.take(i as int)).0.len() == done@.len(),
            forall|k: int|
                0 <= k < done@.len() ==> (#[trigger] done@[k])@ == segment_state(
                    s@.take(i as int),
                ).0[k],
        decreases s@.len() - i,
    {
        assert(s@.take(i + 1).drop_last() == s@.take(i as int));
        if s[i] == '/' {
            done.push(cur);
            cur = Vec::new();
        } else {
            cur.push(s[i]);
        }
        i += 1;
    }
    assert(s@.take(i as int) == s@);
    done.push(cur);
    done
}

/// The first component: `/` for an absolute path, nothing for the empty one.
pub open spec fn first_component(s: Seq<char>) -> Seq<char> {
    if s.len() > 0 && s[0] == '/' {
        seq!['/']
    } else {
        segments(s)[0]
    }
}

/// The first component of `path`.
pub fn first_component_of(path: &str) -> (r: String)
    ensures
        r@ == first_component(path@),
{
    let s: Vec<char> = chars_of(path);
    if s.len() > 0 && s[0] == '/' {
        let mut out: String = String::new();
        out.push('/');
        assert(out@ == seq!['/']);
        out
    } else {
        let parts: Vec<Vec<char>> = split_segments(&s);
        assert(parts@[0]@ == segments(s@)[0]);
        string_of_all(&parts[0])
    }
}

/// A segment that names something.
pub open spec fn is_named(seg: Seq<char>) -> bool {
    seg.len() > 0 && seg != seq!['.']
}

/// The last segment of `parts` that names something.
pub open spec fn last_named(parts: Seq<Seq<char>>) -> Option<Seq<char>>
    decreases parts.len(),
{
    if parts.len() == 0 {
        None
    } else if is_named(parts.last()) {
        Some(parts.last())
    } else {
        last_named(parts.drop_last())
    }
}

/// The final component, unless it is missing or `..`.
pub open spec fn file_name(s: Seq<char>) -> Option<Seq<char>> {
    match last_named(segments(s)) {
        Some(name) => if name == seq!['.', '.'] {
            None
        } else {
            Some(name)
        },
        None => None,
    }
}

/// The text of an optional character vector.
pub open spec fn chars_view(v: Option<Vec<char>>) -> Option<Seq<char>> {
    match v {
        Some(c) => Some(c@),
        None => None,
    }
}

/// The text of an optional string.
pub open spec fn opt_view(v: Option<String>) -> Option<Seq<char>> {
    match v {
        Some(c) => Some(c@),
        None => None,
    }
}

/// The final component of `path`.
pub fn file_name_of(path: &str) -> (r: Option<Vec<char>>)
    ensures
        chars_view(r) == file_name(path@),
{
    let s: Vec<char> = chars_of(path);
    let parts: Vec<Vec<char>> = split_segments(&s);
    let ghost all = segments(s@);
    let mut n: usize = parts.len();
    assert(all.take(n as int) == all);
    while n > 0
        invariant
            n <= parts@.len(),
            s@ == path@,
            all == segments(s@),
            parts@.len() == all.len(),
            forall|i: int| 0 <= i < parts@.len() ==> (#[trigger] parts@[i])@ == all[i],
            last_named(all) == last_named(all.take(n as int)),
        decreases n,
    {
        let seg: &Vec<char> = &parts[n - 1];
        assert(all.take(n as int).last() == seg@);
        assert(all.take(n as int).drop_last() == all.take(n - 1));
        let k: usize = seg.len();
        if k > 0 && !(k == 1 && seg[0] == '.') {
            assert(seg@ != seq!['.']) by {
                if seg@ == seq!['.'] {
                    assert(seg@.len() == 1 && seg@[0] == '.');
                }
            }
            if k == 2 && seg[0] == '.' && seg[1] == '.' {
                assert(seg@ == seq!['.', '.']);
                return None;
            }
            assert(seg@ != seq!['.', '.']) by {
                if seg@ == seq!['.', '.'] {
                    assert(seg@.len() == 2 && seg@[0] == '.' && seg@[1] == '.');
                }
            }
            let out: Vec<char> = slice_of(seg, 0, k);
            assert(out@ == seg@);
            return Some(out);
        }
        assert(!is_named(seg@)) by {
            if k == 1 {
                assert(seg@ == seq!['.']);
            }
        }
        n -= 1;
    }
    None
}

/// A path without what its end may do without: slashes and `.` components.
pub open spec fn tidy_end(s: Seq<char>) -> Seq<char>
    decreases s.len(),
{
    if s.len() <= 1 {
        s
    } else if s.last() == '/' || (s.last() == '.' && s[s.len() - 2] == '/') {
        tidy_end(s.drop_last())
    } else {
        s
    }
}

/// Where the last component starts.
pub open spec fn last_start(s: Seq<char>) -> int
    decreases s.len(),
{
    if s.len() == 0 {
        0
    } else if s.last() == '/' {
        s.len() as int
    } else {
        last_start(s.drop_last())
    }
}

/// The path without its final component; a root and an empty path have none.
pub open spec fn parent(s: Seq<char>) -> Option<Seq<char>> {
    let t = tidy_end(s);
    if t.len() == 0 || t == seq!['/'] {
        None
    } else {
        Some(tidy_end(t.take(last_start(t))))
    }
}

fn tidy(s: &Vec<char>, len: usize) -> (r: usize)
    requires
        len <= s@.len(),
    ensures
        r <= len,
        s@.take(r as int) == tidy_end(s@.take(len as int)),
{
    let mut n: usize = len;
    while n > 1 && (s[n - 1] == '/' || (s[n - 1] == '.' && s[n - 2] == '/'))
        invariant
            n <= len <= s@.len(),
            tidy_end(s@.take(n as int)) == tidy_end(s@.take(len as int)),
        decreases n,
    {
        assert(s@.take(n as int).drop_last() == s@.take(n - 1));
        n -= 1;
    }
    n
}

/// The path without its final component.
pub fn parent_of(path: &str) -> (r: Option<String>)
    ensures
        opt_view(r) == parent(path@),
{
    let s: Vec<char> = chars_of(path);
    assert(s@.take(s@.len() as int) == s@);
    let n: usize = tidy(&s, s.len());
    let ghost t = tidy_end(s@);
    assert(t == s@.take(n as int));
    if n == 0 {
        return None;
    }
    if n == 1 && s[0] == '/' {
        assert(t =~= seq!['/']);
        return None;
    }
    assert(t != seq!['/']) by {
        if t == seq!['/'] {
            assert(t.len() == 1 && t[0] == '/');
        }
    }
    let mut k: usize = n;
    assert(t.take(n as int) == t);
    while k > 0 && s[k - 1] != '/'
        invariant
            k <= n <= s@.len(),
            t == s@.take(n as int),
            last_start(t) == last_start(t.take(k as int)),
        decreases k,
    {
        assert(t.take(k as int).drop_last() == t.take(k - 1));
        k -= 1;
    }
    assert(last_start(t.take(k as int)) == k);
    let m: usize = tidy(&s, k);
    assert(t.take(k as int) == s@.take(k as int));
    assert(s@.subrange(0, m as int) == s@.take(m as int));
    Some(string_of(&s, 0, m))
}

/// Position of the last `.` in `s` before position `n`.
pub open spec fn last_dot(s: Seq<char>) -> Option<int>
    decreases s.len(),
{
    if s.len() == 0 {
        None
    } else if s.last() == '.' {
        Some(s.len() - 1)
    } else {
        last_dot(s.drop_last())
    }
}

/// What follows the last dot of the final component, where something
/// precedes that dot.
pub open spec fn extension(s: Seq<char>) -> Option<Seq<char>> {
    match file_name(s) {
        Some(name) => match last_dot(name) {
            Some(i) => if i > 0 {
                Some(name.skip(i + 1))
            } else {
                None
            },
            None => None,
        },
        None => None,
    }
}

/// The extension of the final component of `path`.
pub fn extension_of(path: &str) -> (r: Option<String>)
    ensures
        opt_view(r) == extension(path@),
{
    match file_name_of(path) {
        Some(name) => {
            let mut n: usize = name.len();
            assert(name@.take(n as int) == name@);
            while n > 0
                invariant
                    n <= name@.len(),
                    file_name(path@) == Some(name@),
                    last_dot(name@) == last_dot(name@.take(n as int)),
                decreases n,
            {
                assert(name@.take(n as int).drop_last() == name@.take(n - 1));
                if name[n - 1] == '.' {
                    if n == 1 {
                        return None;
                    }
                    let ext: Vec<char> = slice_of(&name, n, name.len());
                    assert(ext@ == name@.skip(n as int));
                    return Some(string_of_all(&ext));
                }
                n -= 1;
            }
            None
        },
        None => None,
    }
}

/// The final component without its extension.
pub open spec fn stem(s: Seq<char>) -> Option<Seq<char>> {
    match file_name(s) {
        Some(name) => match last_dot(name) {
            Some(i) => if i > 0 {
                Some(name.take(i))
            } else {
                Some(name)
            },
            None => Some(name),
        },
        None => None,
    }
}

/// The final component of `path` without its extension.
pub fn stem_of(path: &str) -> (r: Option<String>)
    ensures
        opt_view(r) == stem(path@),
{
    match file_name_of(path) {
        Some(name) => {
            let mut n: usize = name.len();
            assert(name@.take(n as int) == name@);
            while n > 0
                invariant
                    n <= name@.len(),
                    file_name(path@) == Some(name@),
                    last_dot(name@) == last_dot(name@.take(n as int)),
                decreases n,
            {
                assert(name@.take(n as int).drop_last() == name@.take(n - 1));
                if name[n - 1] == '.' {
                    if n == 1 {
                        return Some(string_of_all(&name));
                    }
                    assert(name@.subrange(0, n - 1) == name@.take(n - 1));
                    return Some(string_of(&name, 0, n - 1));
                }
                n -= 1;
            }
            Some(string_of_all(&name))
        },
        None => None,
    }
}

/// The project-relative directory that holds the tool's own files.
pub open spec fn batty_dir(project_root: Seq<char>) -> Seq<char> {
    join_path(project_root, ".batty"@)
}

/// `<root>/.batty/team_config`.
pub open spec fn team_config_dir_path(project_root: Seq<char>) -> Seq<char> {
    join_path(batty_dir(project_root), "team_config"@)
}

/// `<root>/.batty/team_config`.
pub fn team_config_dir(project_root: &str) -> (r: String)
    ensures
        r@ == team_config_dir_path(project_root@),
{
    joined(joined(project_root, ".batty").as_str(), "team_config")
}

/// `<root>/.batty/worktrees/<engineer>`.
pub open spec fn worktree_path(project_root: Seq<char>, engineer: Seq<char>) -> Seq<char> {
    join_path(join_path(batty_dir(project_root), "worktrees"@), engineer)
}

/// `<root>/.batty/worktrees/<engineer>`.
pub fn worktree_dir(project_root: &str, engineer: &str) -> (r: String)
    ensures
        r@ == worktree_path(project_root@, engineer@),
{
    joined(joined(joined(project_root, ".batty").as_str(), "worktrees").as_str(), engineer)
}

} // verus!
