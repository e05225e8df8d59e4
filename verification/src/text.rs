//! Text as sequences of characters.
//!
//! Every function here works on the characters of a string, so the contracts
//! speak of `Seq<char>` and never of byte offsets.

use vstd::prelude::*;
use vstd::string::*;

verus! {

/// `String::push` appends one character at the end.
pub assume_specification[ String::push ](s: &mut String, c: char)
    ensures
        final(s)@ == old(s)@.push(c),
;

/// The texts held by a sequence of strings.
pub open spec fn views(v: Seq<String>) -> Seq<Seq<char>> {
    Seq::new(v.len(), |i: int| v[i]@)
}

/// The characters with Unicode's `White_Space` property.
pub open spec fn is_white_space(c: char) -> bool {
    let n = c as u32;
    ||| 9 <= n <= 13
    ||| n == 32
    ||| n == 0x85
    ||| n == 0xA0
    ||| n == 0x1680
    ||| 0x2000 <= n <= 0x200A
    ||| n == 0x2028
    ||| n == 0x2029
    ||| n == 0x202F
    ||| n == 0x205F
    ||| n == 0x3000
}

/// Tells whether `c` has the `White_Space` property.
pub fn white_space(c: char) -> (r: bool)
    ensures
        r == is_white_space(c),
{
    let n: u32 = c as u32;
    (9 <= n && n <= 13) || n == 32 || n == 0x85 || n == 0xA0 || n == 0x1680 || (0x2000 <= n && n
        <= 0x200A) || n == 0x2028 || n == 0x2029 || n == 0x202F || n == 0x205F || n == 0x3000
}

/// `'0'..='9'`.
pub open spec fn is_digit(c: char) -> bool {
    '0' <= c <= '9'
}

/// Tells whether `c` is an ASCII decimal digit.
pub fn digit(c: char) -> (r: bool)
    ensures
        r == is_digit(c),
{
    '0' <= c && c <= '9'
}

/// ASCII letters and digits.
pub open spec fn is_ascii_alnum(c: char) -> bool {
    is_digit(c) || 'a' <= c <= 'z' || 'A' <= c <= 'Z'
}

/// Tells whether `c` is an ASCII letter or digit.
pub fn ascii_alnum(c: char) -> (r: bool)
    ensures
        r == is_ascii_alnum(c),
{
    digit(c) || ('a' <= c && c <= 'z') || ('A' <= c && c <= 'Z')
}

/// The lower-case form of an ASCII letter; every other character unchanged.
pub open spec fn lower_char(c: char) -> char {
    if 'A' <= c <= 'Z' {
        (c as u32 + 32) as char
    } else {
        c
    }
}

/// Lower-cases one ASCII letter.
pub fn ascii_lower_char(c: char) -> (r: char)
    ensures
        r == lower_char(c),
{
    if 'A' <= c && c <= 'Z' {
        let b: u8 = c as u8;
        assert(b as u32 == c as u32);
        (b + 32) as char
    } else {
        c
    }
}

/// Every ASCII letter of `s` in lower case.
pub open spec fn lower(s: Seq<char>) -> Seq<char> {
    Seq::new(s.len(), |i: int| lower_char(s[i]))
}

/// The characters of `s`, one by one.
pub fn chars_of(s: &str) -> (r: Vec<char>)
    ensures
        r@ == s@,
{
    let mut out: Vec<char> = Vec::new();
    for c in it: s.chars()
        invariant
            out@ == it.seq().take(it.index() as int),
            it.seq() == s@,
    {
        out.push(c);
        assert(it.seq().take(it.index() + 1) == it.seq().take(it.index() as int).push(c));
    }
    out
}

/// The string with the characters of `v` from `from` up to `to`.
pub fn string_of(v: &Vec<char>, from: usize, to: usize) -> (r: String)
    requires
        from <= to <= v@.len(),
    ensures
        r@ == v@.subrange(from as int, to as int),
{
    let mut out: String = String::new();
    let mut i: usize = from;
    while i < to
        invariant
            from <= i <= to <= v@.len(),
            out@ == v@.subrange(from as int, i as int),
        decreases to - i,
    {
        out.push(v[i]);
        i += 1;
        assert(v@.subrange(from as int, i as int) == v@.subrange(from as int, i - 1).push(
            v@[i - 1],
        ));
    }
    out
}

/// The string whose characters are exactly `v`.
pub fn string_of_all(v: &Vec<char>) -> (r: String)
    ensures
        r@ == v@,
{
    let n: usize = v.len();
    assert(v@.subrange(0, n as int) == v@);
    string_of(v, 0, n)
}

/// A copy of `s`.
pub fn copy(s: &str) -> (r: String)
    ensures
        r@ == s@,
{
    String::from_str(s)
}

/// Compares two texts character by character.
pub fn same(a: &str, b: &str) -> (r: bool)
    ensures
        r == (a@ == b@),
{
    copy(a) == copy(b)
}

/// Lower-cases the ASCII letters of `s`.
pub fn ascii_lower(s: &Vec<char>) -> (r: Vec<char>)
    ensures
        r@ == lower(s@),
{
    let mut out: Vec<char> = Vec::new();
    let mut i: usize = 0;
    while i < s.len()
        invariant
            i <= s@.len(),
            out@ == lower(s@.take(i as int)),
        decreases s@.len() - i,
    {
        out.push(ascii_lower_char(s[i]));
        i += 1;
        assert(lower(s@.take(i as int)) == lower(s@.take(i - 1)).push(lower_char(s@[i - 1])));
    }
    assert(s@.take(i as int) == s@);
    out
}

// ---------------------------------------------------------------------------
// Searching

/// `needle` stands in `s` at position `i`.
pub open spec fn matches_at(s: Seq<char>, needle: Seq<char>, i: int) -> bool {
    0 <= i && i + needle.len() <= s.len() && s.subrange(i, i + needle.len()) == needle
}

/// `needle` stands somewhere in `s`.
pub open spec fn contains(s: Seq<char>, needle: Seq<char>) -> bool {
    exists|i: int| matches_at(s, needle, i)
}

/// `s` starts with `prefix`.
pub open spec fn starts_with(s: Seq<char>, prefix: Seq<char>) -> bool {
    matches_at(s, prefix, 0)
}

/// `s` ends with `suffix`.
pub open spec fn ends_with(s: Seq<char>, suffix: Seq<char>) -> bool {
    matches_at(s, suffix, s.len() - suffix.len())
}

/// Tells whether `needle` stands in `s` at `i`.
pub fn match_at(s: &Vec<char>, needle: &Vec<char>, i: usize) -> (r: bool)
    ensures
        r == matches_at(s@, needle@, i as int),
{
    if i > s.len() || needle.len() > s.len() - i {
        return false;
    }
    let mut k: usize = 0;
    while k < needle.len()
        invariant
            k <= needle@.len(),
            i + needle.len() <= s.len(),
            forall|j: int| 0 <= j < k ==> s@[i + j] == needle@[j],
        decreases needle@.len() - k,
    {
        if s[i + k] != needle[k] {
            assert(s@.subrange(i as int, i + needle@.len())[k as int] == s@[i + k]);
            return false;
        }
        k += 1;
    }
    assert(s@.subrange(i as int, i + needle@.len()) == needle@);
    true
}

/// The first position at or after `from` where `needle` stands in `s`.
pub open spec fn is_first_match(s: Seq<char>, needle: Seq<char>, from: int, i: int) -> bool {
    &&& from <= i
    &&& matches_at(s, needle, i)
    &&& forall|j: int| from <= j < i ==> !matches_at(s, needle, j)
}

/// Finds the first occurrence of `needle` at or after `from`.
pub fn find_from(s: &Vec<char>, needle: &Vec<char>, from: usize) -> (r: Option<usize>)
    ensures
        r matches Some(i) ==> is_first_match(s@, needle@, from as int, i as int),
        r is None ==> forall|j: int| from <= j ==> !matches_at(s@, needle@, j),
{
    if needle.len() > s.len() {
        return None;
    }
    let last: usize = s.len() - needle.len();
    let mut i: usize = from;
    while i <= last
        invariant
            from <= i,
            last == s@.len() - needle@.len(),
            forall|j: int| from <= j < i ==> !matches_at(s@, needle@, j),
        decreases last + 1 - i,
    {
        if match_at(s, needle, i) {
            return Some(i);
        }
        if i == last {
            return None;
        }
        i += 1;
    }
    None
}

/// Tells whether `needle` stands somewhere in `s`.
pub fn has(s: &Vec<char>, needle: &str) -> (r: bool)
    ensures
        r == contains(s@, needle@),
{
    let n: Vec<char> = chars_of(needle);
    match find_from(s, &n, 0) {
        Some(i) => {
            assert(matches_at(s@, needle@, i as int));
            true
        },
        None => {
            assert forall|i: int| !matches_at(s@, needle@, i) by {
                if i < 0 {
                }
            }
            false
        },
    }
}

/// Tells whether `s` starts with `prefix`.
pub fn begins(s: &Vec<char>, prefix: &str) -> (r: bool)
    ensures
        r == starts_with(s@, prefix@),
{
    let p: Vec<char> = chars_of(prefix);
    match_at(s, &p, 0)
}

/// Tells whether `s` ends with `suffix`.
pub fn ends(s: &Vec<char>, suffix: &str) -> (r: bool)
    ensures
        r == ends_with(s@, suffix@),
{
    let p: Vec<char> = chars_of(suffix);
    if p.len() > s.len() {
        return false;
    }
    match_at(s, &p, s.len() - p.len())
}

// ---------------------------------------------------------------------------
// Trimming

/// `s` without its trailing white space.
pub open spec fn trim_end(s: Seq<char>) -> Seq<char>
    decreases s.len(),
{
    if s.len() > 0 && is_white_space(s.last()) {
        trim_end(s.drop_last())
    } else {
        s
    }
}

/// `s` without its leading white space.
pub open spec fn trim_start(s: Seq<char>) -> Seq<char>
    decreases s.len(),
{
    if s.len() > 0 && is_white_space(s[0]) {
        trim_start(s.skip(1))
    } else {
        s
    }
}

/// `s` without leading and trailing white space.
pub open spec fn trim(s: Seq<char>) -> Seq<char> {
    trim_end(trim_start(s))
}

/// Removes leading white space.
pub fn trimmed_start(s: &Vec<char>) -> (r: Vec<char>)
    ensures
        r@ == trim_start(s@),
{
    let mut i: usize = 0;
    assert(s@.skip(0) == s@);
    while i < s.len() && white_space(s[i])
        invariant
            i <= s@.len(),
            trim_start(s@) == trim_start(s@.skip(i as int)),
        decreases s@.len() - i,
    {
        assert(s@.skip(i as int).skip(1) == s@.skip(i + 1));
        i += 1;
    }
    slice_of(s, i, s.len())
}

/// Removes leading and trailing white space.
pub fn trimmed(s: &Vec<char>) -> (r: Vec<char>)
    ensures
        r@ == trim(s@),
{
    let t: Vec<char> = trimmed_start(s);
    let mut n: usize = t.len();
    assert(t@.take(n as int) == t@);
    while n > 0 && white_space(t[n - 1])
        invariant
            n <= t@.len(),
            trim_end(t@) == trim_end(t@.take(n as int)),
        decreases n,
    {
        assert(t@.take(n as int).drop_last() == t@.take(n - 1));
        n -= 1;
    }
    assert(t@.take(n as int) == t@.subrange(0, n as int));
    slice_of(&t, 0, n)
}

/// Removes leading and trailing white space of a string.
pub fn trimmed_str(s: &str) -> (r: String)
    ensures
        r@ == trim(s@),
{
    string_of_all(&trimmed(&chars_of(s)))
}

/// The characters of `s` from `from` up to `to`.
pub fn slice_of(s: &Vec<char>, from: usize, to: usize) -> (r: Vec<char>)
    requires
        from <= to <= s@.len(),
    ensures
        r@ == s@.subrange(from as int, to as int),
{
    let mut out: Vec<char> = Vec::new();
    let mut i: usize = from;
    while i < to
        invariant
            from <= i <= to <= s@.len(),
            out@ == s@.subrange(from as int, i as int),
        decreases to - i,
    {
        out.push(s[i]);
        i += 1;
        assert(s@.subrange(from as int, i as int) == s@.subrange(from as int, i - 1).push(
            s@[i - 1],
        ));
    }
    out
}

// ---------------------------------------------------------------------------
// Splitting

/// The words completed so far and the word in progress after reading `s`.
pub open spec fn word_state(s: Seq<char>) -> (Seq<Seq<char>>, Seq<char>)
    decreases s.len(),
{
    if s.len() == 0 {
        (Seq::empty(), Seq::empty())
    } else {
        let (done, cur) = word_state(s.drop_last());
        if is_white_space(s.last()) {
            if cur.len() == 0 {
                (done, cur)
            } else {
                (done.push(cur), Seq::empty())
            }
        } else {
            (done, cur.push(s.last()))
        }
    }
}

/// The maximal runs of characters that are not white space, in order.
pub open spec fn words(s: Seq<char>) -> Seq<Seq<char>> {
    let (done, cur) = word_state(s);
    if cur.len() == 0 {
        done
    } else {
        done.push(cur)
    }
}

/// Splits `s` at white space, dropping empty pieces.
pub fn split_words(s: &Vec<char>) -> (r: Vec<String>)
    ensures
        views(r@) == words(s@),
{
    let mut done: Vec<String> = Vec::new();
    let mut cur: String = String::new();
    let mut n: usize = 0;
    let mut i: usize = 0;
    assert(views(done@) == Seq::<Seq<char>>::empty());
    while i < s.len()
        invariant
            i <= s@.len(),
            n == cur@.len(),
            n <= i,
            word_state(s@.take(i as int)) == (views(done@), cur@),
        decreases s@.len() - i,
    {
        assert(s@.take(i + 1).drop_last() == s@.take(i as int));
        if white_space(s[i]) {
            if n > 0 {
                let ghost before = done@;
                done.push(cur);
                assert(views(done@) == views(before).push(done@.last()@));
                cur = String::new();
                n = 0;
            }
        } else {
            cur.push(s[i]);
            n += 1;
        }
        i += 1;
    }
    assert(s@.take(i as int) == s@);
    if n > 0 {
        let ghost before = done@;
        done.push(cur);
        assert(views(done@) == views(before).push(done@.last()@));
    }
    done
}

/// Letters and digits in lower case; anything else is a gap.
pub open spec fn gapped(s: Seq<char>) -> Seq<char> {
    s.map_values(
        |c: char|
            if is_ascii_alnum(c) {
                lower_char(c)
            } else {
                ' '
            },
    )
}

/// The runs of ASCII letters and digits of a text, in lower case.
pub fn split_alnum(input: &str) -> (r: Vec<String>)
    ensures
        views(r@) == words(gapped(input@)),
{
    let chars: Vec<char> = chars_of(input);
    let mut gaps: Vec<char> = Vec::new();
    let mut i: usize = 0;
    while i < chars.len()
        invariant
            i <= chars@.len(),
            gaps@ == gapped(chars@).take(i as int),
        decreases chars@.len() - i,
    {
        if ascii_alnum(chars[i]) {
            gaps.push(ascii_lower_char(chars[i]));
        } else {
            gaps.push(' ');
        }
        i += 1;
        assert(gapped(chars@).take(i as int) == gapped(chars@).take(i - 1).push(
            gapped(chars@)[i - 1],
        ));
    }
    assert(gapped(chars@).take(i as int) == gapped(chars@));
    split_words(&gaps)
}

/// `s` without one trailing carriage return.
pub open spec fn strip_cr(s: Seq<char>) -> Seq<char> {
    if s.len() > 0 && s.last() == '\r' {
        s.drop_last()
    } else {
        s
    }
}

/// The lines ended so far and the unterminated rest after reading `s`.
pub open spec fn line_state(s: Seq<char>) -> (Seq<Seq<char>>, Seq<char>)
    decreases s.len(),
{
    if s.len() == 0 {
        (Seq::empty(), Seq::empty())
    } else {
        let (done, cur) = line_state(s.drop_last());
        if s.last() == '\n' {
            (done.push(strip_cr(cur)), Seq::empty())
        } else {
            (done, cur.push(s.last()))
        }
    }
}

/// The lines of `s`: a line ends with `\n` or `\r\n`, and the last line may
/// lack its ending.
pub open spec fn lines(s: Seq<char>) -> Seq<Seq<char>> {
    let (done, cur) = line_state(s);
    if cur.len() == 0 {
        done
    } else {
        done.push(cur)
    }
}

/// Splits `s` into its lines.
pub fn split_lines(s: &Vec<char>) -> (r: Vec<Vec<char>>)
    ensures
        r@.len() == lines(s@).len(),
        forall|i: int| 0 <= i < r@.len() ==> (#[trigger] r@[i])@ == lines(s@)[i],
{
    let mut done: Vec<Vec<char>> = Vec::new();
    let mut cur: Vec<char> = Vec::new();
    let mut i: usize = 0;
    while i < s.len()
        invariant
            i <= s@.len(),
            line_state(s@.take(i as int)).1 == cur@,
            line_state(s@.take(i as int)).0.len() == done@.len(),
            forall|k: int|
                0 <= k < done@.len() ==> (#[trigger] done@[k])@ == line_state(
                    s@.take(i as int),
                ).0[k],
        decreases s@.len() - i,
    {
        assert(s@.take(i + 1).drop_last() == s@.take(i as int));
        if s[i] == '\n' {
            let n: usize = cur.len();
            if n > 0 && cur[n - 1] == '\r' {
                let line: Vec<char> = slice_of(&cur, 0, n - 1);
                assert(line@ == strip_cr(cur@));
                done.push(line);
            } else {
                done.push(cur);
            }
            cur = Vec::new();
        } else {
            cur.push(s[i]);
        }
        i += 1;
    }
    assert(s@.take(i as int) == s@);
    if cur.len() > 0 {
        done.push(cur);
    }
    done
}

// ---------------------------------------------------------------------------
// Joining

/// The texts of `parts` with `sep` between each two neighbours.
pub open spec fn join(parts: Seq<Seq<char>>, sep: Seq<char>) -> Seq<char>
    decreases parts.len(),
{
    if parts.len() == 0 {
        Seq::empty()
    } else if parts.len() == 1 {
        parts[0]
    } else {
        join(parts.drop_last(), sep) + sep + parts.last()
    }
}

/// Joins `parts` with `sep` between each two neighbours.
pub fn join_strings(parts: &Vec<String>, sep: &str) -> (r: String)
    ensures
        r@ == join(views(parts@), sep@),
{
    let mut out: String = String::new();
    let mut i: usize = 0;
    while i < parts.len()
        invariant
            i <= parts@.len(),
            out@ == join(views(parts@.take(i as int)), sep@),
        decreases parts@.len() - i,
    {
        let ghost before = views(parts@.take(i as int));
        let ghost after = views(parts@.take(i + 1));
        assert(after.drop_last() == before);
        assert(after.last() == parts@[i as int]@);
        if i > 0 {
            out.append(sep);
        }
        out.append(parts[i].as_str());
        assert(i == 0 ==> Seq::<char>::empty() + parts@[0]@ == parts@[0]@);
        i += 1;
    }
    assert(parts@.take(i as int) == parts@);
    out
}

// ---------------------------------------------------------------------------
// Numbers

/// The decimal digit for `d`, where `d` is below ten.
pub open spec fn digit_char(d: int) -> char {
    (d + 48) as char
}

/// The decimal representation of `n`, without leading zeros.
pub open spec fn decimal(n: nat) -> Seq<char>
    decreases n,
{
    if n < 10 {
        seq![digit_char(n as int)]
    } else {
        decimal(n / 10).push(digit_char((n % 10) as int))
    }
}

/// Writes `n` in decimal.
pub fn decimal_string(n: u64) -> (r: String)
    ensures
        r@ == decimal(n as nat),
    decreases n,
{
    let d: u8 = (n % 10) as u8;
    let c: char = (d + 48) as char;
    if n < 10 {
        let mut out: String = String::new();
        out.push(c);
        assert(out@ == decimal(n as nat));
        out
    } else {
        let mut out: String = decimal_string(n / 10);
        out.push(c);
        out
    }
}

/// Writes a `usize` in decimal.
pub fn decimal_usize(n: usize) -> (r: String)
    ensures
        r@ == decimal(n as nat),
{
    decimal_string(n as u64)
}

/// The decimal representation of `n`, with a sign where it is negative.
pub open spec fn signed(n: int) -> Seq<char> {
    if n < 0 {
        "-"@ + decimal((-n) as nat)
    } else {
        decimal(n as nat)
    }
}

/// Writes a signed number in decimal.
pub fn signed_string(n: i64) -> (r: String)
    ensures
        r@ == signed(n as int),
{
    if n >= 0 {
        decimal_string(n as u64)
    } else if n == i64::MIN {
        copy("-").concat(decimal_string(9223372036854775808u64).as_str())
    } else {
        copy("-").concat(decimal_string((-n) as u64).as_str())
    }
}

// ---------------------------------------------------------------------------
// Replacing

/// `s` with every `c` replaced by `by`.
pub open spec fn replace_char(s: Seq<char>, c: char, by: Seq<char>) -> Seq<char>
    decreases s.len(),
{
    if s.len() == 0 {
        Seq::empty()
    } else if s.last() == c {
        replace_char(s.drop_last(), c, by) + by
    } else {
        replace_char(s.drop_last(), c, by).push(s.last())
    }
}

/// Replaces every `c` in `s` by `by`.
pub fn replaced_char(s: &str, c: char, by: &str) -> (r: String)
    ensures
        r@ == replace_char(s@, c, by@),
{
    let v: Vec<char> = chars_of(s);
    let mut out: String = String::new();
    let mut i: usize = 0;
    while i < v.len()
        invariant
            i <= v@.len(),
            v@ == s@,
            out@ == replace_char(v@.take(i as int), c, by@),
        decreases v@.len() - i,
    {
        assert(v@.take(i + 1).drop_last() == v@.take(i as int));
        if v[i] == c {
            out.append(by);
        } else {
            out.push(v[i]);
        }
        i += 1;
    }
    assert(v@.take(i as int) == v@);
    out
}

// ---------------------------------------------------------------------------
// Padding and cutting

/// `n` copies of `c`.
pub open spec fn repeat(c: char, n: nat) -> Seq<char> {
    Seq::new(n, |i: int| c)
}

/// `s` followed by as many spaces as it takes to reach `width` characters.
pub open spec fn pad_right(s: Seq<char>, width: nat) -> Seq<char> {
    if s.len() < width {
        s + repeat(' ', (width - s.len()) as nat)
    } else {
        s
    }
}

/// As many spaces as it takes for `s` to reach `width` characters, then `s`.
pub open spec fn pad_left(s: Seq<char>, width: nat) -> Seq<char> {
    if s.len() < width {
        repeat(' ', (width - s.len()) as nat) + s
    } else {
        s
    }
}

/// A string of `n` copies of `c`.
pub fn repeated(c: char, n: usize) -> (r: String)
    ensures
        r@ == repeat(c, n as nat),
{
    let mut out: String = String::new();
    let mut i: usize = 0;
    while i < n
        invariant
            i <= n,
            out@ == repeat(c, i as nat),
        decreases n - i,
    {
        out.push(c);
        i += 1;
        assert(repeat(c, i as nat) == repeat(c, (i - 1) as nat).push(c));
    }
    out
}

/// Pads `s` with spaces on the right to `width` characters.
pub fn padded_right(s: &str, width: usize) -> (r: String)
    ensures
        r@ == pad_right(s@, width as nat),
{
    let n: usize = chars_of(s).len();
    let mut out: String = copy(s);
    if n < width {
        out.append(repeated(' ', width - n).as_str());
    }
    out
}

/// Pads `s` with spaces on the left to `width` characters.
pub fn padded_left(s: &str, width: usize) -> (r: String)
    ensures
        r@ == pad_left(s@, width as nat),
{
    let n: usize = chars_of(s).len();
    if n < width {
        let mut out: String = repeated(' ', width - n);
        out.append(s);
        out
    } else {
        copy(s)
    }
}

/// The first `n` characters of `s`, or all of it.
pub open spec fn first_chars(s: Seq<char>, n: nat) -> Seq<char> {
    if s.len() <= n {
        s
    } else {
        s.take(n as int)
    }
}

/// A copy of a vector of strings.
pub fn clone_strings(v: &Vec<String>) -> (r: Vec<String>)
    ensures
        r@ == v@,
{
    let mut out: Vec<String> = Vec::new();
    let mut i: usize = 0;
    while i < v.len()
        invariant
            i <= v@.len(),
            out@ == v@.take(i as int),
        decreases v@.len() - i,
    {
        out.push(v[i].clone());
        i += 1;
        assert(v@.take(i as int) == v@.take(i - 1).push(v@[i - 1]));
    }
    assert(v@.take(i as int) == v@);
    out
}

// ---------------------------------------------------------------------------
// Lower case

/// What std's `str::to_lowercase` gives.
pub uninterp spec fn lowercase(s: Seq<char>) -> Seq<char>;

/// Turns a text into lower case with `str::to_lowercase`. The contract says
/// that the result depends on the text alone, and that of ASCII text the
/// letters, and nothing else, are changed.
#[verifier::external_body]
pub(crate) fn to_lower(s: &str) -> (r: String)
    ensures
        r@ == lowercase(s@),
        (forall|i: int| 0 <= i < s@.len() ==> (#[trigger] s@[i] as u32) < 128) ==> r@ == lower(s@),
{
    s.to_lowercase()
}

// ---------------------------------------------------------------------------
// Order

/// `a` comes before `b` in the order of a dictionary, from position `i` on.
pub open spec fn lex_lt_from(a: Seq<char>, b: Seq<char>, i: int) -> bool
    decreases a.len() - i,
{
    if i < 0 || i >= b.len() {
        false
    } else if i >= a.len() {
        true
    } else if a[i] == b[i] {
        lex_lt_from(a, b, i + 1)
    } else {
        a[i] < b[i]
    }
}

/// `a` comes before `b` in the order of a dictionary, by code points.
pub open spec fn lex_lt(a: Seq<char>, b: Seq<char>) -> bool {
    lex_lt_from(a, b, 0)
}

/// Tells whether `a` comes before `b`.
pub fn comes_before(a: &str, b: &str) -> (r: bool)
    ensures
        r == lex_lt(a@, b@),
{
    let x: Vec<char> = chars_of(a);
    let y: Vec<char> = chars_of(b);
    let mut i: usize = 0;
    while i < x.len() && i < y.len() && x[i] == y[i]
        invariant
            i <= x@.len(),
            i <= y@.len(),
            x@ == a@,
            y@ == b@,
            lex_lt(a@, b@) == lex_lt_from(a@, b@, i as int),
        decreases x@.len() - i,
    {
        i += 1;
    }
    if i >= y.len() {
        false
    } else if i >= x.len() {
        true
    } else {
        x[i] < y[i]
    }
}

proof fn lemma_lex_from(a: Seq<char>, b: Seq<char>, c: Seq<char>, i: int)
    requires
        0 <= i,
        i <= a.len(),
        i <= b.len(),
        i <= c.len(),
    ensures
        lex_lt_from(a, b, i) && lex_lt_from(b, c, i) ==> lex_lt_from(a, c, i),
        !(lex_lt_from(a, b, i) && lex_lt_from(b, a, i)),
        lex_lt_from(a, b, i) || lex_lt_from(b, a, i) || a.skip(i) == b.skip(i),
    decreases a.len() - i,
{
    if i < a.len() && i < b.len() && a[i] == b[i] {
        if i < c.len() {
            lemma_lex_from(a, b, c, i + 1);
        } else {
            lemma_lex_from(a, b, b, i + 1);
        }
        assert(a.skip(i) == seq![a[i]] + a.skip(i + 1));
        assert(b.skip(i) == seq![b[i]] + b.skip(i + 1));
    } else if i >= a.len() && i >= b.len() {
        assert(a.skip(i) == b.skip(i));
    }
}

/// The order of a dictionary is a strict total order.
pub proof fn law_dictionary_order(a: Seq<char>, b: Seq<char>, c: Seq<char>)
    ensures
        !lex_lt(a, a),
        lex_lt(a, b) && lex_lt(b, c) ==> lex_lt(a, c),
        !(lex_lt(a, b) && lex_lt(b, a)),
        lex_lt(a, b) || lex_lt(b, a) || a == b,
{
    lemma_lex_from(a, a, a, 0);
    lemma_lex_from(a, b, c, 0);
    assert(a.skip(0) == a);
    assert(b.skip(0) == b);
}

/// Each comes before the next.
pub open spec fn is_increasing(s: Seq<Seq<char>>) -> bool {
    forall|i: int, j: int| 0 <= i < j < s.len() ==> lex_lt(#[trigger] s[i], #[trigger] s[j])
}

/// Sorts texts and drops those that occur before.
pub fn sorted_distinct(words: &Vec<String>) -> (r: Vec<String>)
    ensures
        is_increasing(views(r@)),
        forall|x: Seq<char>| #[trigger] views(r@).contains(x) <==> views(words@).contains(x),
{
    let mut out: Vec<String> = Vec::new();
    let mut i: usize = 0;
    while i < words.len()
        invariant
            i <= words@.len(),
            is_increasing(views(out@)),
            forall|x: Seq<char>| #[trigger]
                views(out@).contains(x) <==> views(words@.take(i as int)).contains(x),
        decreases words@.len() - i,
    {
        let ghost before = views(out@);
        insert_sorted(&mut out, words[i].as_str());
        let ghost added = words@[i as int]@;
        proof {
            let w0 = views(words@.take(i as int));
            let w1 = views(words@.take(i + 1));
            assert(w1 == w0.push(added));
            assert forall|x: Seq<char>| #[trigger] views(out@).contains(x) <==> w1.contains(x) by {
                assert(before.contains(x) <==> w0.contains(x));
                if w1.contains(x) {
                    let k = choose|k: int| 0 <= k < w1.len() && w1[k] == x;
                    if k < w0.len() {
                        assert(w0[k] == x);
                    }
                }
                if w0.contains(x) {
                    let k = choose|k: int| 0 <= k < w0.len() && w0[k] == x;
                    assert(w1[k] == x);
                }
                assert(w1[w0.len() as int] == added);
            }
        }
        i += 1;
    }
    assert(words@.take(i as int) == words@);
    out
}

fn insert_sorted(out: &mut Vec<String>, word: &str)
    requires
        is_increasing(views(old(out)@)),
    ensures
        is_increasing(views(final(out)@)),
        forall|x: Seq<char>| #[trigger]
            views(final(out)@).contains(x) <==> views(old(out)@).contains(x) || x == word@,
{
    let ghost before = views(out@);
    let mut at: usize = 0;
    while at < out.len() && comes_before(out[at].as_str(), word)
        invariant
            at <= out@.len(),
            before == views(out@),
            forall|k: int| 0 <= k < at ==> lex_lt(#[trigger] before[k], word@),
        decreases out@.len() - at,
    {
        assert(before[at as int] == out@[at as int]@);
        at += 1;
    }
    if at < out.len() && same(out[at].as_str(), word) {
        assert(before[at as int] == word@);
        return;
    }
    out.insert(at, copy(word));
    proof {
        let after = views(out@);
        assert(after == before.insert(at as int, word@));
        assert forall|k: int| at <= k < before.len() implies lex_lt(word@, #[trigger] before[k]) by {
            law_dictionary_order(before[at as int], word@, word@);
            if k > at {
                assert(lex_lt(before[at as int], before[k]));
                law_dictionary_order(word@, before[at as int], before[k]);
            }
        }
        assert forall|i: int, j: int| 0 <= i < j < after.len() implies lex_lt(
            #[trigger] after[i],
            #[trigger] after[j],
        ) by {
            if i < at && j < at {
                assert(lex_lt(before[i], before[j]));
            } else if i < at && j == at {
                assert(lex_lt(before[i], word@));
            } else if i < at {
                assert(lex_lt(before[i], before[j - 1]));
            } else if i == at {
                assert(lex_lt(word@, before[j - 1]));
            } else {
                assert(lex_lt(before[i - 1], before[j - 1]));
            }
        }
        assert forall|x: Seq<char>| #[trigger] after.contains(x) <==> before.contains(x) || x
            == word@ by {
            if after.contains(x) {
                let k = choose|k: int| 0 <= k < after.len() && after[k] == x;
                if k < at {
                    assert(before[k] == x);
                } else if k > at {
                    assert(before[k - 1] == x);
                }
            }
            if before.contains(x) {
                let k = choose|k: int| 0 <= k < before.len() && before[k] == x;
                if k < at {
                    assert(after[k] == x);
                } else {
                    assert(after[k + 1] == x);
                }
            }
            assert(after[at as int] == word@);
        }
    }
}

/// The texts without those that occur before.
pub open spec fn distinct(s: Seq<Seq<char>>) -> Seq<Seq<char>>
    decreases s.len(),
{
    if s.len() == 0 {
        Seq::empty()
    } else {
        let front = distinct(s.drop_last());
        if front.contains(s.last()) {
            front
        } else {
            front.push(s.last())
        }
    }
}

/// Tells whether `word` is one of `words`.
pub fn is_among(words: &Vec<String>, word: &str) -> (r: bool)
    ensures
        r == views(words@).contains(word@),
{
    let mut i: usize = 0;
    while i < words.len()
        invariant
            i <= words@.len(),
            forall|k: int| 0 <= k < i ==> views(words@)[k] != word@,
        decreases words@.len() - i,
    {
        if same(words[i].as_str(), word) {
            assert(views(words@)[i as int] == word@);
            return true;
        }
        i += 1;
    }
    false
}

} // verus!
