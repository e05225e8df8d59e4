//! Files of one record per line.
//!
//! How a record is written on its line is the caller's business: reading
//! takes the parser, writing takes the written lines.

use vstd::prelude::*;
use vstd::string::*;

use crate::text;
use crate::text::{chars_of, copy, split_lines, string_of_all, trimmed};

verus! {

/// The lines that are not blank, without white space at their ends.
pub open spec fn filled(lines: Seq<Seq<char>>) -> Seq<Seq<char>>
    decreases lines.len(),
{
    if lines.len() == 0 {
        Seq::empty()
    } else {
        let rest = filled(lines.drop_last());
        let last = text::trim(lines.last());
        if last.len() == 0 {
            rest
        } else {
            rest.push(last)
        }
    }
}

/// The lines of a file that may hold a record.
pub open spec fn record_lines(contents: Seq<char>) -> Seq<Seq<char>> {
    filled(text::lines(contents))
}

/// The lines of a file that may hold a record.
pub fn split_records(contents: &str) -> (r: Vec<String>)
    ensures
        text::views(r@) == record_lines(contents@),
{
    let all: Vec<Vec<char>> = split_lines(&chars_of(contents));
    let ghost lines = text::lines(contents@);
    let mut out: Vec<String> = Vec::new();
    let mut i: usize = 0;
    assert(text::views(out@) == filled(lines.take(0)));
    while i < all.len()
        invariant
            i <= all@.len(),
            all@.len() == lines.len(),
            forall|k: int| 0 <= k < all@.len() ==> (#[trigger] all@[k])@ == lines[k],
            text::views(out@) == filled(lines.take(i as int)),
        decreases all@.len() - i,
    {
        assert(lines.take(i + 1).drop_last() == lines.take(i as int));
        assert(all@[i as int]@ == lines[i as int]);
        let line: Vec<char> = trimmed(&all[i]);
        if line.len() > 0 {
            let ghost before = out@;
            out.push(string_of_all(&line));
            assert(text::views(out@) == text::views(before).push(line@));
        }
        i += 1;
    }
    assert(lines.take(i as int) == lines);
    out
}

/// The parser, run on this line, may give this result.
pub open spec fn is_parse<T, F: Fn(String) -> Option<T>>(
    parse: F,
    line: Seq<char>,
    result: Option<T>,
) -> bool {
    exists|s: String| s@ == line && #[trigger] call_ensures(parse, (s,), result)
}

/// What was parsed, without the lines that hold no record.
pub open spec fn well_formed<T>(parsed: Seq<Option<T>>) -> Seq<T>
    decreases parsed.len(),
{
    if parsed.len() == 0 {
        Seq::empty()
    } else {
        match parsed.last() {
            Some(c) => well_formed(parsed.drop_last()).push(c),
            None => well_formed(parsed.drop_last()),
        }
    }
}

/// These records are what the file holds: each line that is not blank was
/// parsed, and those that parsed are here, in order.
pub open spec fn is_reading<T, F: Fn(String) -> Option<T>>(
    contents: Seq<char>,
    parse: F,
    records: Seq<T>,
) -> bool {
    exists|parsed: Seq<Option<T>>| #[trigger] is_parse_of(contents, parse, parsed, records)
}

/// These are the results of the parser, line by line.
pub open spec fn is_parse_of<T, F: Fn(String) -> Option<T>>(
    contents: Seq<char>,
    parse: F,
    parsed: Seq<Option<T>>,
    records: Seq<T>,
) -> bool {
    &&& parsed.len() == record_lines(contents).len()
    &&& forall|i: int|
        0 <= i < parsed.len() ==> is_parse(parse, record_lines(contents)[i], #[trigger] parsed[i])
    &&& records == well_formed(parsed)
}

/// The results from which these records were taken.
pub open spec fn parsed_of<T, F: Fn(String) -> Option<T>>(
    contents: Seq<char>,
    parse: F,
    records: Seq<T>,
) -> Seq<Option<T>> {
    choose|parsed: Seq<Option<T>>| #[trigger] is_parse_of(contents, parse, parsed, records)
}

/// Reads the records of a file. Blank lines and lines that hold no record
/// are skipped.
pub fn read_records<T, F: Fn(String) -> Option<T>>(
    contents: &str,
    parse: &F,
) -> (r: Vec<T>)
    requires
        forall|s: String| #[trigger] call_requires(*parse, (s,)),
    ensures
        is_reading(contents@, *parse, r@),
{
    let lines: Vec<String> = split_records(contents);
    let ghost all = record_lines(contents@);
    let ghost mut parsed: Seq<Option<T>> = Seq::empty();
    let mut out: Vec<T> = Vec::new();
    let mut i: usize = 0;
    while i < lines.len()
        invariant
            i <= lines@.len(),
            text::views(lines@) == all,
            all == record_lines(contents@),
            forall|s: String| #[trigger] call_requires(*parse, (s,)),
            parsed.len() == i,
            forall|k: int|
                0 <= k < i ==> is_parse(*parse, record_lines(contents@)[k], #[trigger] parsed[k]),
            out@ == well_formed(parsed),
        decreases lines@.len() - i,
    {
        let line: String = copy(lines[i].as_str());
        let ghost given = line;
        let result: Option<T> = parse(line);
        proof {
            assert(given@ == text::views(lines@)[i as int]);
            assert(is_parse(*parse, all[i as int], result));
            let before = parsed;
            parsed = parsed.push(result);
            assert(parsed.drop_last() == before);
        }
        match result {
            Some(c) => {
                out.push(c);
            },
            None => {},
        }
        i += 1;
    }
    assert(is_parse_of(contents@, *parse, parsed, out@));
    out
}

/// The file with one more line.
pub open spec fn with_line(contents: Seq<char>, line: Seq<char>) -> Seq<char> {
    contents + line + "\n"@
}

/// Adds a record, as it is written on its line, to the end of a file.
pub fn append_record(contents: &str, line: &str) -> (r: String)
    ensures
        r@ == with_line(contents@, line@),
{
    copy(contents).concat(line).concat("\n")
}

/// A file of these lines.
pub open spec fn file_of(lines: Seq<Seq<char>>) -> Seq<char>
    decreases lines.len(),
{
    if lines.len() == 0 {
        Seq::empty()
    } else {
        with_line(file_of(lines.drop_last()), lines.last())
    }
}

/// Writes a file that holds exactly these records, as they are written on
/// their lines.
pub fn write_records(lines: &Vec<String>) -> (r: String)
    ensures
        r@ == file_of(text::views(lines@)),
{
    let ghost all = text::views(lines@);
    let mut out: String = copy("");
    let mut i: usize = 0;
    proof {
        reveal_strlit("");
        assert(out@ == file_of(all.take(0)));
    }
    while i < lines.len()
        invariant
            i <= lines@.len(),
            all == text::views(lines@),
            out@ == file_of(all.take(i as int)),
        decreases lines@.len() - i,
    {
        assert(all.take(i + 1).drop_last() == all.take(i as int));
        out = append_record(out.as_str(), lines[i].as_str());
        i += 1;
    }
    assert(all.take(i as int) == all);
    out
}

// ---------------------------------------------------------------------------
// Laws

/// A text that fits on a line of the file and comes back as it was written.
pub open spec fn fits_a_line(line: Seq<char>) -> bool {
    &&& line.len() > 0
    &&& !line.contains('\n')
    &&& !text::is_white_space(line[0])
    &&& !text::is_white_space(line.last())
}

/// What ends with a line break, or is empty.
pub open spec fn is_whole(contents: Seq<char>) -> bool {
    contents.len() == 0 || contents.last() == '\n'
}

proof fn lemma_line_read(contents: Seq<char>, line: Seq<char>)
    requires
        text::line_state(contents).1.len() == 0,
        !line.contains('\n'),
    ensures
        text::line_state(contents + line) == (text::line_state(contents).0, line),
    decreases line.len(),
{
    if line.len() == 0 {
        assert(contents + line == contents);
        assert(text::line_state(contents).1 == line);
    } else {
        let front = line.drop_last();
        assert forall|i: int| 0 <= i < front.len() implies front[i] != '\n' by {
            assert(line.contains(line[i]));
        }
        lemma_line_read(contents, front);
        assert((contents + line).drop_last() == contents + front);
        assert(line.contains(line.last()));
        assert(front.push(line.last()) == line);
    }
}

proof fn lemma_with_line(contents: Seq<char>, line: Seq<char>)
    requires
        text::line_state(contents).1.len() == 0,
        fits_a_line(line),
    ensures
        text::line_state(with_line(contents, line)) == (
            text::line_state(contents).0.push(line),
            Seq::<char>::empty(),
        ),
        record_lines(with_line(contents, line)) == record_lines(contents).push(line),
{
    reveal_strlit("\n");
    lemma_line_read(contents, line);
    let whole = with_line(contents, line);
    assert(whole.drop_last() == contents + line);
    assert(whole.last() == '\n');
    assert(text::strip_cr(line) == line);
    let lines = text::lines(contents);
    assert(text::lines(whole) == lines.push(line));
    assert(lines.push(line).drop_last() == lines);
    assert(text::trim(line) == line);
}

/// A record that is added to a file is read after those that were there,
/// just as it was written.
pub proof fn law_added_line_is_read_last(contents: Seq<char>, line: Seq<char>)
    requires
        is_whole(contents),
        fits_a_line(line),
    ensures
        record_lines(with_line(contents, line)) == record_lines(contents).push(line),
        is_whole(with_line(contents, line)),
{
    reveal_strlit("\n");
    if contents.len() > 0 {
        assert(text::line_state(contents).1.len() == 0);
    }
    lemma_with_line(contents, line);
    assert(with_line(contents, line).last() == '\n');
}

/// What was written is what is read: a file of some lines holds these lines,
/// in order.
pub proof fn law_written_file_is_read_back(lines: Seq<Seq<char>>)
    requires
        forall|i: int| 0 <= i < lines.len() ==> fits_a_line(#[trigger] lines[i]),
    ensures
        record_lines(file_of(lines)) == lines,
        is_whole(file_of(lines)),
    decreases lines.len(),
{
    if lines.len() == 0 {
        assert(record_lines(file_of(lines)) == lines);
    } else {
        let front = lines.drop_last();
        assert forall|i: int| 0 <= i < front.len() implies fits_a_line(#[trigger] front[i]) by {
            assert(front[i] == lines[i]);
        }
        law_written_file_is_read_back(front);
        assert(fits_a_line(lines[lines.len() - 1]));
        law_added_line_is_read_last(file_of(front), lines.last());
        assert(front.push(lines.last()) == lines);
    }
}

/// An empty file holds no record.
pub proof fn law_empty_file_holds_nothing<T, F: Fn(String) -> Option<T>>(
    parse: F,
    records: Seq<T>,
)
    requires
        is_reading(Seq::empty(), parse, records),
    ensures
        records.len() == 0,
{
    assert(text::lines(Seq::empty()).len() == 0);
    assert(record_lines(Seq::empty()).len() == 0);
    let parsed = parsed_of(Seq::empty(), parse, records);
    assert(parsed.len() == 0);
}

} // verus!
