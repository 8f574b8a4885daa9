//! Sections of a script: which lines belong to the style definitions and
//! which to the events.

use vstd::prelude::*;
use crate::error::Error;
use crate::font::AssFile;
use crate::text::{
    chars_of, contains, has_prefix, has_substring, lines_of, rows, split_lines, starts_with,
    strings_of, texts,
};

verus! {

/// A section header: a line that begins with `[` and ends with `]`.
pub open spec fn is_header(line: Seq<char>) -> bool {
    line.len() > 0 && line.first() == '[' && line.last() == ']'
}

/// A header that opens the section marked by `marker`: the marker stands
/// somewhere in it.
pub open spec fn opens_section(line: Seq<char>, marker: Seq<char>) -> bool {
    is_header(line) && contains(line, marker)
}

/// Some line of `lines` opens the section marked by `marker`.
pub open spec fn section_found(lines: Seq<Seq<char>>, marker: Seq<char>) -> bool {
    exists|i: int| 0 <= i < lines.len() && opens_section(#[trigger] lines[i], marker)
}

/// After `lines`, is the section marked by `marker` open? It is where the
/// last header among them opens it; any other header closes it.
pub open spec fn section_open(lines: Seq<Seq<char>>, marker: Seq<char>) -> bool
    decreases lines.len(),
{
    if lines.len() == 0 {
        false
    } else if is_header(lines.last()) {
        contains(lines.last(), marker)
    } else {
        section_open(lines.drop_last(), marker)
    }
}

/// A line of an open section counts unless it is empty, declares the format
/// of the section, or, where comments are skipped, is a comment line.
pub open spec fn is_kept(line: Seq<char>, skip_comments: bool) -> bool {
    &&& line.len() > 0
    &&& !starts_with(line, "Format:"@)
    &&& !(skip_comments && starts_with(line, "Comment:"@))
}

/// The lines of the section marked by `marker` that count, in the order of
/// the script: every line that is no header, stands where the section is
/// open, and is kept.
pub open spec fn section_lines(
    lines: Seq<Seq<char>>,
    marker: Seq<char>,
    skip_comments: bool,
) -> Seq<Seq<char>>
    decreases lines.len(),
{
    if lines.len() == 0 {
        Seq::empty()
    } else {
        let before = lines.drop_last();
        let line = lines.last();
        let earlier = section_lines(before, marker, skip_comments);
        if !is_header(line) && section_open(before, marker) && is_kept(line, skip_comments) {
            earlier.push(line)
        } else {
            earlier
        }
    }
}

/// The script has a style section.
pub open spec fn has_styles(text: Seq<char>) -> bool {
    section_found(lines_of(text), "Styles"@)
}

/// The style definitions of the script.
pub open spec fn style_lines(text: Seq<char>) -> Seq<Seq<char>> {
    section_lines(lines_of(text), "Styles"@, false)
}

/// The event lines of the script, comments left out.
pub open spec fn event_lines(text: Seq<char>) -> Seq<Seq<char>> {
    section_lines(lines_of(text), "Events"@, true)
}

/// One more line opens the section, or the section was found before.
pub proof fn lemma_found_with_one_more(lines: Seq<Seq<char>>, marker: Seq<char>)
    requires
        lines.len() > 0,
    ensures
        section_found(lines, marker) <==> section_found(lines.drop_last(), marker)
            || opens_section(lines.last(), marker),
{
    let before = lines.drop_last();
    if section_found(lines, marker) {
        let j = choose|j: int| 0 <= j < lines.len() && opens_section(#[trigger] lines[j], marker);
        if j < before.len() {
            assert(before[j] == lines[j]);
        }
    }
    if section_found(before, marker) {
        let j = choose|j: int|
            0 <= j < before.len() && opens_section(#[trigger] before[j], marker);
        assert(lines[j] == before[j]);
    }
    if opens_section(lines.last(), marker) {
        assert(lines[lines.len() - 1] == lines.last());
    }
}

/// Where no header opens the section it is never open.
pub proof fn lemma_closed_unless_found(lines: Seq<Seq<char>>, marker: Seq<char>)
    requires
        !section_found(lines, marker),
    ensures
        !section_open(lines, marker),
    decreases lines.len(),
{
    if lines.len() > 0 {
        lemma_found_with_one_more(lines, marker);
        lemma_closed_unless_found(lines.drop_last(), marker);
    }
}

/// A section that no header opens has no lines.
pub proof fn lemma_no_lines_unless_found(
    lines: Seq<Seq<char>>,
    marker: Seq<char>,
    skip_comments: bool,
)
    requires
        !section_found(lines, marker),
    ensures
        section_lines(lines, marker, skip_comments).len() == 0,
    decreases lines.len(),
{
    if lines.len() > 0 {
        lemma_found_with_one_more(lines, marker);
        lemma_closed_unless_found(lines.drop_last(), marker);
        lemma_no_lines_unless_found(lines.drop_last(), marker, skip_comments);
    }
}

/// Is `line` a section header?
pub fn header_line(line: &Vec<char>) -> (b: bool)
    ensures
        b == is_header(line@),
{
    let n = line.len();
    n > 0 && line[0] == '[' && line[n - 1] == ']'
}

/// Does `line` count among the lines of an open section?
pub fn kept_line(line: &Vec<char>, skip_comments: bool) -> (b: bool)
    ensures
        b == is_kept(line@, skip_comments),
{
    if line.len() == 0 {
        return false;
    }
    let format = chars_of("Format:");
    if has_prefix(line, &format) {
        return false;
    }
    if skip_comments {
        let comment = chars_of("Comment:");
        if has_prefix(line, &comment) {
            return false;
        }
    }
    true
}

/// The lines of the section of `text` that `marker` marks, or `None` where
/// no header of `text` opens such a section.
pub fn extract_section(text: &str, marker: &str, skip_comments: bool) -> (found: Option<
    Vec<String>,
>)
    ensures
        found is Some <==> section_found(lines_of(text@), marker@),
        found matches Some(kept) ==> texts(kept@) == section_lines(
            lines_of(text@),
            marker@,
            skip_comments,
        ),
{
    let chars = chars_of(text);
    let mark = chars_of(marker);
    let lines = split_lines(&chars);
    let ghost all = rows(lines@);
    let mut kept: Vec<Vec<char>> = Vec::new();
    let mut seen = false;
    let mut open = false;
    let mut i: usize = 0;
    while i < lines.len()
        invariant
            i <= lines.len(),
            all == rows(lines@),
            all == lines_of(text@),
            mark@ == marker@,
            open == section_open(all.take(i as int), mark@),
            seen == section_found(all.take(i as int), mark@),
            rows(kept@) == section_lines(all.take(i as int), mark@, skip_comments),
        decreases lines.len() - i,
    {
        let line = &lines[i];
        let ghost before = all.take(i as int);
        let ghost upto = all.take(i + 1);
        proof {
            assert(line@ == all[i as int]);
            assert(upto.drop_last() == before);
            assert(upto.last() == line@);
            lemma_found_with_one_more(upto, mark@);
        }
        if header_line(line) {
            open = has_substring(line, &mark);
            seen = seen || open;
        } else if open && kept_line(line, skip_comments) {
            proof {
                assert(rows(kept@.push(*line)) == rows(kept@).push(line@));
            }
            kept.push(line.clone());
        }
        i += 1;
    }
    proof {
        assert(all.take(lines.len() as int) == all);
    }
    if seen {
        Some(strings_of(&kept))
    } else {
        None
    }
}

impl AssFile {
    /// The style definitions of the script `f`. Fails where the script has no
    /// style section.
    pub fn get_styles(f: &str) -> (found: Result<Vec<String>, Error>)
        ensures
            match found {
                Ok(lines) => has_styles(f@) && texts(lines@) == style_lines(f@),
                Err(e) => !has_styles(f@) && e is MissingStylesInfo,
            },
    {
        match extract_section(f, "Styles", false) {
            Some(lines) => Ok(lines),
            None => Err(Error::MissingStylesInfo),
        }
    }

    /// The event lines of the script `f`. Fails where no line of the script
    /// counts as an event.
    pub fn get_event_lines(f: &str) -> (found: Result<Vec<String>, Error>)
        ensures
            match found {
                Ok(lines) => lines.len() > 0 && texts(lines@) == event_lines(f@),
                Err(e) => event_lines(f@).len() == 0 && e is MissingEvents,
            },
    {
        match extract_section(f, "Events", true) {
            Some(lines) => {
                if lines.len() > 0 {
                    Ok(lines)
                } else {
                    Err(Error::MissingEvents)
                }
            },
            None => {
                proof {
                    lemma_no_lines_unless_found(lines_of(f@), "Events"@, true);
                }
                Err(Error::MissingEvents)
            },
        }
    }
}

} // verus!
