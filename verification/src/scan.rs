//! The log tail scanner: the document model (lines, the last line containing
//! the marker phrase), the extraction rule for a matching line, and the
//! executable scanner proved against them.

use vstd::prelude::*;

use crate::text::chars_of_str;
use crate::text::contains_seq;
use crate::text::find_first;
use crate::text::find_sub;
use crate::text::is_space;
use crate::text::lemma_strip_quotes_no_quotes;
use crate::text::lemma_trim_no_edge_whitespace;
use crate::text::remove_quotes;
use crate::text::split_on;
use crate::text::split_on_exec;
use crate::text::string_of_chars;
use crate::text::strip_quotes;
use crate::text::subvec;
use crate::text::trim;
use crate::text::trim_chars;

verus! {

/// The marker phrase that identifies a candidate line.
pub open spec fn marker() -> Seq<char> {
    "Generating level"@
}

/// The marker phrase as a vector of characters.
fn marker_chars() -> (r: Vec<char>)
    ensures
        r@ == marker(),
{
    chars_of_str("Generating level")
}

/// A line without its trailing carriage return, if it ends in one.
pub open spec fn strip_cr(l: Seq<char>) -> Seq<char> {
    if l.len() > 0 && l.last() == '\r' {
        l.drop_last()
    } else {
        l
    }
}

/// The lines of a document: the document split on line feeds, each line
/// without a trailing carriage return, so both LF and CRLF endings are
/// accepted.
pub open spec fn doc_lines(doc: Seq<char>) -> Seq<Seq<char>> {
    split_on(doc, '\n').map_values(|l: Seq<char>| strip_cr(l))
}

/// Whether a line contains the marker phrase.
pub open spec fn line_matches(line: Seq<char>) -> bool {
    contains_seq(line, marker())
}

/// Index of the last line that contains the marker phrase, or `None` when no
/// line does.
pub open spec fn last_match(lines: Seq<Seq<char>>) -> Option<int>
    decreases lines.len(),
{
    if lines.len() == 0 {
        None
    } else if line_matches(lines.last()) {
        Some(lines.len() - 1)
    } else {
        last_match(lines.drop_last())
    }
}

/// What a matching line yields: the remainder after the first occurrence of
/// the marker is split on single spaces, and the token at index 3 is taken,
/// trimmed of surrounding whitespace and stripped of double quotes.  `None`
/// when that remainder has fewer than four tokens: the line is malformed.
pub open spec fn extract_from_line(line: Seq<char>) -> Option<Seq<char>>
    recommends
        line_matches(line),
{
    let rem = line.subrange(
        find_first(line, marker()).unwrap() + marker().len(),
        line.len() as int,
    );
    let toks = split_on(rem, ' ');
    if toks.len() >= 4 {
        Some(strip_quotes(trim(toks[3])))
    } else {
        None
    }
}

/// The outcome of scanning a whole document: `Some` of the extracted name on
/// success — the empty sequence when no line contains the marker — and `None`
/// when the last matching line is malformed.
pub open spec fn area_name_spec(doc: Seq<char>) -> Option<Seq<char>> {
    let lines = doc_lines(doc);
    match last_match(lines) {
        None => Some(Seq::<char>::empty()),
        Some(i) => extract_from_line(lines[i]),
    }
}

/// The scanner's error: a line contained the marker phrase, but the remainder
/// after the marker held fewer than four space-delimited tokens.
#[derive(Clone, Copy, Debug, PartialEq, Eq, Structural)]
pub enum ScanError {
    MalformedLogLine,
}

/// `last_match` returns the index of a matching line that no later line
/// matches beyond, and `None` exactly when no line matches.
pub proof fn lemma_last_match_correct(lines: Seq<Seq<char>>)
    ensures
        match last_match(lines) {
            Some(i) => 0 <= i < lines.len() && line_matches(lines[i]) && forall|j: int|
                i < j < lines.len() ==> !line_matches(lines[j]),
            None => forall|j: int| 0 <= j < lines.len() ==> !line_matches(lines[j]),
        },
    decreases lines.len(),
{
    if lines.len() > 0 && !line_matches(lines.last()) {
        let d = lines.drop_last();
        lemma_last_match_correct(d);
        assert forall|j: int| 0 <= j < d.len() implies d[j] == lines[j] by {}
    }
}

/// A matching line with no matching line after it is the one `last_match`
/// returns.
pub proof fn lemma_last_match_witness(lines: Seq<Seq<char>>, i: int)
    requires
        0 <= i < lines.len(),
        line_matches(lines[i]),
        forall|j: int| i < j < lines.len() ==> !line_matches(lines[j]),
    ensures
        last_match(lines) == Some(i),
    decreases lines.len(),
{
    if i < lines.len() - 1 {
        assert(!line_matches(lines.last()));
        lemma_last_match_witness(lines.drop_last(), i);
    }
}

/// When no line matches, `last_match` returns `None`.
pub proof fn lemma_last_match_none(lines: Seq<Seq<char>>)
    requires
        forall|j: int| 0 <= j < lines.len() ==> !line_matches(lines[j]),
    ensures
        last_match(lines) is None,
    decreases lines.len(),
{
    if lines.len() > 0 {
        lemma_last_match_none(lines.drop_last());
    }
}

/// Determinism: the scan outcome is a function of the document alone, so
/// equal documents always scan to equal outcomes.
pub proof fn lemma_scan_deterministic(doc1: Seq<char>, doc2: Seq<char>)
    requires
        doc1 == doc2,
    ensures
        area_name_spec(doc1) == area_name_spec(doc2),
{
}

/// Last match wins: when some line contains the marker, the scan outcome is
/// computed from the last such line — one that no later line matches — and
/// when no line contains it, the outcome is the empty name.
pub proof fn lemma_last_match_wins(doc: Seq<char>)
    ensures
        ({
            let lines = doc_lines(doc);
            match last_match(lines) {
                Some(i) => 0 <= i < lines.len() && line_matches(lines[i]) && (forall|j: int|
                    i < j < lines.len() ==> !line_matches(lines[j])) && area_name_spec(doc)
                    == extract_from_line(lines[i]),
                None => area_name_spec(doc) == Some(Seq::<char>::empty()),
            }
        }),
{
    lemma_last_match_correct(doc_lines(doc));
}

/// The outcome derives only from the last matching line: two documents whose
/// last marker lines are equal scan to the same outcome.
pub proof fn lemma_outcome_from_last_line(doc1: Seq<char>, doc2: Seq<char>)
    requires
        last_match(doc_lines(doc1)) is Some,
        last_match(doc_lines(doc2)) is Some,
        doc_lines(doc1)[last_match(doc_lines(doc1)).unwrap()] == doc_lines(
            doc2,
        )[last_match(doc_lines(doc2)).unwrap()],
    ensures
        area_name_spec(doc1) == area_name_spec(doc2),
{
}

/// No match: a document none of whose lines contains the marker scans to the
/// empty name.
pub proof fn lemma_no_match_empty(doc: Seq<char>)
    requires
        forall|j: int| 0 <= j < doc_lines(doc).len() ==> !line_matches(doc_lines(doc)[j]),
    ensures
        area_name_spec(doc) == Some(Seq::<char>::empty()),
{
    lemma_last_match_none(doc_lines(doc));
}

/// Quote stripping: a successfully extracted name never contains a double
/// quote.
pub proof fn lemma_no_quotes(doc: Seq<char>)
    ensures
        match area_name_spec(doc) {
            Some(s) => forall|k: int| 0 <= k < s.len() ==> s[k] != '"',
            None => true,
        },
{
    let lines = doc_lines(doc);
    if last_match(lines) is Some {
        let i: int = last_match(lines).unwrap();
        let line = lines[i];
        let rem = line.subrange(
            find_first(line, marker()).unwrap() + marker().len(),
            line.len() as int,
        );
        let toks = split_on(rem, ' ');
        if toks.len() >= 4 {
            lemma_strip_quotes_no_quotes(trim(toks[3]));
        }
    }
}

/// Whitespace trimming: the extracted name is computed from the selected
/// token trimmed of its leading and trailing whitespace, and that trimmed
/// token begins and ends with a non-whitespace character whenever it is
/// nonempty.
pub proof fn lemma_whitespace_trimmed(doc: Seq<char>)
    ensures
        ({
            let lines = doc_lines(doc);
            last_match(lines) is Some ==> ({
                let line = lines[last_match(lines).unwrap()];
                let rem = line.subrange(
                    find_first(line, marker()).unwrap() + marker().len(),
                    line.len() as int,
                );
                let toks = split_on(rem, ' ');
                toks.len() >= 4 ==> ({
                    let t = trim(toks[3]);
                    area_name_spec(doc) == Some(strip_quotes(t)) && (t.len() > 0
                        ==> !is_space(t[0]) && !is_space(
                        t[t.len() - 1],
                    ))
                })
            })
        }),
{
    let lines = doc_lines(doc);
    if last_match(lines) is Some {
        let line = lines[last_match(lines).unwrap()];
        let rem = line.subrange(
            find_first(line, marker()).unwrap() + marker().len(),
            line.len() as int,
        );
        let toks = split_on(rem, ' ');
        if toks.len() >= 4 {
            lemma_trim_no_edge_whitespace(toks[3]);
        }
    }
}

/// The lines of the document, split on line feeds, each without a trailing
/// carriage return.
fn split_lines(doc: &Vec<char>) -> (r: Vec<Vec<char>>)
    ensures
        r@.len() == doc_lines(doc@).len(),
        forall|i: int| 0 <= i < r@.len() ==> r@[i]@ == doc_lines(doc@)[i],
{
    let raw = split_on_exec(doc, '\n');
    let mut r: Vec<Vec<char>> = Vec::new();
    let n: usize = raw.len();
    let mut i: usize = 0;
    while i < n
        invariant
            n == raw@.len(),
            raw@.len() == split_on(doc@, '\n').len(),
            forall|k: int| 0 <= k < raw@.len() ==> raw@[k]@ == split_on(doc@, '\n')[k],
            i <= n,
            r@.len() == i,
            forall|k: int| 0 <= k < i ==> r@[k]@ == doc_lines(doc@)[k],
        decreases n - i,
    {
        let line = &raw[i];
        let ll: usize = line.len();
        let stripped = if ll > 0 && line[ll - 1] == '\r' {
            proof {
                assert(line@.subrange(0, ll - 1) =~= line@.drop_last());
            }
            subvec(line, 0, ll - 1)
        } else {
            proof {
                assert(line@.subrange(0, ll as int) =~= line@);
            }
            subvec(line, 0, ll)
        };
        assert(stripped@ == strip_cr(raw@[i as int]@));
        r.push(stripped);
        i += 1;
    }
    r
}

/// Scan a document, given as a vector of characters, for the area name: the
/// token at index 3 of the last marker line's remainder, trimmed and with
/// double quotes removed; the empty vector when no line contains the marker;
/// an error when the last marker line has fewer than four tokens after the
/// marker.
pub fn extract_area_name_chars(doc: &Vec<char>) -> (r: Result<Vec<char>, ScanError>)
    ensures
        match r {
            Ok(s) => area_name_spec(doc@) == Some(s@),
            Err(e) => area_name_spec(doc@) is None && e == ScanError::MalformedLogLine,
        },
{
    let lines = split_lines(doc);
    let mrk = marker_chars();
    let ghost slines = doc_lines(doc@);
    let mut idx: usize = lines.len();
    while idx > 0
        invariant
            lines@.len() == slines.len(),
            forall|k: int| 0 <= k < lines@.len() ==> lines@[k]@ == slines[k],
            mrk@ == marker(),
            slines == doc_lines(doc@),
            idx <= lines@.len(),
            forall|j: int| idx <= j < slines.len() ==> !line_matches(slines[j]),
        decreases idx,
    {
        idx -= 1;
        let line = &lines[idx];
        match find_sub(line, &mrk) {
            Some(m) => {
                proof {
                    lemma_last_match_witness(slines, idx as int);
                }
                let ln: usize = line.len();
                assert(m + mrk@.len() <= line@.len());
                let start: usize = m + mrk.len();
                let rem = subvec(line, start, ln);
                let toks = split_on_exec(&rem, ' ');
                if toks.len() < 4 {
                    return Err(ScanError::MalformedLogLine);
                }
                let trimmed = trim_chars(&toks[3]);
                let cleaned = remove_quotes(&trimmed);
                proof {
                    assert(extract_from_line(slines[idx as int]) == Some(cleaned@));
                }
                return Ok(cleaned);
            },
            None => {
                assert(!line_matches(slines[idx as int]));
            },
        }
    }
    proof {
        lemma_last_match_none(slines);
    }
    Ok(Vec::new())
}

/// Scan a document for the area name: the token at index 3 of the last
/// marker line's remainder, trimmed of surrounding whitespace and with all
/// double quotes removed; the empty string when no line contains the marker;
/// an error when the last marker line has fewer than four tokens after the
/// marker.
pub fn extract_area_name(contents: &str) -> (r: Result<String, ScanError>)
    ensures
        match r {
            Ok(s) => area_name_spec(contents@) == Some(s@),
            Err(e) => area_name_spec(contents@) is None && e == ScanError::MalformedLogLine,
        },
{
    let doc = chars_of_str(contents);
    match extract_area_name_chars(&doc) {
        Ok(v) => Ok(string_of_chars(&v)),
        Err(e) => Err(e),
    }
}

} // verus!
