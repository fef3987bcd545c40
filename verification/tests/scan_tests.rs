//! Tests for the log tail scanner: the concrete scenarios of the line shape,
//! the last-match rule, quote stripping, whitespace trimming, and the
//! malformed-line error.

use log_tail_scanner::extract_area_name;
use log_tail_scanner::extract_area_name_chars;
use log_tail_scanner::ScanError;

fn ok(s: &str) -> Result<String, ScanError> {
    Ok(s.to_string())
}

#[test]
fn forest_line_yields_seed() {
    // The calibration line: after the marker the remainder is
    // ` "Forest" with seed 42`, whose token at index 3 is `seed`.
    let doc = "Generating level \"Forest\" with seed 42";
    assert_eq!(extract_area_name(doc), ok("seed"));
}

#[test]
fn two_matching_lines_use_the_last() {
    let doc = "...Generating level A 1 2 3\n...Generating level B 4 5 6";
    assert_eq!(extract_area_name(doc), ok("5"));
}

#[test]
fn no_marker_yields_empty() {
    let doc = "nothing of interest here\nnor here";
    assert_eq!(extract_area_name(doc), ok(""));
}

#[test]
fn empty_document_yields_empty() {
    assert_eq!(extract_area_name(""), ok(""));
}

#[test]
fn too_few_tokens_is_malformed() {
    // Remainder ` AB` splits into two tokens only.
    let doc = "Generating level AB";
    assert_eq!(extract_area_name(doc), Err(ScanError::MalformedLogLine));
}

#[test]
fn bare_marker_line_is_malformed() {
    // Remainder is empty: a single empty token.
    let doc = "Generating level";
    assert_eq!(extract_area_name(doc), Err(ScanError::MalformedLogLine));
}

#[test]
fn quotes_are_stripped_from_the_token() {
    // Remainder ` a b "Tok" rest`: index 3 is `"Tok"`.
    let doc = "prefix Generating level a b \"Tok\" rest";
    assert_eq!(extract_area_name(doc), ok("Tok"));
}

#[test]
fn quoted_tokens_keep_their_position() {
    let doc = "Generating level \"A\" \"B\" \"C\" \"D\"";
    assert_eq!(extract_area_name(doc), ok("C"));
}

#[test]
fn tabs_around_the_token_are_trimmed() {
    // Index 3 of the remainder is `\tX\t`.
    let doc = "Generating level a b \tX\t c";
    assert_eq!(extract_area_name(doc), ok("X"));
}

#[test]
fn earlier_matching_line_used_when_last_lines_do_not_match() {
    let doc = "Generating level A 1 2 3\nno marker here\nnor here";
    assert_eq!(extract_area_name(doc), ok("2"));
}

#[test]
fn crlf_line_endings_are_tolerated() {
    let doc = "Generating level \"Forest\" with seed\r\nquiet line\r\n";
    assert_eq!(extract_area_name(doc), ok("seed"));
}

#[test]
fn marker_twice_in_one_line_splits_at_first() {
    // Remainder after the first occurrence: ` x Generating level y z`,
    // index 3 is `level`.
    let doc = "Generating level x Generating level y z";
    assert_eq!(extract_area_name(doc), ok("level"));
}

#[test]
fn malformed_earlier_line_is_ignored() {
    let doc = "Generating level\nGenerating level a b c d";
    assert_eq!(extract_area_name(doc), ok("c"));
}

#[test]
fn malformed_last_line_wins_over_good_earlier_line() {
    let doc = "Generating level a b c d\nGenerating level";
    assert_eq!(extract_area_name(doc), Err(ScanError::MalformedLogLine));
}

#[test]
fn char_level_scan_matches_string_scan() {
    let doc = "Generating level \"Forest\" with seed 42";
    let chars: Vec<char> = doc.chars().collect();
    let expected: Vec<char> = "seed".chars().collect();
    assert_eq!(extract_area_name_chars(&chars), Ok(expected));
}

#[test]
fn char_level_scan_reports_malformed() {
    let chars: Vec<char> = "Generating level AB".chars().collect();
    assert_eq!(extract_area_name_chars(&chars), Err(ScanError::MalformedLogLine));
}

#[test]
fn trim_chars_removes_edge_whitespace() {
    let v: Vec<char> = " \tname\r\n ".chars().collect();
    let trimmed = log_tail_scanner::text::trim_chars(&v);
    let expected: Vec<char> = "name".chars().collect();
    assert_eq!(trimmed, expected);
}

#[test]
fn remove_quotes_drops_every_quote() {
    let v: Vec<char> = "\"a\"b\"\"".chars().collect();
    let cleaned = log_tail_scanner::text::remove_quotes(&v);
    let expected: Vec<char> = "ab".chars().collect();
    assert_eq!(cleaned, expected);
}

#[test]
fn split_on_exec_cuts_at_every_delimiter() {
    let v: Vec<char> = "a  b,".chars().collect();
    let pieces = log_tail_scanner::text::split_on_exec(&v, ' ');
    let expected: Vec<Vec<char>> =
        vec![vec!['a'], vec![], vec!['b', ',']];
    assert_eq!(pieces, expected);
}

#[test]
fn find_sub_returns_first_occurrence() {
    let hay: Vec<char> = "xxabyab".chars().collect();
    let needle: Vec<char> = "ab".chars().collect();
    assert_eq!(log_tail_scanner::text::find_sub(&hay, &needle), Some(2));
    let absent: Vec<char> = "zz".chars().collect();
    assert_eq!(log_tail_scanner::text::find_sub(&hay, &absent), None);
}
