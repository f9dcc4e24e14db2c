//! Searching the lines of a file for a pattern.

use crate::lines::line_starts;
use crate::text::starts_with_utf8_mark;
use crate::text::decode_utf8_lossy;
use crate::text::strip_line_terminator;
use crate::text::strip_terminator;
use crate::text::utf8_lossy_text;
use vstd::prelude::*;
use vstd::string::StringExecFns;
use vstd::utf8::decode_utf8;
use vstd::utf8::valid_utf8;

verus! {

/// The error that `grep`'s regex matcher gives for a pattern that it cannot
/// compile.
#[verifier::external_type_specification]
#[verifier::external_body]
pub struct ExPatternError(grep::regex::Error);

/// The error of `std::io`, which `grep`'s searcher reports its failures in.
#[verifier::external_type_specification]
#[verifier::external_body]
pub struct ExIoError(std::io::Error);

/// Why a search gave no results.
#[derive(Debug)]
pub enum SearchError {
    /// The pattern does not compile.
    Regex(grep::regex::Error),
    /// The searcher failed.
    Io(std::io::Error),
}

/// What to search for, and how.
#[derive(Debug, Clone)]
pub struct SearchOptions {
    pub pattern: String,
    pub case_sensitive: bool,
    pub regex_mode: bool,
    pub whole_word: bool,
}

/// What `SearchOptions` are, as mathematics.
pub struct OptionsView {
    pub pattern: Seq<char>,
    pub case_sensitive: bool,
    pub regex_mode: bool,
    pub whole_word: bool,
}

impl View for SearchOptions {
    type V = OptionsView;

    open spec fn view(&self) -> OptionsView {
        OptionsView {
            pattern: self.pattern@,
            case_sensitive: self.case_sensitive,
            regex_mode: self.regex_mode,
            whole_word: self.whole_word,
        }
    }
}

impl Default for SearchOptions {
    fn default() -> (options: Self)
        ensures
            options@ == (OptionsView {
                pattern: Seq::empty(),
                case_sensitive: false,
                regex_mode: false,
                whole_word: false,
            }),
    {
        SearchOptions {
            pattern: String::new(),
            case_sensitive: false,
            regex_mode: false,
            whole_word: false,
        }
    }
}

/// One line that the pattern matches.
#[derive(Debug, Clone)]
pub struct MatchResult {
    pub line_number: u64,
    pub column_start: u32,
    pub column_end: u32,
    pub line_content: String,
}

/// What a `MatchResult` is, as mathematics.
pub struct MatchView {
    pub line_number: u64,
    pub column_start: u32,
    pub column_end: u32,
    pub line_content: Seq<char>,
}

impl View for MatchResult {
    type V = MatchView;

    open spec fn view(&self) -> MatchView {
        MatchView {
            line_number: self.line_number,
            column_start: self.column_start,
            column_end: self.column_end,
            line_content: self.line_content@,
        }
    }
}

/// The views of `results`, in their order.
pub open spec fn views_of(results: Seq<MatchResult>) -> Seq<MatchView> {
    results.map_values(|result: MatchResult| result@)
}

/// The result for a line that the scan reports: its number as the scan
/// counts it, a span over the whole line (the length of its bytes, cut to 32
/// bits), and its text without the line terminator.
pub open spec fn match_of(line_number: u64, line: Seq<u8>) -> MatchView {
    MatchView {
        line_number,
        column_start: 0,
        column_end: (line.len() % 0x1_0000_0000) as u32,
        line_content: strip_terminator(utf8_lossy_text(line)),
    }
}

/// The results for the lines that a scan reports, in their order.
pub open spec fn matches_of(hits: Seq<(u64, Seq<u8>)>) -> Seq<MatchView> {
    hits.map_values(|hit: (u64, Seq<u8>)| match_of(hit.0, hit.1))
}

/// Gathers the matching lines of one search.
#[derive(Debug)]
pub struct MatchCollector {
    pub results: Vec<MatchResult>,
}

impl View for MatchCollector {
    type V = Seq<MatchView>;

    open spec fn view(&self) -> Seq<MatchView> {
        views_of(self.results@)
    }
}

impl MatchCollector {
    pub fn new() -> (collector: Self)
        ensures
            collector@ == Seq::<MatchView>::empty(),
    {
        MatchCollector { results: Vec::new() }
    }

    /// Takes one matching line from the scan: its number and its bytes, the
    /// terminator included. Returns whether the scan should go on, which it
    /// always should. A line whose bytes are UTF-8 has the text that they
    /// encode.
    pub fn matched(&mut self, line_number: u64, line: &[u8]) -> (keep_going: bool)
        ensures
            keep_going,
            final(self)@ == old(self)@.push(match_of(line_number, line@)),
            valid_utf8(line@) ==> final(self)@.last().line_content == strip_terminator(
                decode_utf8(line@),
            ),
    {
        let text = decode_utf8_lossy(line);
        let content = strip_line_terminator(text.as_str());
        let end: u32 = ((line.len() as u64) % 0x1_0000_0000u64) as u32;
        let found = MatchResult {
            line_number,
            column_start: 0,
            column_end: end,
            line_content: content,
        };
        assert(found@ == match_of(line_number, line@));
        self.results.push(found);
        assert(self@ =~= old(self)@.push(match_of(line_number, line@)));
        true
    }
}

/// Whether `c` means something in a pattern, so that a literal `c` has to
/// be escaped.
pub open spec fn is_meta_character(c: char) -> bool {
    c == '\\' || c == '.' || c == '+' || c == '*' || c == '?' || c == '(' || c == ')' || c == '|'
        || c == '[' || c == ']' || c == '{' || c == '}' || c == '^' || c == '$' || c == '#' || c
        == '&' || c == '-' || c == '~'
}

/// `text` as a pattern that matches `text` and nothing else: a backslash
/// before each of its meta characters.
pub open spec fn escaped(text: Seq<char>) -> Seq<char>
    decreases text.len(),
{
    if text.len() == 0 {
        Seq::empty()
    } else if is_meta_character(text.last()) {
        escaped(text.drop_last()).push('\\').push(text.last())
    } else {
        escaped(text.drop_last()).push(text.last())
    }
}

/// Text without meta characters is its own pattern.
pub proof fn lemma_escaped_plain_text(text: Seq<char>)
    requires
        forall|i: int| 0 <= i < text.len() ==> !is_meta_character(#[trigger] text[i]),
    ensures
        escaped(text) == text,
    decreases text.len(),
{
    if text.len() > 0 {
        lemma_escaped_plain_text(text.drop_last());
        assert(escaped(text) =~= text);
    }
}

/// The pattern that the matcher is given: the user's own in regex mode,
/// else the user's text escaped, between word boundaries where whole words
/// are asked for. Whole words are not asked of a regex.
pub open spec fn pattern_of(options: OptionsView) -> Seq<char> {
    if options.regex_mode {
        options.pattern
    } else if options.whole_word {
        "\\b"@ + escaped(options.pattern) + "\\b"@
    } else {
        escaped(options.pattern)
    }
}

/// Whether `grep`'s regex matcher compiles `pattern`, with or without
/// regard to case.
pub uninterp spec fn grep_accepts(pattern: Seq<char>, case_insensitive: bool) -> bool;

/// The lines of `data` that `grep`'s searcher reports for `pattern`: of
/// each its number and its bytes, in the order of the report.
pub uninterp spec fn grep_hits(pattern: Seq<char>, case_insensitive: bool, data: Seq<u8>) -> Seq<
    (u64, Seq<u8>),
>;

/// Whether `data` begins with a byte order mark of UTF-16. The searcher
/// transcodes such data to UTF-8 before it searches it.
pub open spec fn starts_with_utf16_mark(data: Seq<u8>) -> bool {
    ||| data.len() >= 2 && data[0] == 0xFF && data[1] == 0xFE
    ||| data.len() >= 2 && data[0] == 0xFE && data[1] == 0xFF
}

/// The bytes of `data` that are searched, where `data` does not begin with
/// a byte order mark of UTF-16: `data` itself, without the byte order mark
/// of UTF-8 where it begins with one.
pub open spec fn scanned_bytes(data: Seq<u8>) -> Seq<u8> {
    if starts_with_utf8_mark(data) {
        data.subrange(3, data.len() as int)
    } else {
        data
    }
}

/// The bytes of line `i` of `data`, counted from 0, its terminator included.
pub open spec fn line_bytes(data: Seq<u8>, i: int) -> Seq<u8> {
    let starts = line_starts(data);
    data.subrange(
        starts[i] as int,
        if i + 1 < starts.len() {
            starts[i + 1] as int
        } else {
            data.len() as int
        },
    )
}

/// Whether `hits` are lines of `data`, each with its number counted from 1
/// and its bytes, in increasing order of their numbers.
pub open spec fn is_line_selection(hits: Seq<(u64, Seq<u8>)>, data: Seq<u8>) -> bool {
    &&& forall|k: int|
        0 <= k < hits.len() ==> {
            &&& 1 <= (#[trigger] hits[k]).0 <= line_starts(data).len()
            &&& hits[k].1 == line_bytes(data, hits[k].0 - 1)
        }
    &&& forall|j: int, k: int| 0 <= j < k < hits.len() ==> hits[j].0 < hits[k].0
}

/// Whether the numbers of `hits` count from 1 and increase.
pub open spec fn numbers_increase(hits: Seq<(u64, Seq<u8>)>) -> bool {
    &&& forall|k: int| 0 <= k < hits.len() ==> 1 <= (#[trigger] hits[k]).0
    &&& forall|j: int, k: int| 0 <= j < k < hits.len() ==> hits[j].0 < hits[k].0
}

/// Whether `results` stand in the order of a scan: their line numbers
/// count from 1 and increase, so that no line has two results.
pub open spec fn in_scan_order(results: Seq<MatchView>) -> bool {
    &&& forall|k: int| 0 <= k < results.len() ==> 1 <= (#[trigger] results[k]).line_number
    &&& forall|j: int, k: int|
        0 <= j < k < results.len() ==> results[j].line_number < results[k].line_number
}

/// The results for hits whose numbers increase stand in the order of a
/// scan.
pub proof fn lemma_matches_in_scan_order(hits: Seq<(u64, Seq<u8>)>)
    requires
        numbers_increase(hits),
    ensures
        in_scan_order(matches_of(hits)),
{
    let results = matches_of(hits);
    assert forall|k: int| 0 <= k < results.len() implies 1 <= (#[trigger] results[k]).line_number by {
        assert(results[k] == match_of(hits[k].0, hits[k].1));
    }
    assert forall|j: int, k: int| 0 <= j < k < results.len() implies results[j].line_number
        < results[k].line_number by {
        assert(results[j] == match_of(hits[j].0, hits[j].1));
        assert(results[k] == match_of(hits[k].0, hits[k].1));
    }
}

/// Whether `results` are results for lines of `data`: each has the number
/// of a line, counted from 1, with a span over the whole of that line and
/// the text of that line, and the numbers increase.
pub open spec fn are_results_of_lines(results: Seq<MatchView>, data: Seq<u8>) -> bool {
    &&& forall|k: int|
        0 <= k < results.len() ==> {
            &&& 1 <= (#[trigger] results[k]).line_number <= line_starts(data).len()
            &&& results[k] == match_of(
                results[k].line_number,
                line_bytes(data, results[k].line_number - 1),
            )
        }
    &&& forall|j: int, k: int|
        0 <= j < k < results.len() ==> results[j].line_number < results[k].line_number
}

/// The results for a selection of lines are results for lines, in the
/// order of the lines.
pub proof fn lemma_matches_of_lines(hits: Seq<(u64, Seq<u8>)>, data: Seq<u8>)
    requires
        is_line_selection(hits, data),
    ensures
        are_results_of_lines(matches_of(hits), data),
{
    let results = matches_of(hits);
    assert forall|k: int| 0 <= k < results.len() implies {
        &&& 1 <= (#[trigger] results[k]).line_number <= line_starts(data).len()
        &&& results[k] == match_of(
            results[k].line_number,
            line_bytes(data, results[k].line_number - 1),
        )
    } by {
        assert(results[k] == match_of(hits[k].0, hits[k].1));
    }
    assert forall|j: int, k: int| 0 <= j < k < results.len() implies results[j].line_number
        < results[k].line_number by {
        assert(results[j] == match_of(hits[j].0, hits[j].1));
        assert(results[k] == match_of(hits[k].0, hits[k].1));
    }
}

/// `regex::escape`: the text with a backslash before each meta character.
#[verifier::external_body]
fn escape_pattern(text: &str) -> (pattern: String)
    ensures
        pattern@ == escaped(text@),
{
    regex::escape(text)
}

/// Compiles `pattern` with `grep`'s `RegexMatcherBuilder` and runs `grep`'s
/// `Searcher`, as `Searcher::new` makes it, over `data`, handing each line
/// that it reports to `collector`.
///
/// A pattern that does not compile gives `Regex` and leaves the collector
/// alone. A pattern that compiles is always searched for: the searcher
/// reads from memory, the matcher's error type has no values, the sink
/// never fails, and the searcher as `Searcher::new` makes it counts lines
/// and passes its own check of its configuration, so that nothing is left
/// that could fail.
///
/// The searcher counts lines from 1 and reports each line once, in
/// increasing order. It looks for a byte order mark first: data with the
/// mark of UTF-16 is transcoded before it is searched, and of what is
/// reported for it no more is said here; other data is searched as it
/// stands, after the mark of UTF-8 where it has one, and what is reported
/// are lines of those bytes.
#[verifier::external_body]
fn grep_lines(
    pattern: &str,
    case_insensitive: bool,
    data: &[u8],
    collector: &mut MatchCollector,
) -> (result: Result<(), SearchError>)
    ensures
        match result {
            Ok(_) => {
                &&& grep_accepts(pattern@, case_insensitive)
                &&& final(collector)@ == old(collector)@ + matches_of(
                    grep_hits(pattern@, case_insensitive, data@),
                )
                &&& numbers_increase(grep_hits(pattern@, case_insensitive, data@))
                &&& !starts_with_utf16_mark(data@) ==> is_line_selection(
                    grep_hits(pattern@, case_insensitive, data@),
                    scanned_bytes(data@),
                )
            },
            Err(error) => {
                &&& error is Regex
                &&& !grep_accepts(pattern@, case_insensitive)
                &&& final(collector)@ == old(collector)@
            },
        },
{
    let built = grep::regex::RegexMatcherBuilder::new().case_insensitive(case_insensitive).build(
        pattern,
    );
    let matcher = match built {
        Ok(matcher) => matcher,
        Err(error) => return Err(SearchError::Regex(error)),
    };
    let sink = grep::searcher::sinks::Bytes(|number, line| Ok(collector.matched(number, line)));
    match grep::searcher::Searcher::new().search_slice(&matcher, data, sink) {
        Ok(()) => Ok(()),
        Err(error) => Err(SearchError::Io(error)),
    }
}

/// `Display` of the matcher's error.
#[verifier::external_body]
fn pattern_error_text(error: &grep::regex::Error) -> (text: String) {
    error.to_string()
}

/// `Display` of `std::io::Error`.
#[verifier::external_body]
fn io_error_text(error: &std::io::Error) -> (text: String) {
    error.to_string()
}

impl SearchError {
    /// The error in words: what kind it is, then what the matcher or the
    /// searcher said.
    pub fn message(&self) -> (text: String)
        ensures
            self is Regex ==> "Regex error: "@.is_prefix_of(text@),
            self is Io ==> "IO error: "@.is_prefix_of(text@),
    {
        match self {
            SearchError::Regex(error) => {
                let detail = pattern_error_text(error);
                let text = String::from_str("Regex error: ").concat(detail.as_str());
                assert(text@.subrange(0, "Regex error: "@.len() as int) =~= "Regex error: "@);
                text
            },
            SearchError::Io(error) => {
                let detail = io_error_text(error);
                let text = String::from_str("IO error: ").concat(detail.as_str());
                assert(text@.subrange(0, "IO error: "@.len() as int) =~= "IO error: "@);
                text
            },
        }
    }
}

/// Searches files for patterns.
#[derive(Debug, Clone, Copy)]
pub struct SearchEngine;

impl SearchEngine {
    pub fn new() -> (engine: Self) {
        SearchEngine
    }

    /// The pattern that the matcher is given for `options`.
    pub fn build_pattern(&self, options: &SearchOptions) -> (pattern: String)
        ensures
            pattern@ == pattern_of(options@),
    {
        if options.regex_mode {
            options.pattern.clone()
        } else {
            let quoted = escape_pattern(options.pattern.as_str());
            if options.whole_word {
                String::from_str("\\b").concat(quoted.as_str()).concat("\\b")
            } else {
                quoted
            }
        }
    }

    /// Searches a file that holds `data` for the lines that the pattern of
    /// `options` matches, without regard to case unless `options` asks for
    /// it.
    ///
    /// Succeeds exactly if the pattern compiles, and fails with `Regex` if
    /// it does not. The results are those of the lines that the scan
    /// reports, in its order: their numbers count from 1 and increase, and
    /// no line has two results. Unless `data` begins with a byte order mark
    /// of UTF-16, they are results for lines of `data`, taken without the
    /// byte order mark of UTF-8 where it begins with one: each with a span
    /// over the whole line and the line's text.
    pub fn search(&self, data: &[u8], options: &SearchOptions) -> (result: Result<
        Vec<MatchResult>,
        SearchError,
    >)
        ensures
            result is Ok <==> grep_accepts(pattern_of(options@), !options.case_sensitive),
            result matches Err(error) ==> error is Regex,
            result matches Ok(results) ==> {
                &&& views_of(results@) == matches_of(
                    grep_hits(pattern_of(options@), !options.case_sensitive, data@),
                )
                &&& in_scan_order(views_of(results@))
                &&& !starts_with_utf16_mark(data@) ==> is_line_selection(
                    grep_hits(pattern_of(options@), !options.case_sensitive, data@),
                    scanned_bytes(data@),
                )
                &&& !starts_with_utf16_mark(data@) ==> are_results_of_lines(
                    views_of(results@),
                    scanned_bytes(data@),
                )
            },
    {
        let pattern = self.build_pattern(options);
        let mut collector = MatchCollector::new();
        match grep_lines(pattern.as_str(), !options.case_sensitive, data, &mut collector) {
            Ok(_) => {
                assert(collector@ =~= matches_of(
                    grep_hits(pattern_of(options@), !options.case_sensitive, data@),
                ));
                proof {
                    let hits = grep_hits(pattern_of(options@), !options.case_sensitive, data@);
                    lemma_matches_in_scan_order(hits);
                    if !starts_with_utf16_mark(data@) {
                        lemma_matches_of_lines(hits, scanned_bytes(data@));
                    }
                }
                Ok(collector.results)
            },
            Err(error) => Err(error),
        }
    }
}

} // verus!
