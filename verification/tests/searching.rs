use log_viewer::search::MatchCollector;
use log_viewer::search::MatchResult;
use log_viewer::search::SearchEngine;
use log_viewer::search::SearchError;
use log_viewer::search::SearchOptions;

fn options(pattern: &str, case_sensitive: bool, regex_mode: bool, whole_word: bool) -> SearchOptions {
    SearchOptions { pattern: String::from(pattern), case_sensitive, regex_mode, whole_word }
}

fn found(data: &[u8], options: &SearchOptions) -> Vec<MatchResult> {
    SearchEngine::new().search(data, options).unwrap()
}

fn numbers(results: &[MatchResult]) -> Vec<u64> {
    results.iter().map(|m| m.line_number).collect()
}

#[test]
fn literal_pattern_is_not_a_wildcard() {
    let data = b"axb\na.b\nxa.bx\naab\n";
    let results = found(data, &options("a.b", true, false, false));
    assert_eq!(numbers(&results), vec![2, 3]);
    assert_eq!(results[0].line_content, "a.b");
    assert_eq!(results[1].line_content, "xa.bx");
}

#[test]
fn regex_pattern_is_used_as_it_is() {
    let data = b"axb\na.b\nab\n";
    let results = found(data, &options("a.b", true, true, false));
    assert_eq!(numbers(&results), vec![1, 2]);
}

#[test]
fn whole_word_matches_the_word_alone() {
    let data = b"a log entry\nlogged\nblog\nlog\nthe log.\ncatalog log\n";
    let results = found(data, &options("log", true, false, true));
    assert_eq!(numbers(&results), vec![1, 4, 5, 6]);
    assert_eq!(results[0].line_content, "a log entry");
}

#[test]
fn whole_word_is_not_asked_of_a_regex() {
    let data = b"a log entry\nlogged\n";
    let results = found(data, &options("log", true, true, true));
    assert_eq!(numbers(&results), vec![1, 2]);
}

#[test]
fn pattern_that_does_not_compile_is_an_error() {
    let engine = SearchEngine::new();
    let result = engine.search(b"anything\n", &options("(", true, true, false));
    assert!(matches!(result, Err(SearchError::Regex(_))));
    let result = engine.search(b"", &options("[a-", false, true, false));
    assert!(matches!(result, Err(SearchError::Regex(_))));
}

#[test]
fn the_same_text_compiles_as_a_literal() {
    let results = found(b"f(x\n(\nfx\n", &options("(", true, false, false));
    assert_eq!(numbers(&results), vec![1, 2]);
}

#[test]
fn case_matters_only_where_asked() {
    let data = b"ERROR one\nerror two\nError three\nfine\n";
    assert_eq!(numbers(&found(data, &options("error", true, false, false))), vec![2]);
    assert_eq!(numbers(&found(data, &options("error", false, false, false))), vec![1, 2, 3]);
    assert_eq!(numbers(&found(data, &options("ERR", false, true, false))), vec![1, 2, 3]);
    assert_eq!(numbers(&found(data, &options("ERR", true, true, false))), vec![1]);
}

#[test]
fn results_carry_the_whole_line() {
    let data = b"first\nsecond match\r\nthird\nmatch last";
    let results = found(data, &options("match", true, false, false));
    assert_eq!(results.len(), 2);
    assert_eq!(results[0].line_number, 2);
    assert_eq!(results[0].column_start, 0);
    assert_eq!(results[0].column_end, 14);
    assert_eq!(results[0].line_content, "second match");
    assert_eq!(results[1].line_number, 4);
    assert_eq!(results[1].column_start, 0);
    assert_eq!(results[1].column_end, 10);
    assert_eq!(results[1].line_content, "match last");
}

#[test]
fn a_line_is_reported_once() {
    let results = found(b"aaa aaa\nb\naa\n", &options("a", true, false, false));
    assert_eq!(numbers(&results), vec![1, 3]);
}

#[test]
fn nothing_matches_in_nothing() {
    assert!(found(b"", &options("x", true, false, false)).is_empty());
    assert!(found(b"abc\ndef\n", &options("x", true, false, false)).is_empty());
}

#[test]
fn search_needs_no_index_and_reads_bytes_that_are_not_utf8() {
    let data = [b'o', b'k', 0xFF, b'\n', b'n', b'o', b'\n', b'o', b'k', b'\n'];
    let results = found(&data, &options("ok", true, false, false));
    assert_eq!(numbers(&results), vec![1, 3]);
    assert_eq!(results[0].line_content, "ok\u{fffd}");
    assert_eq!(results[0].column_end, 4);
}

#[test]
fn numbers_increase_and_lines_are_those_of_the_file() {
    let data = b"x1\ny\nx2\n\nx3";
    let lines: Vec<&[u8]> = vec![b"x1\n", b"y\n", b"x2\n", b"\n", b"x3"];
    let results = found(data, &options("x", true, false, false));
    assert_eq!(numbers(&results), vec![1, 3, 5]);
    for result in &results {
        let line = lines[(result.line_number - 1) as usize];
        assert_eq!(result.column_end as usize, line.len());
        assert_eq!(result.line_content.as_bytes(), &line[..2]);
    }
}

#[test]
fn literal_pattern_is_escaped() {
    let engine = SearchEngine::new();
    assert_eq!(engine.build_pattern(&options("a.b", true, false, false)), "a\\.b");
    assert_eq!(engine.build_pattern(&options("plain text", true, false, false)), "plain text");
    assert_eq!(engine.build_pattern(&options("", true, false, false)), "");
    assert_eq!(
        engine.build_pattern(&options("\\.+*?()|[]{}^$#&-~", true, false, false)),
        "\\\\\\.\\+\\*\\?\\(\\)\\|\\[\\]\\{\\}\\^\\$\\#\\&\\-\\~"
    );
    assert_eq!(engine.build_pattern(&options("%/!\"e", true, false, false)), "%/!\"e");
}

#[test]
fn whole_word_pattern_stands_between_boundaries() {
    let engine = SearchEngine::new();
    assert_eq!(engine.build_pattern(&options("log", true, false, true)), "\\blog\\b");
    assert_eq!(engine.build_pattern(&options("a.b", false, false, true)), "\\ba\\.b\\b");
}

#[test]
fn regex_pattern_is_not_changed() {
    let engine = SearchEngine::new();
    assert_eq!(engine.build_pattern(&options("a.b", true, true, false)), "a.b");
    assert_eq!(engine.build_pattern(&options("a.b", true, true, true)), "a.b");
    assert_eq!(engine.build_pattern(&options("(", true, true, false)), "(");
}

#[test]
fn collector_takes_lines_as_they_come() {
    let mut collector = MatchCollector::new();
    assert!(collector.results.is_empty());
    assert!(collector.matched(7, b"seven\n"));
    assert!(collector.matched(9, b"nine\r\n"));
    assert!(collector.matched(0, b""));
    assert!(collector.matched(3, b"tab\t \n"));
    assert_eq!(collector.results.len(), 4);
    assert_eq!(collector.results[0].line_number, 7);
    assert_eq!(collector.results[0].column_start, 0);
    assert_eq!(collector.results[0].column_end, 6);
    assert_eq!(collector.results[0].line_content, "seven");
    assert_eq!(collector.results[1].line_number, 9);
    assert_eq!(collector.results[1].column_end, 6);
    assert_eq!(collector.results[1].line_content, "nine");
    assert_eq!(collector.results[2].line_number, 0);
    assert_eq!(collector.results[2].column_end, 0);
    assert_eq!(collector.results[2].line_content, "");
    assert_eq!(collector.results[3].line_content, "tab\t ");
}

#[test]
fn default_options_search_for_nothing() {
    let options = SearchOptions::default();
    assert_eq!(options.pattern, "");
    assert!(!options.case_sensitive);
    assert!(!options.regex_mode);
    assert!(!options.whole_word);
}

#[test]
fn search_errors_in_words() {
    let result = SearchEngine::new().search(b"x", &options("(", true, true, false));
    match result {
        Err(error) => {
            let text = error.message();
            assert!(text.starts_with("Regex error: "));
            assert!(text.len() > "Regex error: ".len());
        }
        Ok(_) => panic!("the pattern compiled"),
    }
}

#[test]
fn a_pattern_that_compiles_is_always_searched_for() {
    let engine = SearchEngine::new();
    let samples: [&[u8]; 7] = [
        b"",
        b"\n",
        b"plain\nlines\n",
        &[0xFF, 0xFE],
        &[0xFF, 0xFE, b'a', 0, b'\n', 0, b'b', 0],
        &[0xEF, 0xBB, 0xBF],
        &[0x00, 0xFF, 0x80, b'\n', 0xC4, 0xE3],
    ];
    for data in samples {
        for pattern in ["a", "", "zzz"] {
            assert!(engine.search(data, &options(pattern, true, false, false)).is_ok());
            assert!(engine.search(data, &options(pattern, false, true, true)).is_ok());
        }
    }
}

#[test]
fn two_engines_give_the_same_results() {
    let data = b"one\ntwo\none more\n";
    let first = found(data, &options("one", true, false, false));
    let second = SearchEngine::new().search(data, &options("one", true, false, false)).unwrap();
    assert_eq!(numbers(&first), numbers(&second));
    assert_eq!(first.len(), 2);
    for (left, right) in first.iter().zip(second.iter()) {
        assert_eq!(left.column_start, right.column_start);
        assert_eq!(left.column_end, right.column_end);
        assert_eq!(left.line_content, right.line_content);
    }
}

#[test]
fn the_mark_of_utf8_is_no_part_of_the_first_line() {
    let data = [0xEF, 0xBB, 0xBF, b'x', b'1', b'\n', b'y', b'\n', b'x', b'2'];
    let results = found(&data, &options("x", true, false, false));
    assert_eq!(numbers(&results), vec![1, 3]);
    assert_eq!(results[0].line_content, "x1");
    assert_eq!(results[0].column_end, 3);
    assert_eq!(results[1].line_content, "x2");
    assert_eq!(results[1].column_end, 2);
    assert!(found(&[0xEF, 0xBB, 0xBF], &options("", true, false, false)).is_empty());
}

#[test]
fn data_in_utf16_is_searched_in_order() {
    let data = [
        0xFF, 0xFE, b'a', 0, b'b', 0, b'\n', 0, b'c', 0, b'\n', 0, b'a', 0, b'd', 0, b'\n', 0, b'a', 0,
    ];
    let results = found(&data, &options("a", true, false, false));
    assert_eq!(numbers(&results), vec![1, 3, 4]);
    assert_eq!(results[0].line_content, "ab");
    assert_eq!(results[2].line_content, "a");
}
