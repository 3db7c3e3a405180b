use find::{
    find_bytes, find_match, highlight_line, line_number_field, lowercase_ascii, parse_command,
    render, render_hit, search_lines, segments, ArgError, CliOptions, Hit, Searcher, Segment,
    Style,
};

fn sample_lines() -> Vec<Vec<u8>> {
    vec![
        b"hello world\n".to_vec(),
        b"Hello There\n".to_vec(),
        b"nothing".to_vec(),
    ]
}

fn args(words: &[&str]) -> Vec<String> {
    words.iter().map(|w| w.to_string()).collect()
}

fn ignoring_case() -> CliOptions {
    let mut opt = CliOptions::default();
    opt.ignore_case();
    opt
}

#[test]
fn default_options_are_case_sensitive() {
    assert!(!CliOptions::default().ignore_case);
}

#[test]
fn options_read_both_flag_spellings() {
    assert!(CliOptions::new(&args(&["-i"])).ignore_case);
    assert!(CliOptions::new(&args(&["--ignore-case"])).ignore_case);
    assert!(CliOptions::new(&args(&["x", "--ignore-case", "y"])).ignore_case);
}

#[test]
fn options_ignore_unknown_tokens() {
    assert!(!CliOptions::new(&args(&[])).ignore_case);
    assert!(!CliOptions::new(&args(&["-I", "--ignore", "i", "-ii"])).ignore_case);
}

#[test]
fn options_do_not_depend_on_order_or_count() {
    assert!(CliOptions::new(&args(&["-i", "-i", "z"])).ignore_case);
    assert!(CliOptions::new(&args(&["z", "-i"])).ignore_case);
}

#[test]
fn ignore_case_setter_chains() {
    let mut opt = CliOptions::default();
    assert!(opt.ignore_case().ignore_case);
    assert!(opt.ignore_case);
}

#[test]
fn find_bytes_is_leftmost() {
    assert_eq!(find_bytes(b"abab", b"ab"), Some(0));
    assert_eq!(find_bytes(b"xxab", b"ab"), Some(2));
    assert_eq!(find_bytes(b"abab", b"ba"), Some(1));
    assert_eq!(find_bytes(b"ab", b"abc"), None);
    assert_eq!(find_bytes(b"", b""), Some(0));
    assert_eq!(find_bytes(b"aaa", b"b"), None);
}

#[test]
fn lowercase_ascii_touches_only_ascii_letters() {
    assert_eq!(lowercase_ascii(b"AbZ@[z"), b"abz@[z".to_vec());
    let non_ascii = "\u{c9}T\u{e9}".as_bytes();
    let lowered = lowercase_ascii(non_ascii);
    assert_eq!(lowered, "\u{c9}t\u{e9}".as_bytes().to_vec());
}

#[test]
fn case_sensitive_needs_exact_bytes() {
    let opt = CliOptions::default();
    assert_eq!(find_match(b"Hello There\n", b"hello", &opt), None);
    assert_eq!(find_match(b"say hello", b"hello", &opt), Some(4));
}

#[test]
fn case_insensitive_prefers_verbatim_match() {
    let opt = ignoring_case();
    assert_eq!(find_match(b"Hello hello", b"hello", &opt), Some(6));
    assert_eq!(find_match(b"Hello hello", b"Hello", &opt), Some(0));
    assert_eq!(find_match(b"xx HELLO", b"HeLLo", &opt), Some(3));
    assert_eq!(find_match(b"nothing", b"HELLO", &opt), None);
}

#[test]
fn sample_case_sensitive_reports_first_line_only() {
    let hits = search_lines(&sample_lines(), b"hello", &CliOptions::default());
    assert_eq!(hits, vec![Hit { line_no: 1, start: 0, len: 5 }]);
}

#[test]
fn sample_case_insensitive_reports_two_lines() {
    let opt = CliOptions::new(&args(&["-i"]));
    let hits = search_lines(&sample_lines(), b"hello", &opt);
    assert_eq!(
        hits,
        vec![Hit { line_no: 1, start: 0, len: 5 }, Hit { line_no: 2, start: 0, len: 5 }]
    );
}

#[test]
fn line_numbers_count_non_matching_lines() {
    let lines = vec![
        b"a\n".to_vec(),
        b"b\n".to_vec(),
        b"xa\n".to_vec(),
        b"c\n".to_vec(),
        b"a".to_vec(),
    ];
    let hits = search_lines(&lines, b"a", &CliOptions::default());
    assert_eq!(
        hits,
        vec![
            Hit { line_no: 1, start: 0, len: 1 },
            Hit { line_no: 3, start: 1, len: 1 },
            Hit { line_no: 5, start: 0, len: 1 },
        ]
    );
}

#[test]
fn repeated_search_gives_same_hits() {
    let opt = ignoring_case();
    let first = search_lines(&sample_lines(), b"THERE", &opt);
    let second = search_lines(&sample_lines(), b"THERE", &opt);
    assert_eq!(first, second);
    assert_eq!(first, vec![Hit { line_no: 2, start: 6, len: 5 }]);
}

#[test]
fn empty_term_matches_every_line_at_start() {
    let hits = search_lines(&sample_lines(), b"", &CliOptions::default());
    assert_eq!(
        hits,
        vec![
            Hit { line_no: 1, start: 0, len: 0 },
            Hit { line_no: 2, start: 0, len: 0 },
            Hit { line_no: 3, start: 0, len: 0 },
        ]
    );
}

#[test]
fn term_longer_than_every_line_matches_nothing() {
    let term = b"hello world, hello there, nothing".to_vec();
    assert!(search_lines(&sample_lines(), &term, &CliOptions::default()).is_empty());
    assert!(search_lines(&sample_lines(), &term, &ignoring_case()).is_empty());
}

#[test]
fn empty_file_has_no_hits() {
    assert!(search_lines(&[], b"a", &CliOptions::default()).is_empty());
}

#[test]
fn searcher_numbers_every_line() {
    let mut searcher = Searcher::new(b"o", &CliOptions::default());
    assert_eq!(searcher.next_line_number(), 1);
    assert_eq!(searcher.step(b"xyz"), None);
    assert_eq!(searcher.step(b"foo"), Some(Hit { line_no: 2, start: 1, len: 1 }));
    assert_eq!(searcher.next_line_number(), 3);
}

#[test]
fn style_escape_codes() {
    assert_eq!(Style::LineNumber.escape(), b"\x1B[34m".to_vec());
    assert_eq!(Style::Match.escape(), b"\x1B[31m".to_vec());
    assert_eq!(Style::Reset.escape(), b"\x1B[0m".to_vec());
}

#[test]
fn line_number_field_is_right_aligned() {
    assert_eq!(line_number_field(0), b" 0 ".to_vec());
    assert_eq!(line_number_field(7), b" 7 ".to_vec());
    assert_eq!(line_number_field(42), b"42 ".to_vec());
    assert_eq!(line_number_field(1205), b"1205 ".to_vec());
}

#[test]
fn segments_split_line_around_match() {
    let hit = Hit { line_no: 3, start: 4, len: 3 };
    let segs = segments(b"the cat sat\n", &hit);
    assert_eq!(
        segs,
        vec![
            Segment { style: Style::LineNumber, text: b" 3 ".to_vec() },
            Segment { style: Style::Reset, text: b"the ".to_vec() },
            Segment { style: Style::Match, text: b"cat".to_vec() },
            Segment { style: Style::Reset, text: b" sat\n".to_vec() },
        ]
    );
}

#[test]
fn render_concatenates_codes_and_text() {
    let segs = vec![
        Segment { style: Style::Match, text: b"ab".to_vec() },
        Segment { style: Style::Reset, text: b"c".to_vec() },
    ];
    assert_eq!(render(&segs), b"\x1B[31mab\x1B[0mc".to_vec());
    assert_eq!(render(&[]), Vec::<u8>::new());
}

#[test]
fn render_hit_matches_terminal_format() {
    let hit = Hit { line_no: 12, start: 6, len: 5 };
    assert_eq!(
        render_hit(b"Hello There\n", &hit),
        b"\x1B[34m12 \x1B[0mHello \x1B[31mThere\x1B[0m\n".to_vec()
    );
}

#[test]
fn highlight_line_uses_original_text_for_folded_match() {
    let mut searcher = Searcher::new(b"hello", &ignoring_case());
    assert_eq!(
        highlight_line(&mut searcher, b"hello world\n"),
        Some(b"\x1B[34m 1 \x1B[0m\x1B[31mhello\x1B[0m world\n".to_vec())
    );
    assert_eq!(
        highlight_line(&mut searcher, b"Hello There\n"),
        Some(b"\x1B[34m 2 \x1B[0m\x1B[31mHello\x1B[0m There\n".to_vec())
    );
    assert_eq!(highlight_line(&mut searcher, b"nothing"), None);
    assert_eq!(searcher.next_line_number(), 4);
}

#[test]
fn missing_term_is_an_argument_error() {
    assert_eq!(parse_command(&args(&["find", "notes.txt"])), Err(ArgError::MissingArguments));
    assert_eq!(parse_command(&args(&["find"])), Err(ArgError::MissingArguments));
    assert_eq!(parse_command(&args(&[])), Err(ArgError::MissingArguments));
}

#[test]
fn command_takes_positions_and_trailing_flags() {
    let cmd = parse_command(&args(&["find", "notes.txt", "hello", "-i"])).unwrap();
    assert_eq!(cmd.file_path, "notes.txt");
    assert_eq!(cmd.term, "hello");
    assert!(cmd.options.ignore_case);
    let cmd = parse_command(&args(&["find", "notes.txt", "-i"])).unwrap();
    assert_eq!(cmd.term, "-i");
    assert!(!cmd.options.ignore_case);
}
