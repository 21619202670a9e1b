use linestream::counting::count;
use linestream::counting::format_field;
use linestream::counting::format_summary;
use linestream::counting::format_total;
use linestream::counting::get_args;
use linestream::counting::run_source;
use linestream::counting::run_total;
use linestream::counting::run;
use linestream::counting::tally;
use linestream::counting::Config;
use linestream::counting::FileInfo;
use linestream::driver::Opened;
use linestream::error::ConfigError;
use linestream::reader::read_lines;

fn names(list: &[&str]) -> Vec<String> {
    list.iter().map(|s| s.to_string()).collect()
}

fn default_config(files: &[&str]) -> Config {
    get_args(names(files), false, false, false, false).unwrap()
}

#[test]
fn test_count() {
    let text = "I don't want the world. I just want your half.\r\n";
    let (_, malformed) = tally(text.as_bytes());
    assert_eq!(malformed, 0);
    let info = count(text.as_bytes());
    let expected = FileInfo {
        num_lines: 1,
        num_words: 10,
        num_chars: 48,
        num_bytes: 48,
    };
    assert_eq!(info, expected);
}

#[test]
fn test_format_field() {
    assert_eq!(format_field(1, false), "");
    assert_eq!(format_field(3, true), "       3");
    assert_eq!(format_field(10, true), "      10");
}

#[test]
fn format_field_wider_than_column() {
    assert_eq!(format_field(123456789, true), "123456789");
    assert_eq!(format_field(12345678, true), "12345678");
    assert_eq!(format_field(0, true), "       0");
    assert_eq!(format_field(usize::MAX, true), format!("{:>8}", usize::MAX));
}

#[test]
fn count_empty_source() {
    let info = count(b"");
    assert_eq!(info, FileInfo { num_lines: 0, num_words: 0, num_bytes: 0, num_chars: 0 });
}

#[test]
fn count_partial_last_line() {
    let info = count(b"one two\nthree");
    assert_eq!(info, FileInfo { num_lines: 2, num_words: 3, num_bytes: 13, num_chars: 13 });
}

#[test]
fn count_multibyte_characters() {
    let text = "héllo wörld\n\u{3000}日本 語\n";
    let info = count(text.as_bytes());
    assert_eq!(info.num_lines, 2);
    assert_eq!(info.num_bytes, text.len());
    assert_eq!(info.num_chars, text.chars().count());
    assert_eq!(info.num_words, text.split_whitespace().count());
    assert_eq!(info.num_words, 4);
}

#[test]
fn count_whitespace_runs() {
    let text = "  a \t b\u{a0}c  \n\n \n";
    let info = count(text.as_bytes());
    assert_eq!(info.num_lines, 3);
    assert_eq!(info.num_words, 3);
    assert_eq!(info.num_chars, text.chars().count());
}

#[test]
fn count_lines_equal_records_read() {
    let sources: [&[u8]; 5] = [b"", b"a", b"a\n", b"a\n\nb\r\nc", b"x\n\xff\xfe\ny\n"];
    for data in sources {
        let records = read_lines(data).iter().filter(|item| item.is_ok()).count();
        assert_eq!(count(data).num_lines, records);
        assert_eq!(count(data).num_bytes, data.len());
    }
}

#[test]
fn count_malformed_line_adds_bytes_only() {
    let data = b"good line\n\xff\xfe bad\nlast\n";
    let (info, malformed) = tally(data);
    assert_eq!(malformed, 1);
    assert_eq!(info, FileInfo { num_lines: 2, num_words: 3, num_bytes: 22, num_chars: 15 });
}

#[test]
fn counting_defaults_to_lines_words_bytes() {
    let config = get_args(Vec::new(), false, false, false, false).unwrap();
    assert_eq!(config.files, vec!["-".to_string()]);
    assert!(config.lines && config.words && config.bytes && !config.chars);
}

#[test]
fn counting_keeps_selection() {
    let config = get_args(names(&["a", "b"]), false, true, false, true).unwrap();
    assert_eq!(config.files, names(&["a", "b"]));
    assert!(!config.lines && config.words && !config.bytes && config.chars);
    let config = get_args(names(&["a"]), true, false, false, false).unwrap();
    assert!(config.lines && !config.words && !config.bytes && !config.chars);
}

#[test]
fn counting_refuses_bytes_with_chars() {
    let refused = get_args(names(&["a"]), false, false, true, true).unwrap_err();
    assert_eq!(refused, ConfigError::BytesWithChars);
    assert_eq!(refused.message(), "The argument '--bytes' cannot be used with '--chars'");
    assert!(get_args(Vec::new(), true, true, true, true).is_err());
}

#[test]
fn summary_default_single_file() {
    let config = default_config(&["hello.txt"]);
    let inputs = vec![Opened::Stream(b"hello world\n".to_vec())];
    let output = run(&config, &inputs);
    assert_eq!(output.out, "       1       2      12 hello.txt\n");
    assert!(output.err.is_empty());
}

#[test]
fn summary_of_standard_input_has_no_name() {
    let config = default_config(&[]);
    let inputs = vec![Opened::Stream(b"hello world\n".to_vec())];
    let output = run(&config, &inputs);
    assert_eq!(output.out, "       1       2      12\n");
}

#[test]
fn summary_shows_selected_fields_in_order() {
    let info = FileInfo { num_lines: 1, num_words: 22, num_bytes: 333, num_chars: 4444 };
    let config = get_args(names(&["f"]), true, false, false, true).unwrap();
    assert_eq!(format_summary(&info, &config, "f"), "       1    4444 f\n");
    let config = get_args(names(&["f"]), false, true, true, false).unwrap();
    assert_eq!(format_summary(&info, &config, "-"), "      22     333\n");
    assert_eq!(format_total(&info, &config), "      22     333 total\n");
}

#[test]
fn totals_after_several_sources() {
    let config = default_config(&["one", "two"]);
    let inputs = vec![
        Opened::Stream(b"a b\n".to_vec()),
        Opened::Stream(b"c\nd e f\n".to_vec()),
    ];
    let output = run(&config, &inputs);
    assert_eq!(
        output.out,
        "       1       2       4 one\n       2       4       8 two\n       3       6      12 total\n"
    );
    assert!(output.err.is_empty());
}

#[test]
fn counting_goes_on_after_missing_source() {
    let config = default_config(&["real.txt", "missing.txt"]);
    let inputs = vec![
        Opened::Stream(b"hello world\n".to_vec()),
        Opened::Failure("No such file or directory (os error 2)".to_string()),
    ];
    let output = run(&config, &inputs);
    assert_eq!(
        output.out,
        "       1       2      12 real.txt\n       1       2      12 total\n"
    );
    assert_eq!(output.err, vec!["missing.txt: No such file or directory (os error 2)".to_string()]);
}

#[test]
fn counting_reports_each_malformed_line() {
    let config = default_config(&["bin"]);
    let inputs = vec![Opened::Stream(b"\xff\nok\n\xc3\n".to_vec())];
    let output = run(&config, &inputs);
    assert_eq!(output.out, "       1       1       7 bin\n");
    assert_eq!(
        output.err,
        vec![
            "bin: stream did not contain valid UTF-8".to_string(),
            "bin: stream did not contain valid UTF-8".to_string(),
        ]
    );
}

#[test]
fn run_source_adds_to_totals() {
    let config = default_config(&["a", "b"]);
    let mut totals = FileInfo { num_lines: 1, num_words: 2, num_bytes: 30, num_chars: 4 };
    let output = run_source(&config, 0, &Opened::Stream(b"x y z\n".to_vec()), &mut totals);
    assert_eq!(output.out, "       1       3       6 a\n");
    assert_eq!(totals, FileInfo { num_lines: 2, num_words: 5, num_bytes: 36, num_chars: 10 });
    let output = run_source(&config, 1, &Opened::Failure("denied".to_string()), &mut totals);
    assert_eq!(output.out, "");
    assert_eq!(output.err, vec!["b: denied".to_string()]);
    assert_eq!(totals, FileInfo { num_lines: 2, num_words: 5, num_bytes: 36, num_chars: 10 });
    assert_eq!(run_total(&config, &totals).out, "       2       5      36 total\n");
    assert_eq!(run_total(&default_config(&["only"]), &totals).out, "");
}
