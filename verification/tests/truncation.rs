use linestream::driver::Opened;
use linestream::error::ConfigError;
use linestream::truncation::frame;
use linestream::truncation::get_args;
use linestream::truncation::head;
use linestream::truncation::head_bytes;
use linestream::truncation::head_lines;
use linestream::truncation::parse_positive_int;
use linestream::truncation::run;
use linestream::truncation::run_source;
use linestream::truncation::ReadLimit;
use linestream::text::push_decimal;

fn names(list: &[&str]) -> Vec<String> {
    list.iter().map(|s| s.to_string()).collect()
}

#[test]
fn test_parse_positive_int() {
    let res = parse_positive_int("6");
    assert!(res.is_ok());
    assert_eq!(res.unwrap(), 6);

    let res = parse_positive_int("0");
    assert!(res.is_err());
    assert_eq!(res.unwrap_err().to_string(), "0");

    let res = parse_positive_int("-1");
    assert!(res.is_err());
    assert_eq!(res.unwrap_err().to_string(), "-1");

    let res = parse_positive_int("foo");
    assert!(res.is_err());
    assert_eq!(res.unwrap_err().to_string(), "foo");
}

#[test]
fn parse_positive_int_reads_as_the_standard_parser() {
    let max = usize::MAX.to_string();
    let over = format!("{}0", usize::MAX);
    let next = format!("{}", (usize::MAX as u128) + 1);
    let samples = [
        "1", "10", "007", "+5", "+0", "+", "", " 1", "1 ", "1_000", "12a", "a12", "++1", "-0",
        "0x10", "\u{0661}", "18446744073709551615", "18446744073709551616", "99999999999999999999999",
        max.as_str(), over.as_str(), next.as_str(),
    ];
    for text in samples {
        let expected = match text.parse::<usize>() {
            Ok(n) if n > 0 => Ok(n),
            _ => Err(text.to_string()),
        };
        assert_eq!(parse_positive_int(text), expected, "{:?}", text);
    }
    assert_eq!(parse_positive_int("+5"), Ok(5));
    assert_eq!(parse_positive_int("007"), Ok(7));
    assert_eq!(parse_positive_int(max.as_str()), Ok(usize::MAX));
    assert_eq!(parse_positive_int(over.as_str()), Err(over.clone()));
}

#[test]
fn truncation_refuses_zero_lines() {
    let refused = get_args(names(&["a"]), 0, None).unwrap_err();
    assert_eq!(refused, ConfigError::LinesNotPositive);
    assert_eq!(refused.message(), "lines must be positive");
    assert_eq!(get_args(names(&["a"]), 0, Some(0)).unwrap_err(), ConfigError::LinesNotPositive);
}

#[test]
fn truncation_refuses_zero_bytes() {
    let refused = get_args(names(&["a"]), 10, Some(0)).unwrap_err();
    assert_eq!(refused, ConfigError::BytesNotPositive);
    assert_eq!(refused.message(), "bytes must be positive");
}

#[test]
fn truncation_accepts_positive_limits() {
    let config = get_args(Vec::new(), 10, None).unwrap();
    assert_eq!(config.files, vec!["-".to_string()]);
    assert_eq!(config.lines, 10);
    assert_eq!(config.bytes, None);
    let config = get_args(names(&["a", "b"]), 3, Some(7)).unwrap();
    assert_eq!(config.files, names(&["a", "b"]));
    assert_eq!(config.lines, 3);
    assert_eq!(config.bytes, Some(7));
}

#[test]
fn head_lines_stops_at_the_limit() {
    let data = b"one\ntwo\r\nthree\nfour\n";
    let shown = head_lines(data, 2);
    assert_eq!(shown.text, "one\ntwo\r\n");
    assert_eq!(shown.consumed, 9);
    assert_eq!(shown.malformed, 0);
    let shown = head_lines(data, 1);
    assert_eq!(shown.text, "one\n");
    assert_eq!(shown.consumed, 4);
    let shown = head_lines(data, 0);
    assert_eq!(shown.text, "");
    assert_eq!(shown.consumed, 0);
}

#[test]
fn head_lines_shows_a_short_source_whole() {
    let data = b"one\ntwo";
    for limit in [2usize, 3, 10, usize::MAX] {
        let shown = head_lines(data, limit);
        assert_eq!(shown.text, "one\ntwo");
        assert_eq!(shown.consumed, data.len());
    }
    let shown = head_lines(b"", 10);
    assert_eq!(shown.text, "");
    assert_eq!(shown.consumed, 0);
}

#[test]
fn head_lines_counts_malformed_lines_read() {
    let data = b"a\n\xff\nb\nc\n";
    let shown = head_lines(data, 3);
    assert_eq!(shown.text, "a\nb\n");
    assert_eq!(shown.consumed, 6);
    assert_eq!(shown.malformed, 1);
    let shown = head_lines(data, 1);
    assert_eq!(shown.malformed, 0);
    assert_eq!(shown.consumed, 2);
}

#[test]
fn head_bytes_takes_exactly_the_limit() {
    let data = b"hello world\n";
    let shown = head_bytes(data, 5);
    assert_eq!(shown.text, "hello");
    assert_eq!(shown.consumed, 5);
    assert_eq!(shown.malformed, 0);
    let shown = head_bytes(data, 12);
    assert_eq!(shown.text, "hello world\n");
    assert_eq!(shown.consumed, 12);
    let shown = head_bytes(data, 100);
    assert_eq!(shown.text, "hello world\n");
    assert_eq!(shown.consumed, 12);
    let shown = head_bytes(data, 0);
    assert_eq!(shown.text, "");
    assert_eq!(shown.consumed, 0);
}

#[test]
fn head_bytes_replaces_what_is_not_text() {
    let data = "aé".as_bytes();
    let shown = head_bytes(data, 2);
    assert_eq!(shown.text, "a\u{fffd}");
    assert_eq!(shown.consumed, 2);
    let shown = head_bytes(b"\xffok", 3);
    assert_eq!(shown.text, "\u{fffd}ok");
}

#[test]
fn frame_adds_banner_and_separator() {
    assert_eq!(frame("x\n", "f", false, true), "x\n");
    assert_eq!(frame("x\n", "f", false, false), "x\n\n");
    assert_eq!(frame("x\n", "f", true, true), "==> f <==\nx\n");
    assert_eq!(frame("x\n", "f", true, false), "==> f <==\nx\n\n");
    assert_eq!(frame("", "some file", true, false), "==> some file <==\n\n");
}

#[test]
fn head_prefers_the_limit_in_bytes() {
    let data = b"one\ntwo\nthree\n";
    let output = head(data, "f", 2, None, false, true);
    assert_eq!(output.out, "one\ntwo\n");
    assert!(output.err.is_empty());
    let output = head(data, "f", 2, Some(5), false, true);
    assert_eq!(output.out, "one\nt");
    let output = head(data, "f", 1, Some(5), true, false);
    assert_eq!(output.out, "==> f <==\none\nt\n");
}

#[test]
fn head_reports_malformed_lines() {
    let output = head(b"\xff\nfine\n", "bin", 2, None, false, true);
    assert_eq!(output.out, "fine\n");
    assert_eq!(output.err, vec!["bin: stream did not contain valid UTF-8".to_string()]);
    let output = head(b"\xff\nfine\n", "bin", 2, Some(3), false, true);
    assert_eq!(output.out, "\u{fffd}\nf");
    assert!(output.err.is_empty());
}

#[test]
fn truncation_of_one_source_has_no_banner() {
    let config = get_args(names(&["only"]), 2, None).unwrap();
    let output = run(&config, &vec![Opened::Stream(b"1\n2\n3\n".to_vec())]);
    assert_eq!(output.out, "1\n2\n");
    assert!(output.err.is_empty());
}

#[test]
fn truncation_of_several_sources() {
    let config = get_args(names(&["a", "b", "c"]), 1, None).unwrap();
    let inputs = vec![
        Opened::Stream(b"a1\na2\n".to_vec()),
        Opened::Stream(b"".to_vec()),
        Opened::Stream(b"c1".to_vec()),
    ];
    let output = run(&config, &inputs);
    assert_eq!(output.out, "==> a <==\na1\n\n==> b <==\n\n==> c <==\nc1");
    assert!(output.err.is_empty());
}

#[test]
fn truncation_goes_on_after_missing_source() {
    let config = get_args(names(&["real.txt", "missing.txt"]), 10, None).unwrap();
    let inputs = vec![
        Opened::Stream(b"content\n".to_vec()),
        Opened::Failure("No such file or directory (os error 2)".to_string()),
    ];
    let output = run(&config, &inputs);
    assert_eq!(output.out, "==> real.txt <==\ncontent\n\n");
    assert_eq!(output.err, vec!["missing.txt: No such file or directory (os error 2)".to_string()]);
    let inputs = vec![
        Opened::Failure("denied".to_string()),
        Opened::Stream(b"content\n".to_vec()),
    ];
    let output = run(&config, &inputs);
    assert_eq!(output.out, "==> missing.txt <==\ncontent\n");
    assert_eq!(output.err, vec!["real.txt: denied".to_string()]);
}

#[test]
fn truncation_in_bytes_of_several_sources() {
    let config = get_args(names(&["a", "b"]), 10, Some(2)).unwrap();
    let inputs = vec![Opened::Stream(b"abc".to_vec()), Opened::Stream(b"x".to_vec())];
    let output = run(&config, &inputs);
    assert_eq!(output.out, "==> a <==\nab\n==> b <==\nx");
}

#[test]
fn truncation_source_by_source() {
    let config = get_args(names(&["a", "b"]), 1, None).unwrap();
    let first = run_source(&config, 0, &Opened::Stream(b"a1\na2\n".to_vec()));
    assert_eq!(first.out, "==> a <==\na1\n\n");
    let second = run_source(&config, 1, &Opened::Stream(b"b1\nb2\n".to_vec()));
    assert_eq!(second.out, "==> b <==\nb1\n");
    let failed = run_source(&config, 1, &Opened::Failure("denied".to_string()));
    assert_eq!(failed.out, "");
    assert_eq!(failed.err, vec!["b: denied".to_string()]);
}

#[test]
fn read_limit_prefers_bytes() {
    assert_eq!(get_args(names(&["a"]), 10, None).unwrap().read_limit(), ReadLimit::Lines(10));
    assert_eq!(get_args(names(&["a"]), 10, Some(3)).unwrap().read_limit(), ReadLimit::Bytes(3));
}

#[test]
fn written_numbers_read_back() {
    for n in [1usize, 9, 10, 99, 100, 1234567890, usize::MAX] {
        let mut text = String::new();
        push_decimal(&mut text, n as u64);
        assert_eq!(parse_positive_int(&text), Ok(n));
    }
}
