use linestream::driver::Opened;
use linestream::error::ConfigError;
use linestream::numbering::get_args;
use linestream::numbering::run;
use linestream::numbering::run_source;
use linestream::numbering::Numberer;
use linestream::numbering::Numbering;
use linestream::reader::decode_line;

fn names(list: &[&str]) -> Vec<String> {
    list.iter().map(|s| s.to_string()).collect()
}

fn number(mode: Numbering, data: &[u8]) -> String {
    Numberer::new(mode).number_source(data).text
}

#[test]
fn skips_bad_file() {
    let bad = "Xq7Lm2a";
    let expected = format!("{}: No such file or directory (os error 2)", bad);
    let config = get_args(names(&[bad]), false, false).unwrap();
    let output = run(
        &config,
        &vec![Opened::Failure("No such file or directory (os error 2)".to_string())],
    );
    assert_eq!(output.out, "");
    assert_eq!(output.err, vec![expected]);
}

#[test]
fn numbering_refuses_both_modes() {
    let refused = get_args(names(&["a"]), true, true).unwrap_err();
    assert_eq!(refused, ConfigError::NumberWithNonblank);
    assert_eq!(
        refused.message(),
        "the argument '--number-nonblank' (-b) cannot be used with '--number' (-n)"
    );
}

#[test]
fn numbering_modes_from_switches() {
    let config = get_args(Vec::new(), false, false).unwrap();
    assert_eq!(config.files, vec!["-".to_string()]);
    assert_eq!(config.mode(), Numbering::Off);
    assert_eq!(get_args(names(&["a"]), true, false).unwrap().mode(), Numbering::All);
    assert_eq!(get_args(names(&["a"]), false, true).unwrap().mode(), Numbering::NonBlank);
}

#[test]
fn number_all_of_empty_source_writes_nothing() {
    assert_eq!(number(Numbering::All, b""), "");
    assert_eq!(number(Numbering::NonBlank, b""), "");
    assert_eq!(number(Numbering::Off, b""), "");
}

#[test]
fn number_all_of_single_blank_line() {
    let mut numberer = Numberer::new(Numbering::All);
    let text = numberer.number_line(&decode_line(b"").unwrap());
    assert_eq!(text, "1 ");
    assert_eq!(numberer.next, 2);
    assert_eq!(number(Numbering::All, b"\n"), "1 \n");
}

#[test]
fn number_nonblank_skips_blank_lines() {
    let mut numberer = Numberer::new(Numbering::NonBlank);
    let lines: Vec<String> = ["a", "", "b"]
        .iter()
        .map(|line| numberer.number_line(&decode_line(line.as_bytes()).unwrap()))
        .collect();
    assert_eq!(lines, vec!["1 a".to_string(), "".to_string(), "2 b".to_string()]);
    assert_eq!(numberer.next, 3);
    assert_eq!(number(Numbering::NonBlank, b"a\n\nb\n"), "1 a\n\n2 b\n");
    assert_eq!(number(Numbering::NonBlank, b"a\r\n\r\nb"), "1 a\r\n\r\n2 b");
}

#[test]
fn number_all_counts_every_line() {
    assert_eq!(number(Numbering::All, b"a\n\nb\n"), "1 a\n2 \n3 b\n");
    let text = number(Numbering::All, b"1\n2\n3\n4\n5\n6\n7\n8\n9\n10\n11");
    assert!(text.ends_with("9 9\n10 10\n11 11"));
}

#[test]
fn numbering_off_passes_lines_through() {
    let data = "one\r\n\n  two \nthr\u{e9}e".as_bytes();
    let mut numberer = Numberer::new(Numbering::Off);
    let numbered = numberer.number_source(data);
    assert_eq!(numbered.text.as_bytes(), data);
    assert_eq!(numbered.malformed, 0);
    assert_eq!(numberer.next, 1);
}

#[test]
fn numbering_leaves_malformed_lines_out() {
    let mut numberer = Numberer::new(Numbering::All);
    let numbered = numberer.number_source(b"a\n\xff\nb\n");
    assert_eq!(numbered.text, "1 a\n2 b\n");
    assert_eq!(numbered.malformed, 1);
    assert_eq!(numberer.next, 3);
}

#[test]
fn numbers_run_on_across_sources() {
    let config = get_args(names(&["a", "b", "c"]), true, false).unwrap();
    let inputs = vec![
        Opened::Stream(b"x\ny\n".to_vec()),
        Opened::Failure("denied".to_string()),
        Opened::Stream(b"z\n".to_vec()),
    ];
    let output = run(&config, &inputs);
    assert_eq!(output.out, "1 x\n2 y\n3 z\n");
    assert_eq!(output.err, vec!["b: denied".to_string()]);
}

#[test]
fn numbering_goes_on_after_missing_source() {
    let config = get_args(names(&["real.txt", "missing.txt"]), false, true).unwrap();
    let inputs = vec![
        Opened::Stream(b"first\n\nsecond\n".to_vec()),
        Opened::Failure("No such file or directory (os error 2)".to_string()),
    ];
    let output = run(&config, &inputs);
    assert_eq!(output.out, "1 first\n\n2 second\n");
    assert_eq!(output.err, vec!["missing.txt: No such file or directory (os error 2)".to_string()]);
}

#[test]
fn plain_run_writes_sources_one_after_the_other() {
    let config = get_args(names(&["a", "b"]), false, false).unwrap();
    let inputs = vec![Opened::Stream(b"x\ny".to_vec()), Opened::Stream(b"z\n".to_vec())];
    let output = run(&config, &inputs);
    assert_eq!(output.out, "x\nyz\n");
    assert!(output.err.is_empty());
}

#[test]
fn numbering_source_by_source() {
    let config = get_args(names(&["a", "b"]), true, false).unwrap();
    let mut numberer = Numberer::new(config.mode());
    let first = run_source(&config, 0, &mut numberer, &Opened::Stream(b"x\ny\n".to_vec()));
    assert_eq!(first.out, "1 x\n2 y\n");
    assert_eq!(numberer.next, 3);
    let failed = run_source(&config, 1, &mut numberer, &Opened::Failure("denied".to_string()));
    assert_eq!(failed.err, vec!["b: denied".to_string()]);
    assert_eq!(numberer.next, 3);
    let second = run_source(&config, 1, &mut numberer, &Opened::Stream(b"\xff\nz".to_vec()));
    assert_eq!(second.out, "3 z");
    assert_eq!(second.err, vec!["b: stream did not contain valid UTF-8".to_string()]);
    assert_eq!(numberer.next, 4);
}
