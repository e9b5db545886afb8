use adventkit::day02;
use adventkit::day05;
use adventkit::day12::IntegerExtractor;
use adventkit::day16::solve1 as fft_solve1;
use adventkit::cpu::word::Word;
use adventkit::text::{i64_to_string, parse_i64, split_char, trim_str, u64_to_string};

#[test]
fn numbers_render_in_decimal() {
    assert_eq!(u64_to_string(0), "0");
    assert_eq!(u64_to_string(907), "907");
    assert_eq!(i64_to_string(-45), "-45");
    assert_eq!(i64_to_string(i64::MIN), "-9223372036854775808");
    assert_eq!(i64_to_string(i64::MAX), "9223372036854775807");
}

#[test]
fn literals_parse_and_junk_does_not() {
    assert_eq!(parse_i64("42"), Some(42));
    assert_eq!(parse_i64("+42"), Some(42));
    assert_eq!(parse_i64("-42"), Some(-42));
    assert_eq!(parse_i64("-9223372036854775808"), Some(i64::MIN));
    assert_eq!(parse_i64("9223372036854775807"), Some(i64::MAX));
    assert_eq!(parse_i64("9223372036854775808"), None);
    assert_eq!(parse_i64(""), None);
    assert_eq!(parse_i64("-"), None);
    assert_eq!(parse_i64(" 42"), None);
    assert_eq!(parse_i64("4x2"), None);
}

#[test]
fn splitting_and_trimming_behave() {
    assert_eq!(split_char("a,b,,c", ','), vec!["a", "b", "", "c"]);
    assert_eq!(split_char("", ','), vec![""]);
    assert_eq!(trim_str("  spaced\tout \r\n"), "spaced\tout");
    assert_eq!(trim_str(""), "");
    assert_eq!(trim_str("   "), "");
}

#[test]
fn extractor_finds_embedded_integers() {
    let ex = IntegerExtractor::new();
    assert_eq!(
        ex.get_integers("<x=-1, y=0, z=2>").expect("in range"),
        vec![-1, 0, 2]
    );
    assert_eq!(ex.get_integers("no digits here").expect("in range"), vec![]);
    assert!(ex.get_integers("x=99999999999999999999").is_err());
}

#[test]
fn noun_and_verb_are_patched_before_the_run() {
    // from a day-2-style check: patching 12 and 2 changes the answer cell
    let program = [1, 0, 0, 0, 99].iter().map(|n| Word(*n)).collect::<Vec<_>>();
    let answer = day02::run_program(&program, Word(1), Word(1), 1_000_000)
        .expect("program should not fault")
        .expect("program should halt");
    // mem = [1, 1, 1, 0, 99]: 1 + 1 stored at 0
    assert_eq!(answer, Word(2));
}

#[test]
fn diagnostic_run_collects_all_output() {
    let program = [3, 0, 4, 0, 99].iter().map(|n| Word(*n)).collect::<Vec<_>>();
    let out = day05::run_program(&program, Word(42), 1_000_000)
        .expect("program should not fault")
        .expect("program should halt");
    assert_eq!(out, vec![Word(42)]);
}

#[test]
fn fft_message_prefix_renders_as_text() {
    let digits: Vec<i32> = "80871224585914546619083218645595"
        .chars()
        .map(|c| c.to_digit(10).unwrap() as i32)
        .collect();
    assert_eq!(fft_solve1(&digits), "24176176");
}
