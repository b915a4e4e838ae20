use imdirdiff::flip::find_mean_capture;
use imdirdiff::flip::flip_args;
use imdirdiff::flip::flip_score_from_stdout;
use imdirdiff::Config;
use imdirdiff::ImDirDiffError;
use imdirdiff::SCORE_ONE;

#[test]
fn mean_line_yields_complement_score() {
    let r = flip_score_from_stdout("tool output\nMean: 0.125\nmore").unwrap();
    assert_eq!(r.micros, 875_000);
}

#[test]
fn mean_in_surrounding_text() {
    let r = flip_score_from_stdout("stats: Mean: 0.125 (weighted)").unwrap();
    assert_eq!(r.micros, 875_000);
}

#[test]
fn trailing_dots_join_the_capture_and_spoil_it() {
    let e = flip_score_from_stdout("Mean: 0.125...").unwrap_err();
    assert!(matches!(e, ImDirDiffError::FlipOutputParseError));
}

#[test]
fn missing_mean_is_a_parse_error() {
    let e = flip_score_from_stdout("no metric here").unwrap_err();
    assert!(matches!(e, ImDirDiffError::FlipOutputParseError));
}

#[test]
fn marker_without_number_is_a_parse_error() {
    let e = flip_score_from_stdout("Mean: oops").unwrap_err();
    assert!(matches!(e, ImDirDiffError::FlipOutputParseError));
}

#[test]
fn two_dots_are_a_parse_error() {
    let e = flip_score_from_stdout("Mean: 1.2.3").unwrap_err();
    assert!(matches!(e, ImDirDiffError::FlipOutputParseError));
}

#[test]
fn dot_alone_is_a_parse_error() {
    let e = flip_score_from_stdout("Mean: .").unwrap_err();
    assert!(matches!(e, ImDirDiffError::FlipOutputParseError));
}

#[test]
fn zero_mean_scores_one() {
    let r = flip_score_from_stdout("Mean: 0").unwrap();
    assert_eq!(r.micros, SCORE_ONE);
    assert_eq!(r.micros, 1_000_000);
}

#[test]
fn mean_above_one_scores_negative() {
    let r = flip_score_from_stdout("Mean: 2.5").unwrap();
    assert_eq!(r.micros, 1_000_000 - 2_500_000);
}

#[test]
fn first_match_wins() {
    let r = flip_score_from_stdout("Mean: abc Mean: 0.5").unwrap();
    assert_eq!(r.micros, 500_000);
    let r2 = flip_score_from_stdout("Mean: 0.25 Mean: 0.5").unwrap();
    assert_eq!(r2.micros, 750_000);
}

#[test]
fn fractional_digits_beyond_six_are_dropped() {
    let r = flip_score_from_stdout("Mean: 0.1234567").unwrap();
    assert_eq!(r.micros, 1_000_000 - 123_456);
}

#[test]
fn leading_dot_and_trailing_dot_parse() {
    assert_eq!(flip_score_from_stdout("Mean: .5").unwrap().micros, 500_000);
    assert_eq!(flip_score_from_stdout("Mean: 5.").unwrap().micros, 1_000_000 - 5_000_000);
}

#[test]
fn capture_bounds_cover_the_digit_run() {
    let text = "Mean: 0.125 rest";
    let (from, to) = find_mean_capture(text).unwrap();
    assert_eq!(&text[from..to], "0.125");
    assert!(find_mean_capture("nothing").is_none());
}

#[test]
fn flip_invocation_arguments() {
    let cfg = Config::standard();
    let args = flip_args(&cfg, &"dirA".to_string(), &"dirB".to_string(), &"sub/x.png".to_string());
    assert_eq!(
        args,
        vec![
            "-r".to_string(),
            "dirA/sub/x.png".to_string(),
            "-t".to_string(),
            "dirB/sub/x.png".to_string(),
            "-d".to_string(),
            "./imdirdiff-out/diff/sub".to_string(),
            "-b".to_string(),
            "x".to_string(),
        ]
    );
}
