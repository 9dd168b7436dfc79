use lambda_dx::cli::{help, parse, LaunchArgs};

fn args(list: &[&str]) -> Result<Option<LaunchArgs>, String> {
    parse(list.iter().map(|s| s.to_string()).collect())
}

#[test]
fn positional_chart_and_audio() {
    let a = args(&["/songs/foo", "track.mp3"]).unwrap().unwrap();
    assert_eq!(a.chart, Some("/songs/foo".to_string()));
    assert_eq!(a.audio, Some("track.mp3".to_string()));
    assert_eq!(a.diff, None);
}

#[test]
fn flags_parse() {
    let a = args(&["-c", "c.json", "-a", "a.wav", "-d", "4"])
        .unwrap()
        .unwrap();
    assert_eq!(a.chart, Some("c.json".to_string()));
    assert_eq!(a.audio, Some("a.wav".to_string()));
    assert_eq!(a.diff, Some(4));
}

#[test]
fn help_returns_none() {
    assert!(args(&["--help"]).unwrap().is_none());
}

#[test]
fn errors_on_unknown_and_missing_values() {
    assert!(args(&["--nope"]).is_err());
    assert!(args(&["--chart"]).is_err());
    assert!(args(&["a", "b", "c"]).is_err());
    assert!(args(&["--diff", "x"]).is_err());
}

#[test]
fn error_messages_name_the_argument() {
    assert_eq!(args(&["--nope"]).unwrap_err(), "unknown option: --nope");
    assert_eq!(args(&["--chart"]).unwrap_err(), "--chart needs a value");
    assert_eq!(args(&["a", "b", "c"]).unwrap_err(), "unexpected extra argument: c");
    assert_eq!(args(&["--diff", "x"]).unwrap_err(), "invalid --diff value: x");
}

#[test]
fn diff_values_follow_i32_rules() {
    assert_eq!(args(&["-d", "-3"]).unwrap().unwrap().diff, Some(-3));
    assert_eq!(args(&["-d", "+7"]).unwrap().unwrap().diff, Some(7));
    assert_eq!(args(&["-d", "2147483647"]).unwrap().unwrap().diff, Some(i32::MAX));
    assert_eq!(args(&["-d", "-2147483648"]).unwrap().unwrap().diff, Some(i32::MIN));
    assert!(args(&["-d", "2147483648"]).is_err());
    assert!(args(&["-d", "-"]).is_err());
    assert!(args(&["-d", ""]).is_err());
    assert!(args(&["-d", "4x"]).is_err());
}

#[test]
fn dump_flag_and_lone_dash() {
    let a = args(&["--dump", "-"]).unwrap().unwrap();
    assert!(a.dump);
    assert_eq!(a.chart, Some("-".to_string()));
    let b = args(&[]).unwrap().unwrap();
    assert!(!b.dump && b.chart.is_none() && b.audio.is_none() && b.diff.is_none());
    assert!(args(&["x", "-h", "--nope"]).unwrap().is_none());
}

#[test]
fn help_text_lists_options() {
    let h = help();
    assert!(h.starts_with("LambdaDX Pad Preview"));
    assert!(h.contains("--diff <N>"));
}
