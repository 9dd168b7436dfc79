use lambda_dx::simai_io::{SimaiChart, SimaiFile, SimaiNote, SlidePattern};
use lambda_dx::simai_write::{chart_text, export_simai_file, render_fragment, ChartStep};

fn slide(start: u8, end: u8, pattern: SlidePattern, reflect: Option<u8>, tapless: bool, chain: Vec<(SlidePattern, u8, Option<u8>, bool)>) -> SimaiNote {
    SimaiNote::Slide {
        measure: 100000,
        start,
        end,
        pattern,
        reflect,
        duration: 25000,
        delay: 25000,
        delay_explicit: false,
        is_break: false,
        is_ex: false,
        is_tapless: tapless,
        chain,
        hi_speed: 0,
    }
}

fn tap(button: u8, is_break: bool, is_star: bool) -> SimaiNote {
    SimaiNote::Tap { measure: 100000, button, is_break, is_ex: false, is_star, hi_speed: 0 }
}

#[test]
fn fragment_orders_kinds_and_merges_star_heads() {
    let notes = vec![
        slide(2, 4, SlidePattern::Line, None, true, vec![]),
        tap(0, true, false),
        SimaiNote::Hold { measure: 100000, button: 3, duration: 25000, is_ex: true, hi_speed: 0 },
        tap(2, false, true),
        SimaiNote::TouchHold { measure: 100000, region: 'B', position: 1, duration: 50000, is_firework: false, hi_speed: 0 },
        SimaiNote::TouchTap { measure: 100000, region: 'C', position: 0, is_firework: true, hi_speed: 0 },
        slide(2, 6, SlidePattern::Right, None, false, vec![]),
    ];
    let fracs = vec![(1, 0), (1, 0), (4, 1), (1, 0), (2, 1), (1, 0), (1, 0)];
    let sfx: Vec<String> = vec!["[4:1]".into(), "".into(), "".into(), "".into(), "".into(), "".into(), "[8:1]".into()];
    assert_eq!(render_fragment(&notes, &fracs, &sfx), "1b/4hx[4:1]/Cf/B2h[2:1]/3-5[4:1]*>7[8:1]");
}

#[test]
fn fragment_marks_tapless_slides_and_writes_chains() {
    let notes = vec![
        slide(0, 4, SlidePattern::BigV, Some(2), true, vec![(SlidePattern::QQ, 6, None, false), (SlidePattern::BigV, 1, Some(7), false)]),
        tap(5, false, true),
    ];
    let fracs = vec![(1, 0), (1, 0)];
    let sfx: Vec<String> = vec!["[150#2:1]".into(), "".into()];
    assert_eq!(render_fragment(&notes, &fracs, &sfx), "6$/1?V35qq7V82[150#2:1]");
}

#[test]
fn empty_step_writes_nothing() {
    assert_eq!(render_fragment(&vec![], &vec![], &vec![]), "");
}

fn simai_file(wholebpm: Option<i64>, charts: Vec<u32>, source_text: &str) -> SimaiFile {
    SimaiFile {
        title: "Song".to_string(),
        artist: "Someone".to_string(),
        first: 0,
        levels: vec![(4, "12".to_string()), (5, "13+".to_string())],
        charts: charts.into_iter().map(|k| (k, SimaiChart { notes: vec![], bpms: vec![] })).collect(),
        wholebpm,
        source_text: source_text.to_string(),
    }
}

#[test]
fn file_text_has_header_levels_and_charts() {
    let f = simai_file(Some(15000000), vec![4, 5], "");
    let texts = vec!["(150){4}1,\nE\n".to_string(), "E\n".to_string()];
    assert_eq!(
        export_simai_file(&f, &"0.5".to_string(), &"150".to_string(), &texts),
        "&title=Song\n&artist=Someone\n&first=0.5\n&wholebpm=150\n&lv_4=12\n&lv_5=13+\n&inote_4=(150){4}1,\nE\n\n&inote_5=E\n\n"
    );
}

#[test]
fn file_text_without_tempo_or_charts() {
    let f = simai_file(None, vec![], "");
    assert_eq!(
        export_simai_file(&f, &"0".to_string(), &"120".to_string(), &vec![]),
        "&title=Song\n&artist=Someone\n&first=0\n&lv_4=12\n&lv_5=13+\n"
    );
    let g = simai_file(None, vec![], "&title=kept");
    assert_eq!(export_simai_file(&g, &"0".to_string(), &"".to_string(), &vec![]), "&title=kept");
}

fn step(bpm_prefix: &str, fragment: &str, divisor: u32, rests: i32, wholes: i32, tick_floor: i64) -> ChartStep {
    ChartStep { bpm_prefix: bpm_prefix.to_string(), fragment: fragment.to_string(), divisor, rests, wholes, tick_floor }
}

#[test]
fn chart_layout_opens_lines_on_new_divisors() {
    let steps = vec![
        step("(150)", "1", 4, 1, 0, 1),
        step("", "2", 4, 3, 1, 1),
        step("", "3", 4, 0, 0, 3),
    ];
    assert_eq!(chart_text(&steps), "(150){4}1,2,,,{1},\n{4}3,\nE\n");
}

#[test]
fn chart_layout_opens_a_line_on_a_new_measure() {
    let steps = vec![step("", "1", 4, 4, 0, 1), step("", "2", 4, 4, 0, 2), step("", "", 4, -1, 0, 2)];
    assert_eq!(chart_text(&steps), "{4}1,,,,\n{4}2,,,,,\nE\n");
    assert_eq!(chart_text(&vec![]), ",\nE\n");
}
