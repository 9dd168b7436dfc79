use lambda_dx::simai_source::{parse_maidata_source, parse_simai_source};
use lambda_dx::text::{chars_of, decimal_text, parse_u32_in, trim_bounds};

#[test]
fn maidata_header() {
    let text = "&title= Demo \n&artist=Me\r\n  &first=0.5\n&wholebpm=150\n&lv_2=3\n&lv_5=\n&inote_5=(150){4}1,\n&inote_2=(150){4}2,\n&inote_2=E\nplain line\n&broken\n&lv_x=9\n";
    let h = parse_maidata_source(text).unwrap();
    assert_eq!(h.title, "Demo");
    assert_eq!(h.artist, "Me");
    assert_eq!(h.first_text.as_deref(), Some("0.5"));
    assert_eq!(h.wholebpm_text.as_deref(), Some("150"));
    assert_eq!(h.levels, vec![(2, "3".to_string()), (5, "Lv.5".to_string())]);
    assert_eq!(h.source_text, text);
}

#[test]
fn later_lines_win() {
    let h = parse_maidata_source("&title=A\n&title=B\n&lv_+7=x\n&lv_7=y\n&inote_+07=1,\n").unwrap();
    assert_eq!(h.title, "B");
    assert_eq!(h.levels, vec![(7, "y".to_string())]);
}

#[test]
fn no_chart_is_an_error() {
    assert_eq!(
        parse_maidata_source("&title=T\n&lv_1=2\n&inote_-1=1,\n").err().unwrap(),
        "Simai file contains no &inote_N= charts"
    );
}

#[test]
fn bare_chart_source() {
    let h = parse_simai_source("  (120){4}1,2,E\n").unwrap();
    assert_eq!(h.levels, vec![(0, "Lv.0".to_string())]);
    assert_eq!(h.source_text, "&first=0\n&inote_0=(120){4}1,2,E\n");
    assert!(h.first_text.is_none());
    let h = parse_simai_source("&title=X\n&inote_3=1,\n").unwrap();
    assert_eq!(h.title, "X");
    assert_eq!(h.levels, vec![(3, "Lv.3".to_string())]);
}

#[test]
fn text_helpers() {
    let v = chars_of(" \t ab c \u{3000}");
    let (a, b) = trim_bounds(&v, 0, v.len());
    let t: String = v[a..b].iter().collect();
    assert_eq!(t, "ab c");
    let n = chars_of("+4294967295");
    assert_eq!(parse_u32_in(&n, 0, n.len()), Some(4294967295));
    let n = chars_of("4294967296");
    assert_eq!(parse_u32_in(&n, 0, n.len()), None);
    let n = chars_of("+");
    assert_eq!(parse_u32_in(&n, 0, n.len()), None);
    assert_eq!(decimal_text(0), "0");
    assert_eq!(decimal_text(907), "907");
}
