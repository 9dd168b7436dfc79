//! Reading the header of a Simai `maidata.txt`: title, artist, offset and
//! tempo texts, and the list of difficulties with their labels.

use vstd::prelude::*;
use vstd::string::StrSliceExecFns;

use crate::model::{contains_text, contains_text_spec};
use crate::simai_io::no_charts_message;
use crate::text::{
    chars_of, decimal, decimal_text, find_char, find_in, lemma_find_char_bounds, parse_u32_in,
    parse_u32_spec, range_is, trim, trim_bounds,
};

verus! {

/// The header of a Simai source.
#[derive(Debug, Clone)]
pub struct MaidataHeader {
    pub title: String,
    pub artist: String,
    /// The text of the last `&first=` value.
    pub first_text: Option<String>,
    /// The text of the last `&wholebpm=` value.
    pub wholebpm_text: Option<String>,
    /// Difficulty keys in ascending order, with their labels.
    pub levels: Vec<(u32, String)>,
    /// The whole source the header was read from.
    pub source_text: String,
}

/// What the header lines read so far say.
pub struct HeaderState {
    pub title: Seq<char>,
    pub artist: Seq<char>,
    pub first: Option<Seq<char>>,
    pub wholebpm: Option<Seq<char>>,
    pub labels: Map<u32, Seq<char>>,
    pub charts: Set<u32>,
}

pub open spec fn empty_header() -> HeaderState {
    HeaderState {
        title: Seq::empty(),
        artist: Seq::empty(),
        first: None,
        wholebpm: None,
        labels: Map::empty(),
        charts: Set::empty(),
    }
}

/// The header after reading one line. A line counts when, trimmed, it starts
/// with `&` and has an `=`; the trimmed text before the `=` is the key and
/// the trimmed text after it the value. `&lv_N` labels level `N`, `&inote_N`
/// declares chart `N`; other keys are ignored.
pub open spec fn header_step(st: HeaderState, line: Seq<char>) -> HeaderState {
    let t = trim(line);
    let e = find_char(t, '=', 0);
    if t.len() == 0 || t[0] != '&' || e >= t.len() {
        st
    } else {
        let key = trim(t.subrange(0, e));
        let value = trim(t.subrange(e + 1, t.len() as int));
        if key == "&title"@ {
            HeaderState { title: value, ..st }
        } else if key == "&artist"@ {
            HeaderState { artist: value, ..st }
        } else if key == "&first"@ {
            HeaderState { first: Some(value), ..st }
        } else if key == "&wholebpm"@ {
            HeaderState { wholebpm: Some(value), ..st }
        } else if key.len() >= 4 && key.subrange(0, 4) == "&lv_"@ {
            match parse_u32_spec(key.subrange(4, key.len() as int)) {
                Some(l) => HeaderState { labels: st.labels.insert(l, value), ..st },
                None => st,
            }
        } else if key.len() >= 7 && key.subrange(0, 7) == "&inote_"@ {
            match parse_u32_spec(key.subrange(7, key.len() as int)) {
                Some(l) => HeaderState { charts: st.charts.insert(l), ..st },
                None => st,
            }
        } else {
            st
        }
    }
}

/// The header after reading the lines of `s` from position `i` on.
pub open spec fn header_from(s: Seq<char>, i: int, st: HeaderState) -> HeaderState
    decreases s.len() - i,
{
    if i < 0 || i > s.len() {
        st
    } else {
        let e = find_char(s, '\n', i);
        proof {
            lemma_find_char_bounds(s, '\n', i);
        }
        let next = header_step(st, s.subrange(i, e));
        if e >= s.len() {
            next
        } else {
            header_from(s, e + 1, next)
        }
    }
}

/// The header of the whole text.
pub open spec fn header_of(s: Seq<char>) -> HeaderState {
    header_from(s, 0, empty_header())
}

/// The label of chart `l`: its `&lv_` text when it is not empty, else
/// `Lv.` and the number.
pub open spec fn level_label(labels: Map<u32, Seq<char>>, l: u32) -> Seq<char> {
    if labels.contains_key(l) && labels[l].len() > 0 {
        labels[l]
    } else {
        "Lv."@ + decimal(l as nat)
    }
}

pub open spec fn opt_text(o: Option<String>) -> Option<Seq<char>> {
    match o {
        Some(s) => Some(s@),
        None => None,
    }
}

/// `levels` lists the charts of `st` once each in ascending order, with
/// their labels.
pub open spec fn levels_of(levels: Seq<(u32, String)>, st: HeaderState) -> bool {
    &&& forall|i: int, j: int| 0 <= i < j < levels.len() ==> (#[trigger] levels[i]).0 < (#[trigger] levels[j]).0
    &&& forall|i: int| 0 <= i < levels.len() ==> st.charts.contains(#[trigger] levels[i].0)
    &&& forall|i: int| 0 <= i < levels.len() ==> (#[trigger] levels[i]).1@ == level_label(st.labels, levels[i].0)
    &&& forall|l: u32| st.charts.contains(l) ==> exists|i: int| 0 <= i < levels.len() && (#[trigger] levels[i]).0 == l
}

/// The labels kept so far: the labelled levels, each with its text.
pub open spec fn labels_match(h: Map<u32, String>, m: Map<u32, Seq<char>>) -> bool {
    &&& forall|l: u32| #[trigger] h.contains_key(l) <==> m.contains_key(l)
    &&& forall|l: u32| #[trigger] h.contains_key(l) ==> h[l]@ == m[l]
}

/// The charts kept so far, ascending and once each.
pub open spec fn charts_match(v: Seq<u32>, s: Set<u32>) -> bool {
    &&& forall|i: int, j: int| 0 <= i < j < v.len() ==> #[trigger] v[i] < #[trigger] v[j]
    &&& forall|i: int| 0 <= i < v.len() ==> s.contains(#[trigger] v[i])
    &&& forall|l: u32| s.contains(l) ==> exists|i: int| 0 <= i < v.len() && #[trigger] v[i] == l
}

fn set_label(
    labels: &mut std::collections::HashMap<u32, String>,
    l: u32,
    value: String,
    Ghost(m): Ghost<Map<u32, Seq<char>>>,
)
    requires
        labels_match(old(labels)@, m),
    ensures
        labels_match(final(labels)@, m.insert(l, value@)),
{
    broadcast use vstd::std_specs::hash::group_hash_axioms;
    labels.insert(l, value);
}

fn add_chart(charts: &mut Vec<u32>, l: u32, Ghost(s): Ghost<Set<u32>>)
    requires
        charts_match(old(charts)@, s),
    ensures
        charts_match(final(charts)@, s.insert(l)),
{
    let mut p: usize = 0;
    while p < charts.len() && charts[p] < l
        invariant
            p <= charts@.len(),
            charts_match(charts@, s),
            forall|i: int| 0 <= i < p ==> #[trigger] charts@[i] < l,
        decreases charts.len() - p,
    {
        p = p + 1;
    }
    if p < charts.len() && charts[p] == l {
        assert(s.insert(l) =~= s);
        return;
    }
    let ghost before = charts@;
    charts.insert(p, l);
    assert(charts@ == before.insert(p as int, l));
    let ghost s2 = s.insert(l);
    assert forall|i: int, j: int| 0 <= i < j < charts@.len() implies #[trigger] charts@[i] < #[trigger] charts@[j] by {
        if j < p {
            assert(charts@[i] == before[i] && charts@[j] == before[j]);
        } else if j == p {
            assert(charts@[i] == before[i]);
        } else if i < p {
            assert(charts@[i] == before[i] && charts@[j] == before[j - 1]);
            assert(before[j - 1] >= l);
        } else if i == p {
            assert(charts@[j] == before[j - 1]);
            assert(before[p as int] > l);
            if j - 1 > p {
                assert(before[p as int] < before[j - 1]);
            }
        } else {
            assert(charts@[i] == before[i - 1] && charts@[j] == before[j - 1]);
        }
    }
    assert forall|i: int| 0 <= i < charts@.len() implies s2.contains(#[trigger] charts@[i]) by {
        if i < p {
            assert(charts@[i] == before[i]);
        } else if i > p {
            assert(charts@[i] == before[i - 1]);
        }
    }
    assert forall|x: u32| s2.contains(x) implies exists|i: int| 0 <= i < charts@.len() && #[trigger] charts@[i] == x by {
        if x == l {
            assert(charts@[p as int] == l);
        } else {
            let j = choose|i: int| 0 <= i < before.len() && #[trigger] before[i] == x;
            if j < p {
                assert(charts@[j] == before[j]);
            } else {
                assert(charts@[j + 1] == before[j]);
            }
        }
    }
}

fn find_label(labels: &std::collections::HashMap<u32, String>, l: u32, Ghost(m): Ghost<Map<u32, Seq<char>>>) -> (r: String)
    requires
        labels_match(labels@, m),
    ensures
        r@ == level_label(m, l),
{
    broadcast use vstd::std_specs::hash::group_hash_axioms;
    match labels.get(&l) {
        Some(label) => {
            if label.unicode_len() > 0 {
                return label.clone();
            }
        },
        None => {},
    }
    let mut s = String::from_str("Lv.");
    let d = decimal_text(l);
    s.append(d.as_str());
    s
}

/// Read the header of a maidata text. An error when it declares no chart.
pub fn parse_maidata_source(text: &str) -> (r: Result<MaidataHeader, String>)
    ensures
        r is Err <==> header_of(text@).charts == Set::<u32>::empty(),
        r matches Err(e) ==> e@ == no_charts_message(),
        r matches Ok(h) ==> maidata_header_of(h, text@),
{
    let v = chars_of(text);
    let n = v.len();
    let mut title = String::new();
    let mut artist = String::new();
    let mut first_text: Option<String> = None;
    let mut wholebpm_text: Option<String> = None;
    let mut labels: std::collections::HashMap<u32, String> = std::collections::HashMap::new();
    let mut charts: Vec<u32> = Vec::new();
    let ghost mut st = empty_header();
    let mut i: usize = 0;
    assert(labels_match(labels@, st.labels));
    loop
        invariant_except_break
            i <= n,
            header_of(v@) == header_from(v@, i as int, st),
        invariant
            n == v@.len(),
            v@ == text@,
            title@ == st.title,
            artist@ == st.artist,
            opt_text(first_text) == st.first,
            opt_text(wholebpm_text) == st.wholebpm,
            labels_match(labels@, st.labels),
            charts_match(charts@, st.charts),
        ensures
            header_of(v@) == st,
        decreases n - i,
    {
        let e = find_in(&v, '\n', i, n);
        proof {
            lemma_find_char_bounds(v@, '\n', i as int);
            assert(find_char(v@, '\n', i as int) == e) by {
                lemma_find_eq(v@, '\n', i as int, n as int);
            }
        }
        let ghost line = v@.subrange(i as int, e as int);
        let ghost before = st;
        let (a, b) = trim_bounds(&v, i, e);
        let ghost t = trim(line);
        assert(t == v@.subrange(a as int, b as int));
        if a < b && v[a] == '&' {
            let q = find_in(&v, '=', a, b);
            if q < b {
                let (ka, kb) = trim_bounds(&v, a, q);
                let (va, vb) = trim_bounds(&v, q + 1, b);
                assert(t.subrange(0, q - a) =~= v@.subrange(a as int, q as int));
                assert(t.subrange(q - a + 1, t.len() as int) =~= v@.subrange(q + 1, b as int));
                let ghost key = v@.subrange(ka as int, kb as int);
                let ghost value = v@.subrange(va as int, vb as int);
                let value_text = String::from_str(text.substring_char(va, vb));
                if range_is(&v, ka, kb, "&title") {
                    title = value_text;
                    proof { st = HeaderState { title: value, ..st }; }
                } else if range_is(&v, ka, kb, "&artist") {
                    artist = value_text;
                    proof { st = HeaderState { artist: value, ..st }; }
                } else if range_is(&v, ka, kb, "&first") {
                    first_text = Some(value_text);
                    proof { st = HeaderState { first: Some(value), ..st }; }
                } else if range_is(&v, ka, kb, "&wholebpm") {
                    wholebpm_text = Some(value_text);
                    proof { st = HeaderState { wholebpm: Some(value), ..st }; }
                } else if kb - ka >= 4 && range_is(&v, ka, ka + 4, "&lv_") {
                    assert(key.subrange(0, 4) =~= v@.subrange(ka as int, ka + 4));
                    assert(key.subrange(4, key.len() as int) =~= v@.subrange(ka + 4, kb as int));
                    if let Some(l) = parse_u32_in(&v, ka + 4, kb) {
                        set_label(&mut labels, l, value_text, Ghost(st.labels));
                        proof { st = HeaderState { labels: st.labels.insert(l, value), ..st }; }
                    }
                } else if kb - ka >= 7 && range_is(&v, ka, ka + 7, "&inote_") {
                    assert(key.subrange(0, 7) =~= v@.subrange(ka as int, ka + 7));
                    assert(key.subrange(7, key.len() as int) =~= v@.subrange(ka + 7, kb as int));
                    if let Some(l) = parse_u32_in(&v, ka + 7, kb) {
                        add_chart(&mut charts, l, Ghost(st.charts));
                        proof { st = HeaderState { charts: st.charts.insert(l), ..st }; }
                    }
                } else {
                    assert(!(key.len() >= 4 && key.subrange(0, 4) == "&lv_"@)) by {
                        if key.len() >= 4 {
                            assert(key.subrange(0, 4) =~= v@.subrange(ka as int, ka + 4));
                        }
                    }
                    assert(!(key.len() >= 7 && key.subrange(0, 7) == "&inote_"@)) by {
                        if key.len() >= 7 {
                            assert(key.subrange(0, 7) =~= v@.subrange(ka as int, ka + 7));
                        }
                    }
                }
            }
        }
        assert(st == header_step(before, line));
        if e >= n {
            break;
        }
        i = e + 1;
    }
    if charts.len() == 0 {
        assert(st.charts =~= Set::<u32>::empty()) by {
            assert forall|l: u32| !st.charts.contains(l) by {
                if st.charts.contains(l) {
                    let j = choose|i: int| 0 <= i < charts@.len() && #[trigger] charts@[i] == l;
                }
            }
        }
        return Err(String::from_str("Simai file contains no &inote_N= charts"));
    }
    assert(st.charts.contains(charts@[0]));
    let mut levels: Vec<(u32, String)> = Vec::new();
    let mut k: usize = 0;
    while k < charts.len()
        invariant
            k <= charts@.len(),
            charts_match(charts@, st.charts),
            labels_match(labels@, st.labels),
            levels@.len() == k,
            forall|j: int| 0 <= j < k ==> (#[trigger] levels@[j]).0 == charts@[j],
            forall|j: int| 0 <= j < k ==> (#[trigger] levels@[j]).1@ == level_label(st.labels, charts@[j]),
        decreases charts.len() - k,
    {
        let l = charts[k];
        let label = find_label(&labels, l, Ghost(st.labels));
        levels.push((l, label));
        k = k + 1;
    }
    assert(levels_of(levels@, st)) by {
        assert forall|i: int, j: int| 0 <= i < j < levels@.len() implies (#[trigger] levels@[i]).0
            < (#[trigger] levels@[j]).0 by {
            assert(charts@[i] < charts@[j]);
        }
        assert forall|x: u32| st.charts.contains(x) implies exists|i: int|
            0 <= i < levels@.len() && (#[trigger] levels@[i]).0 == x by {
            let j = choose|i: int| 0 <= i < charts@.len() && #[trigger] charts@[i] == x;
            assert(levels@[j].0 == x);
        }
    }
    Ok(MaidataHeader {
        title,
        artist,
        first_text,
        wholebpm_text,
        levels,
        source_text: String::from_str(text),
    })
}

proof fn lemma_find_eq(s: Seq<char>, c: char, i: int, n: int)
    requires
        0 <= i <= n,
        n == s.len(),
    ensures
        i + find_char(s.subrange(i, n), c, 0) == find_char(s, c, i),
    decreases n - i,
{
    lemma_find_shift(s, c, i, 0, n);
}

proof fn lemma_find_shift(s: Seq<char>, c: char, i: int, k: int, n: int)
    requires
        0 <= i,
        0 <= k,
        i + k <= n,
        n == s.len(),
    ensures
        i + find_char(s.subrange(i, n), c, k) == find_char(s, c, i + k),
    decreases n - i - k,
{
    if i + k < n && s[i + k] != c {
        lemma_find_shift(s, c, i, k + 1, n);
    }
}

/// Read a Simai source: a maidata text (one that mentions `&inote_` or
/// `&title=`) by its header; any other text is a bare chart, kept as the
/// chart of level 0 labelled `Lv.0` after a zero offset.
pub fn parse_simai_source(text: &str) -> (r: Result<MaidataHeader, String>)
    ensures
        contains_text_spec(text@, "&inote_"@) || contains_text_spec(text@, "&title="@) ==> match parse_maidata_source_spec(text@) {
            Ok(()) => (r matches Ok(h) && maidata_header_of(h, text@)),
            Err(()) => (r matches Err(e) && e@ == no_charts_message()),
        },
        !(contains_text_spec(text@, "&inote_"@) || contains_text_spec(text@, "&title="@)) ==> (r matches Ok(
            h,
        ) && bare_chart_header(h, text@)),
{
    if contains_text(text, "&inote_") || contains_text(text, "&title=") {
        return parse_maidata_source(text);
    }
    let v = chars_of(text);
    let (a, b) = trim_bounds(&v, 0, v.len());
    assert(v@.subrange(0, v@.len() as int) =~= v@);
    let mut source_text = String::from_str("&first=0\n&inote_0=");
    source_text.append(text.substring_char(a, b));
    source_text.append("\n");
    let mut levels: Vec<(u32, String)> = Vec::new();
    levels.push((0, String::from_str("Lv.0")));
    Ok(MaidataHeader {
        title: String::new(),
        artist: String::new(),
        first_text: None,
        wholebpm_text: None,
        levels,
        source_text,
    })
}

/// The header of a bare chart `s`: no title, artist, offset or tempo, one
/// chart of level 0 labelled `Lv.0`, and a source that gives `s` (trimmed)
/// as that chart after a zero offset.
pub open spec fn bare_chart_header(h: MaidataHeader, s: Seq<char>) -> bool {
    &&& h.title@ == Seq::<char>::empty()
    &&& h.artist@ == Seq::<char>::empty()
    &&& h.first_text is None
    &&& h.wholebpm_text is None
    &&& h.levels@.len() == 1
    &&& h.levels@[0].0 == 0
    &&& h.levels@[0].1@ == "Lv.0"@
    &&& h.source_text@ == "&first=0\n&inote_0="@ + trim(s) + "\n"@
}

/// Whether the header of `s` declares a chart.
pub open spec fn parse_maidata_source_spec(s: Seq<char>) -> Result<(), ()> {
    if header_of(s).charts == Set::<u32>::empty() {
        Err(())
    } else {
        Ok(())
    }
}

/// `h` is the header read from `s`.
pub open spec fn maidata_header_of(h: MaidataHeader, s: Seq<char>) -> bool {
    let st = header_of(s);
    &&& h.title@ == st.title
    &&& h.artist@ == st.artist
    &&& opt_text(h.first_text) == st.first
    &&& opt_text(h.wholebpm_text) == st.wholebpm
    &&& levels_of(h.levels@, st)
    &&& h.source_text@ == s
}

} // verus!
