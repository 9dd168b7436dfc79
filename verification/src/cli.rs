//! Command-line options.
//!
//! ```text
//! lambda_dx_pad_preview [CHART] [AUDIO] [--diff N]
//!   -c, --chart <PATH>   chart folder (with chart.json) or JSON file
//!   -a, --audio <PATH>   audio file (mp3/wav); overrides asset/auto-detect
//!   -d, --diff <N>       difficulty number to load (e.g. 4)
//!   -h, --help           print this help
//! ```
//!
//! Positional arguments are accepted for convenience: the first is the chart
//! path, the second the audio path.

use vstd::prelude::*;

verus! {

/// Parsed launch options.
#[derive(Debug, Clone)]
pub struct LaunchArgs {
    /// Chart folder or JSON file to load instead of the bundled default.
    pub chart: Option<String>,
    /// Audio file to use instead of the asset / auto-detected track.
    pub audio: Option<String>,
    /// 1-based difficulty number to pick from the chart.
    pub diff: Option<i32>,
    /// Print the parsed chart (bpms + slides) and exit without opening a window.
    pub dump: bool,
}

/// The mathematical content of [`LaunchArgs`].
pub struct ArgsView {
    pub chart: Option<Seq<char>>,
    pub audio: Option<Seq<char>>,
    pub diff: Option<i32>,
    pub dump: bool,
}

pub open spec fn opt_view(o: Option<String>) -> Option<Seq<char>> {
    match o {
        Some(s) => Some(s@),
        None => None,
    }
}

impl View for LaunchArgs {
    type V = ArgsView;

    open spec fn view(&self) -> ArgsView {
        ArgsView {
            chart: opt_view(self.chart),
            audio: opt_view(self.audio),
            diff: self.diff,
            dump: self.dump,
        }
    }
}

/// The options before any argument is read.
pub open spec fn default_args() -> ArgsView {
    ArgsView { chart: None, audio: None, diff: None, dump: false }
}

/// What parsing a command line comes to.
pub enum ParseOutcome {
    /// `-h` / `--help` was given.
    Help,
    /// Every argument was accepted.
    Parsed(ArgsView),
    /// An argument was rejected, with this message.
    Failed(Seq<char>),
}

// ---------------------------------------------------------------------------
// Integers
// ---------------------------------------------------------------------------

pub open spec fn is_digit(c: char) -> bool {
    '0' <= c && c <= '9'
}

pub open spec fn all_digits(s: Seq<char>) -> bool {
    forall|i: int| 0 <= i < s.len() ==> is_digit(#[trigger] s[i])
}

/// Value of a string of decimal digits.
pub open spec fn digits_value(s: Seq<char>) -> int
    decreases s.len(),
{
    if s.len() == 0 {
        0
    } else {
        digits_value(s.drop_last()) * 10 + (s.last() as int - '0' as int)
    }
}

/// `i32` parsing as `str::parse::<i32>` does it: an optional `+` or `-`, then
/// at least one ASCII digit, and a value that fits in `i32`.
pub open spec fn spec_parse_i32(s: Seq<char>) -> Option<i32> {
    let neg = s.len() > 0 && s[0] == '-';
    let body = if s.len() > 0 && (s[0] == '-' || s[0] == '+') {
        s.drop_first()
    } else {
        s
    };
    if body.len() == 0 || !all_digits(body) {
        None
    } else {
        let v = if neg { -digits_value(body) } else { digits_value(body) };
        if i32::MIN <= v && v <= i32::MAX {
            Some(v as i32)
        } else {
            None
        }
    }
}

proof fn lemma_digits_value_nonneg(s: Seq<char>)
    requires
        all_digits(s),
    ensures
        digits_value(s) >= 0,
    decreases s.len(),
{
    if s.len() > 0 {
        assert(all_digits(s.drop_last())) by {
            assert forall|i: int| 0 <= i < s.drop_last().len() implies is_digit(
                #[trigger] s.drop_last()[i],
            ) by {
                assert(s.drop_last()[i] == s[i]);
            }
        }
        lemma_digits_value_nonneg(s.drop_last());
        assert(is_digit(s[s.len() - 1]));
    }
}

/// Largest magnitude tracked while reading digits; anything at or above it
/// is out of range for `i32` whatever the sign.
const DIGITS_CAP: i64 = 2147483649;

/// Parse a decimal `i32`, with the rules of `str::parse::<i32>`.
pub fn parse_i32(s: &String) -> (r: Option<i32>)
    ensures
        r == spec_parse_i32(s@),
{
    let t = s.as_str();
    let n = t.unicode_len();
    let mut start: usize = 0;
    let mut neg = false;
    if n > 0 {
        let c0 = t.get_char(0);
        if c0 == '-' {
            neg = true;
            start = 1;
        } else if c0 == '+' {
            start = 1;
        }
    }
    if start >= n {
        return None;
    }
    let ghost body = s@.subrange(start as int, n as int);
    assert(body =~= (if s@.len() > 0 && (s@[0] == '-' || s@[0] == '+') {
        s@.drop_first()
    } else {
        s@
    }));
    let mut acc: i64 = 0;
    let mut i: usize = start;
    while i < n
        invariant
            start <= i <= n,
            n == s@.len(),
            t@ == s@,
            body == s@.subrange(start as int, n as int),
            body == (if s@.len() > 0 && (s@[0] == '-' || s@[0] == '+') {
                s@.drop_first()
            } else {
                s@
            }),
            neg == (s@.len() > 0 && s@[0] == '-'),
            start < n,
            0 <= acc <= DIGITS_CAP,
            all_digits(s@.subrange(start as int, i as int)),
            digits_value(s@.subrange(start as int, i as int)) >= DIGITS_CAP ==> acc == DIGITS_CAP,
            digits_value(s@.subrange(start as int, i as int)) < DIGITS_CAP ==> acc == digits_value(
                s@.subrange(start as int, i as int),
            ),
        decreases n - i,
    {
        let c = t.get_char(i);
        let ghost prefix = s@.subrange(start as int, i as int);
        let ghost next = s@.subrange(start as int, i + 1);
        if !('0' <= c && c <= '9') {
            assert(!all_digits(body)) by {
                let k = i - start;
                assert(body[k as int] == s@[i as int]);
                assert(!is_digit(body[k as int]));
            }
            return None;
        }
        assert(next.drop_last() =~= prefix);
        assert(next.last() == c);
        assert(all_digits(next)) by {
            assert forall|k: int| 0 <= k < next.len() implies is_digit(#[trigger] next[k]) by {
                if k < prefix.len() {
                    assert(next[k] == prefix[k]);
                }
            }
        }
        let d = (c as u32 - '0' as u32) as i64;
        proof { lemma_digits_value_nonneg(prefix); }
        let grown = acc * 10 + d;
        acc = if grown >= DIGITS_CAP { DIGITS_CAP } else { grown };
        i = i + 1;
    }
    assert(s@.subrange(start as int, n as int) =~= body);
    if neg {
        if acc <= 2147483648 {
            Some((0 - acc) as i32)
        } else {
            None
        }
    } else {
        if acc <= 2147483647 {
            Some(acc as i32)
        } else {
            None
        }
    }
}

// ---------------------------------------------------------------------------
// Arguments
// ---------------------------------------------------------------------------

/// A positional argument: the chart first, then the audio.
pub open spec fn take_positional(out: ArgsView, a: Seq<char>) -> Option<ArgsView> {
    if out.chart is None {
        Some(ArgsView { chart: Some(a), ..out })
    } else if out.audio is None {
        Some(ArgsView { audio: Some(a), ..out })
    } else {
        None
    }
}

/// Reading `args` from the front into `out`.
pub open spec fn parse_from(args: Seq<Seq<char>>, out: ArgsView) -> ParseOutcome
    decreases args.len(),
{
    if args.len() == 0 {
        ParseOutcome::Parsed(out)
    } else {
        let a = args[0];
        let rest = args.drop_first();
        if a == "-h"@ || a == "--help"@ {
            ParseOutcome::Help
        } else if a == "-c"@ || a == "--chart"@ || a == "-a"@ || a == "--audio"@ || a == "-d"@
            || a == "--diff"@ {
            if rest.len() == 0 {
                ParseOutcome::Failed(a + " needs a value"@)
            } else {
                let v = rest[0];
                if a == "-c"@ || a == "--chart"@ {
                    parse_from(rest.drop_first(), ArgsView { chart: Some(v), ..out })
                } else if a == "-a"@ || a == "--audio"@ {
                    parse_from(rest.drop_first(), ArgsView { audio: Some(v), ..out })
                } else {
                    match spec_parse_i32(v) {
                        Some(d) => parse_from(rest.drop_first(), ArgsView { diff: Some(d), ..out }),
                        None => ParseOutcome::Failed("invalid --diff value: "@ + v),
                    }
                }
            }
        } else if a == "--dump"@ {
            parse_from(rest, ArgsView { dump: true, ..out })
        } else if a.len() > 0 && a[0] == '-' && a != "-"@ {
            ParseOutcome::Failed("unknown option: "@ + a)
        } else {
            match take_positional(out, a) {
                Some(o) => parse_from(rest, o),
                None => ParseOutcome::Failed("unexpected extra argument: "@ + a),
            }
        }
    }
}

/// What the command line `args` comes to.
pub open spec fn spec_parse(args: Seq<Seq<char>>) -> ParseOutcome {
    parse_from(args, default_args())
}

pub open spec fn strings_view(v: Seq<String>) -> Seq<Seq<char>> {
    v.map_values(|s: String| s@)
}

fn is_lit(a: &String, lit: &str) -> (b: bool)
    ensures
        b == (a@ == lit@),
{
    let l = String::from_str(lit);
    *a == l
}

/// The value that follows `flag`, or an error naming the flag.
fn next_value(args: &Vec<String>, i: usize, flag: &String) -> (r: Result<String, String>)
    requires
        i <= args.len(),
    ensures
        i < args.len() ==> (r matches Ok(v) && v@ == args@[i as int]@),
        i >= args.len() ==> (r matches Err(e) && e@ == flag@ + " needs a value"@),
{
    if i < args.len() {
        Ok(args[i].clone())
    } else {
        let mut e = flag.clone();
        e.append(" needs a value");
        Err(e)
    }
}

/// Parse the process arguments (excluding argv[0]).
///
/// Returns `Ok(None)` when `--help` was requested.
pub fn parse(args: Vec<String>) -> (r: Result<Option<LaunchArgs>, String>)
    ensures
        match spec_parse(strings_view(args@)) {
            ParseOutcome::Help => r matches Ok(None),
            ParseOutcome::Parsed(v) => r matches Ok(Some(a)) && a@ == v,
            ParseOutcome::Failed(m) => r matches Err(e) && e@ == m,
        },
{
    let ghost all = strings_view(args@);
    let mut out = LaunchArgs { chart: None, audio: None, diff: None, dump: false };
    let mut i: usize = 0;
    assert(all.skip(0) =~= all);
    while i < args.len()
        invariant
            i <= args.len(),
            all == strings_view(args@),
            parse_from(all, default_args()) == parse_from(all.skip(i as int), out@),
        decreases args.len() - i,
    {
        let ghost tail = all.skip(i as int);
        assert(tail[0] == args@[i as int]@);
        assert(tail.drop_first() =~= all.skip(i + 1));
        let arg = args[i].clone();
        if is_lit(&arg, "-h") || is_lit(&arg, "--help") {
            return Ok(None);
        } else if is_lit(&arg, "-c") || is_lit(&arg, "--chart") {
            let v = next_value(&args, i + 1, &arg)?;
            assert(all.skip(i + 1)[0] == args@[i + 1]@);
            assert(all.skip(i + 1).drop_first() =~= all.skip(i + 2));
            out.chart = Some(v);
            i = i + 2;
        } else if is_lit(&arg, "-a") || is_lit(&arg, "--audio") {
            let v = next_value(&args, i + 1, &arg)?;
            assert(all.skip(i + 1)[0] == args@[i + 1]@);
            assert(all.skip(i + 1).drop_first() =~= all.skip(i + 2));
            out.audio = Some(v);
            i = i + 2;
        } else if is_lit(&arg, "-d") || is_lit(&arg, "--diff") {
            let v = next_value(&args, i + 1, &arg)?;
            assert(all.skip(i + 1)[0] == args@[i + 1]@);
            assert(all.skip(i + 1).drop_first() =~= all.skip(i + 2));
            match parse_i32(&v) {
                Some(d) => {
                    out.diff = Some(d);
                },
                None => {
                    return Err(crate::model::prefixed("invalid --diff value: ", &v));
                },
            }
            i = i + 2;
        } else if is_lit(&arg, "--dump") {
            out.dump = true;
            i = i + 1;
        } else if arg.as_str().unicode_len() > 0 && arg.as_str().get_char(0) == '-' && !is_lit(
            &arg,
            "-",
        ) {
            return Err(crate::model::prefixed("unknown option: ", &arg));
        } else {
            if out.chart.is_none() {
                out.chart = Some(arg);
            } else if out.audio.is_none() {
                out.audio = Some(arg);
            } else {
                return Err(crate::model::prefixed("unexpected extra argument: ", &arg));
            }
            i = i + 1;
        }
    }
    assert(all.skip(i as int).len() == 0);
    Ok(Some(out))
}

/// The usage text printed by `--help`.
pub const HELP_TEXT: &'static str = "LambdaDX Pad Preview

USAGE:
    lambda_dx_pad_preview [CHART] [AUDIO] [OPTIONS]

ARGS:
    CHART    Chart folder (containing maidata.txt and/or chart.json) or a
             chart file (maidata.txt / *.json). Defaults to the bundled
             assets/charts/jack_ripper.
    AUDIO    Audio file (mp3/wav). Defaults to the chart folder's track,
             then the bundled assets.

OPTIONS:
    -c, --chart <PATH>   Same as the first positional argument.
    -a, --audio <PATH>   Same as the second positional argument.
    -d, --diff <N>       Difficulty number to load (e.g. 4).
    --dump               Print the parsed chart (bpms + slides) and exit.
    -h, --help           Print this help.

KEYS:
    Space  play/pause   R  restart   Home  0:00   \u{2190}/\u{2192}  seek \u{b1}1s
    \u{2191}/\u{2193}    speed        A  toggle audio        1-8/T  lane hits

EXAMPLES:
    lambda_dx_pad_preview ~/.maichart/324_Jack-the-Ripper\u{25c6}
    lambda_dx_pad_preview ./chart.json ./track.mp3 --diff 4
";

/// The usage text.
pub fn help() -> (r: &'static str)
    ensures
        r@ == HELP_TEXT@,
{
    HELP_TEXT
}

} // verus!
