//! The command line: `every -h | -v` or `every <interval> [-c <n>] <command>
//! [args...]`, with intervals such as `1s`, `0.75s`, `1m30s` or `1d2h3m4.5s`.

use vstd::prelude::*;
use vstd::string::*;
use crate::text::{
    all_digits, chars_of, digit_run, digit_run_at, digits_to_u64, digits_value,
    lemma_digit_run_digits, lemma_digits_value_bound, pow10, starts_with_char, text_eq,
};

verus! {

pub const MAX_CONCURRENCY: u16 = 1000;

/// What the command line asks for.
#[derive(Debug, PartialEq)]
pub enum Action {
    Run(Config),
    Help,
    Version,
}

/// A validated request to run `command` with `args` every `interval_ms`
/// milliseconds, with at most `concurrency` invocations running at once.
#[derive(Debug, PartialEq)]
pub struct Config {
    pub interval_ms: u64,
    pub concurrency: u16,
    pub command: String,
    pub args: Vec<String>,
}

pub struct ConfigView {
    pub interval_ms: u64,
    pub concurrency: u16,
    pub command: Seq<char>,
    pub args: Seq<Seq<char>>,
}

pub enum ActionView {
    Run(ConfigView),
    Help,
    Version,
}

/// A sequence of strings seen as their characters.
pub open spec fn strings_view(v: Seq<String>) -> Seq<Seq<char>> {
    v.map_values(|a: String| a@)
}

impl View for Config {
    type V = ConfigView;

    open spec fn view(&self) -> ConfigView {
        ConfigView {
            interval_ms: self.interval_ms,
            concurrency: self.concurrency,
            command: self.command@,
            args: strings_view(self.args@),
        }
    }
}

impl View for Action {
    type V = ActionView;

    open spec fn view(&self) -> ActionView {
        match self {
            Action::Run(c) => ActionView::Run(c@),
            Action::Help => ActionView::Help,
            Action::Version => ActionView::Version,
        }
    }
}

pub open spec fn action_result_view(r: Result<Action, String>) -> Result<ActionView, Seq<char>> {
    match r {
        Ok(a) => Ok(a@),
        Err(e) => Err(e@),
    }
}

pub open spec fn is_option(s: Seq<char>) -> bool {
    s.len() > 0 && s[0] == '-'
}

/// A run of `a[i]` with the given interval and concurrency and the rest of
/// `a` as its arguments; an error where `a[i]` is missing.
pub open spec fn run_from(a: Seq<Seq<char>>, i: int, interval_ms: u64, concurrency: u16) -> Result<ActionView, Seq<char>> {
    if a.len() <= i {
        Err("Missing command name!"@)
    } else {
        Ok(
            ActionView::Run(
                ConfigView {
                    interval_ms,
                    concurrency,
                    command: a[i],
                    args: a.subrange(i + 1, a.len() as int),
                },
            ),
        )
    }
}

/// What the command line `a` (without the program's name) asks for.
pub open spec fn parse_args(a: Seq<Seq<char>>) -> Result<ActionView, Seq<char>> {
    if a.len() == 0 {
        Ok(ActionView::Help)
    } else if is_option(a[0]) {
        if a[0] == "-h"@ {
            Ok(ActionView::Help)
        } else if a[0] == "-v"@ {
            Ok(ActionView::Version)
        } else {
            Err("Invalid option: "@ + a[0])
        }
    } else {
        match interval_result(a[0]) {
            Err(e) => Err(e),
            Ok(ms) => if a.len() < 2 {
                Err("Missing command name!"@)
            } else if is_option(a[1]) {
                if a[1] == "-c"@ {
                    if a.len() < 3 {
                        Err("Missing concurrency value!"@)
                    } else {
                        match concurrency_result(a[2]) {
                            Err(e) => Err(e),
                            Ok(c) => run_from(a, 3, ms, c),
                        }
                    }
                } else {
                    Err("Invalid option after interval: "@ + a[1])
                }
            } else {
                run_from(a, 1, ms, 1)
            },
        }
    }
}

/// The program's command line without its first element, the program's name.
pub open spec fn without_program_name(a: Seq<Seq<char>>) -> Seq<Seq<char>> {
    if a.len() == 0 {
        a
    } else {
        a.drop_first()
    }
}

impl Action {
    /// Reads the program's whole command line, its name first.
    pub fn parse(args: Vec<String>) -> (r: Result<Action, String>)
        ensures
            action_result_view(r) == parse_args(without_program_name(strings_view(args@))),
    {
        let first: usize = if args.len() > 0 { 1 } else { 0 };
        proof {
            let a = strings_view(args@);
            assert(without_program_name(a) =~= a.subrange(first as int, a.len() as int));
        }
        parse_args_from(&args, first)
    }

    /// Reads the command line's arguments, the program's name left out.
    pub fn parse_iter(args: Vec<String>) -> (r: Result<Action, String>)
        ensures
            action_result_view(r) == parse_args(strings_view(args@)),
    {
        proof {
            let a = strings_view(args@);
            assert(a =~= a.subrange(0, a.len() as int));
        }
        parse_args_from(&args, 0)
    }
}

/// Copies `args[i..]`.
fn rest_from(args: &Vec<String>, i: usize) -> (r: Vec<String>)
    requires
        i <= args@.len(),
    ensures
        strings_view(r@) == strings_view(args@).subrange(i as int, args@.len() as int),
{
    let mut r: Vec<String> = Vec::new();
    let mut j: usize = i;
    while j < args.len()
        invariant
            i <= j <= args@.len(),
            r@.len() == j - i,
            forall|k: int| 0 <= k < r@.len() ==> #[trigger] r@[k]@ == args@[i + k]@,
        decreases args@.len() - j,
    {
        let item = args[j].clone();
        r.push(item);
        j = j + 1;
    }
    assert(strings_view(r@) =~= strings_view(args@).subrange(i as int, args@.len() as int));
    r
}

/// Parses `args[first..]`.
fn parse_args_from(args: &Vec<String>, first: usize) -> (r: Result<Action, String>)
    requires
        first <= args@.len(),
    ensures
        action_result_view(r) == parse_args(
            strings_view(args@).subrange(first as int, args@.len() as int),
        ),
{
    let ghost a = strings_view(args@).subrange(first as int, args@.len() as int);
    if first >= args.len() {
        return Ok(Action::Help);
    }
    let arg = args[first].as_str();
    assert(arg@ == a[0]);
    if starts_with_char(arg, '-') {
        if text_eq(arg, "-h") {
            return Ok(Action::Help);
        }
        if text_eq(arg, "-v") {
            return Ok(Action::Version);
        }
        return Err(String::from_str("Invalid option: ").concat(arg));
    }
    let interval_ms = match parse_interval_as_ms(arg) {
        Ok(ms) => ms,
        Err(e) => {
            return Err(e);
        },
    };
    if first + 1 >= args.len() {
        return Err(String::from_str("Missing command name!"));
    }
    let arg = args[first + 1].as_str();
    assert(arg@ == a[1]);
    let mut concurrency: u16 = 1;
    let mut command_at: usize = first + 1;
    if starts_with_char(arg, '-') {
        if !text_eq(arg, "-c") {
            return Err(String::from_str("Invalid option after interval: ").concat(arg));
        }
        if first + 2 >= args.len() {
            return Err(String::from_str("Missing concurrency value!"));
        }
        assert(args[first + 2 as int]@ == a[2]);
        concurrency = match parse_concurrency(args[first + 2].as_str()) {
            Ok(c) => c,
            Err(e) => {
                return Err(e);
            },
        };
        command_at = first + 3;
    }
    if command_at >= args.len() {
        return Err(String::from_str("Missing command name!"));
    }
    let command = args[command_at].clone();
    let rest = rest_from(args, command_at + 1);
    assert(strings_view(args@).subrange(command_at + 1, args@.len() as int) =~= a.subrange(
        command_at - first + 1,
        a.len() as int,
    ));
    Ok(Action::Run(Config { interval_ms, concurrency, command, args: rest }))
}


/// A `Result` whose error text is seen as its characters.
pub open spec fn result_view<T>(r: Result<T, String>) -> Result<T, Seq<char>> {
    match r {
        Ok(v) => Ok(v),
        Err(e) => Err(e@),
    }
}

// ---------------------------------------------------------------------------
// Intervals

/// A span `(start, end)` of characters, as `int`s.
pub open spec fn span_view(sp: Option<(usize, usize)>) -> Option<(int, int)> {
    match sp {
        Some((a, b)) => Some((a as int, b as int)),
        None => None,
    }
}

/// The digits of a component `<digits><unit>` that starts at `i`, if one does.
pub open spec fn unit_span(s: Seq<char>, i: int, unit: char) -> Option<(int, int)> {
    let n = digit_run(s, i);
    if n > 0 && i + n < s.len() && s[i + n] == unit {
        Some((i, i + n))
    } else {
        None
    }
}

/// Where parsing goes on after an optional component `<digits><unit>` at `i`.
pub open spec fn after_unit(s: Seq<char>, i: int, unit: char) -> int {
    match unit_span(s, i, unit) {
        Some((_, e)) => e + 1,
        None => i,
    }
}

/// The optional seconds component `<digits>[.<digits>]s` at `i`: the span of
/// its whole seconds, the span of its fraction, and where parsing goes on.
pub open spec fn seconds_spans(s: Seq<char>, i: int) -> (Option<(int, int)>, Option<(int, int)>, int) {
    let n = digit_run(s, i);
    let e = i + n;
    if n == 0 {
        (None, None, i)
    } else if e < s.len() && s[e] == 's' {
        (Some((i, e)), None, e + 1)
    } else if e < s.len() && s[e] == '.' && digit_run(s, e + 1) > 0 && e + 1 + digit_run(s, e + 1)
        < s.len() && s[e + 1 + digit_run(s, e + 1)] == 's' {
        (Some((i, e)), Some((e + 1, e + 1 + digit_run(s, e + 1))), e + 2 + digit_run(s, e + 1))
    } else {
        (None, None, i)
    }
}

pub open spec fn pos_after_days(s: Seq<char>) -> int {
    after_unit(s, 0, 'd')
}

pub open spec fn pos_after_hours(s: Seq<char>) -> int {
    after_unit(s, pos_after_days(s), 'h')
}

pub open spec fn pos_after_minutes(s: Seq<char>) -> int {
    after_unit(s, pos_after_hours(s), 'm')
}

/// The interval grammar `[<n>d][<n>h][<n>m][<n>[.<n>]s]` covers the whole text.
pub open spec fn is_interval_form(s: Seq<char>) -> bool {
    seconds_spans(s, pos_after_minutes(s)).2 == s.len()
}

/// The value of the digits in a span; 0 for no span.
pub open spec fn span_value(s: Seq<char>, sp: Option<(int, int)>) -> nat {
    match sp {
        Some((a, b)) => digits_value(s.subrange(a, b)),
        None => 0,
    }
}

/// Milliseconds of a fraction of a second, `None` past three digits.
pub open spec fn fraction_ms(s: Seq<char>, sp: Option<(int, int)>) -> Option<nat> {
    match sp {
        Some((a, b)) => if b - a <= 3 {
            Some(digits_value(s.subrange(a, b)) * pow10((3 - (b - a)) as nat))
        } else {
            None
        },
        None => Some(0),
    }
}

pub open spec fn total_ms(d: int, h: int, m: int, s: int, ms: int) -> int {
    d * 86_400_000 + h * 3_600_000 + m * 60_000 + s * 1_000 + ms
}

/// The milliseconds that an interval of the grammar's form spells out, given
/// its fraction is within three digits.
pub open spec fn interval_total(s: Seq<char>) -> int {
    let p = pos_after_minutes(s);
    total_ms(
        span_value(s, unit_span(s, 0, 'd')) as int,
        span_value(s, unit_span(s, pos_after_days(s), 'h')) as int,
        span_value(s, unit_span(s, pos_after_hours(s), 'm')) as int,
        span_value(s, seconds_spans(s, p).0) as int,
        fraction_ms(s, seconds_spans(s, p).1).unwrap() as int,
    )
}

pub open spec fn interval_error(s: Seq<char>, tail: Seq<char>) -> Seq<char> {
    "Invalid interval '"@ + s + tail
}

/// What parsing an interval gives: its milliseconds, or the error text.
pub open spec fn interval_result(s: Seq<char>) -> Result<u64, Seq<char>> {
    if s.len() == 0 {
        Err("Interval cannot be empty"@)
    } else if !is_interval_form(s) {
        Err(interval_error(s, "': unrecognized format"@))
    } else if fraction_ms(s, seconds_spans(s, pos_after_minutes(s)).1).is_none() {
        Err(interval_error(s, "': maximum precision is millisecond"@))
    } else if interval_total(s) > u64::MAX {
        Err(interval_error(s, "': interval is too large"@))
    } else if interval_total(s) == 0 {
        Err(interval_error(s, "': interval cannot be zero"@))
    } else {
        Ok(interval_total(s) as u64)
    }
}

/// A span of digits within `v`.
pub open spec fn digit_span(v: Seq<char>, sp: Option<(int, int)>) -> bool {
    match sp {
        Some((a, b)) => 0 <= a < b <= v.len() && all_digits(v.subrange(a, b)),
        None => true,
    }
}

proof fn lemma_unit_span_digits(v: Seq<char>, i: int, unit: char)
    requires
        0 <= i <= v.len(),
    ensures
        digit_span(v, unit_span(v, i, unit)),
        i <= after_unit(v, i, unit) <= v.len(),
{
    lemma_digit_run_digits(v, i);
}

fn unit_span_at(v: &Vec<char>, i: usize, unit: char) -> (r: Option<(usize, usize)>)
    requires
        i <= v@.len(),
    ensures
        span_view(r) == unit_span(v@, i as int, unit),
        match r {
            Some((_, e)) => e < v.len(),
            None => true,
        },
{
    let n = digit_run_at(v, i);
    if n > 0 && i + n < v.len() && v[i + n] == unit {
        Some((i, i + n))
    } else {
        None
    }
}

fn after_span(sp: Option<(usize, usize)>, i: usize) -> (r: usize)
    requires
        match sp {
            Some((_, e)) => e < usize::MAX,
            None => true,
        },
    ensures
        r == match span_view(sp) {
            Some((_, e)) => e + 1,
            None => i as int,
        },
{
    match sp {
        Some((_, e)) => e + 1,
        None => i,
    }
}

fn seconds_spans_at(v: &Vec<char>, i: usize) -> (r: (Option<(usize, usize)>, Option<(usize, usize)>, usize))
    requires
        i <= v@.len(),
    ensures
        (span_view(r.0), span_view(r.1), r.2 as int) == seconds_spans(v@, i as int),
{
    let n = digit_run_at(v, i);
    let e = i + n;
    if n == 0 {
        (None, None, i)
    } else if e < v.len() && v[e] == 's' {
        (Some((i, e)), None, e + 1)
    } else if e < v.len() && v[e] == '.' {
        let k = digit_run_at(v, e + 1);
        if k > 0 && e + 1 + k < v.len() && v[e + 1 + k] == 's' {
            (Some((i, e)), Some((e + 1, e + 1 + k)), e + 2 + k)
        } else {
            (None, None, i)
        }
    } else {
        (None, None, i)
    }
}

/// The value of a component's digits, 0 where the component is absent, and
/// `None` where the value does not fit in a `u64`.
fn convert_match_to_u64(v: &Vec<char>, m: Option<(usize, usize)>) -> (r: Option<u64>)
    requires
        digit_span(v@, span_view(m)),
    ensures
        r == (if span_value(v@, span_view(m)) <= u64::MAX {
            Some(span_value(v@, span_view(m)) as u64)
        } else {
            None::<u64>
        }),
{
    match m {
        Some((a, b)) => digits_to_u64(v, a, b),
        None => Some(0),
    }
}

/// The milliseconds of a fraction of a second (`1` is 100, `12` is 120, `123`
/// is 123), 0 where there is none, and `None` past three digits.
fn convert_fraction_match_to_ms_u64(v: &Vec<char>, f: Option<(usize, usize)>) -> (r: Option<u64>)
    requires
        digit_span(v@, span_view(f)),
    ensures
        match fraction_ms(v@, span_view(f)) {
            Some(ms) => r == Some(ms as u64) && ms < 1000,
            None => r.is_none(),
        },
{
    match f {
        Some((a, b)) => {
            if b - a > 3 {
                return None;
            }
            proof {
                lemma_digits_value_bound(v@.subrange(a as int, b as int));
                reveal_with_fuel(pow10, 4);
                assert(pow10(0) == 1 && pow10(1) == 10 && pow10(2) == 100 && pow10(3) == 1000);
            }
            let value = match digits_to_u64(v, a, b) {
                Some(x) => x,
                None => {
                    return None;
                },
            };
            let len = b - a;
            if len == 1 {
                assert(value < 10);
                assert(pow10((3 - (b - a)) as nat) == 100);
                assert(fraction_ms(v@, span_view(f)) == Some((value * 100) as nat));
                Some(value * 100)
            } else if len == 2 {
                assert(value < 100);
                assert(pow10((3 - (b - a)) as nat) == 10);
                assert(fraction_ms(v@, span_view(f)) == Some((value * 10) as nat));
                Some(value * 10)
            } else {
                assert(value < 1000);
                assert(pow10((3 - (b - a)) as nat) == 1);
                assert(digits_value(v@.subrange(a as int, b as int)) * pow10((3 - (b - a)) as nat)
                    == value) by (nonlinear_arith)
                    requires
                        pow10((3 - (b - a)) as nat) == 1,
                        digits_value(v@.subrange(a as int, b as int)) == value,
                ;
                assert(fraction_ms(v@, span_view(f)) == Some((value) as nat));
                Some(value)
            }
        },
        None => Some(0),
    }
}

/// The total of days, hours, minutes, seconds and milliseconds in
/// milliseconds; `None` where any part is `None` (it did not fit) or the total
/// exceeds `u64::MAX`.
pub fn calculate_total_ms(
    d: Option<u64>,
    h: Option<u64>,
    m: Option<u64>,
    s: Option<u64>,
    ms: u64,
) -> (r: Option<u64>)
    ensures
        r == (if d.is_some() && h.is_some() && m.is_some() && s.is_some() && total_ms(
            d.unwrap() as int,
            h.unwrap() as int,
            m.unwrap() as int,
            s.unwrap() as int,
            ms as int,
        ) <= u64::MAX {
            Some(
                total_ms(
                    d.unwrap() as int,
                    h.unwrap() as int,
                    m.unwrap() as int,
                    s.unwrap() as int,
                    ms as int,
                ) as u64,
            )
        } else {
            None::<u64>
        }),
{
    let d = d?;
    let h = h?;
    let m = m?;
    let s = s?;
    let t = d.checked_mul(86_400_000)?;
    let t = t.checked_add(h.checked_mul(3_600_000)?)?;
    let t = t.checked_add(m.checked_mul(60_000)?)?;
    let t = t.checked_add(s.checked_mul(1_000)?)?;
    t.checked_add(ms)
}

/// The spans of the components of an interval, in order, and where the
/// grammar stops matching.
fn interval_spans(v: &Vec<char>) -> (r: (
    Option<(usize, usize)>,
    Option<(usize, usize)>,
    Option<(usize, usize)>,
    Option<(usize, usize)>,
    Option<(usize, usize)>,
    usize,
))
    ensures
        span_view(r.0) == unit_span(v@, 0, 'd'),
        span_view(r.1) == unit_span(v@, pos_after_days(v@), 'h'),
        span_view(r.2) == unit_span(v@, pos_after_hours(v@), 'm'),
        span_view(r.3) == seconds_spans(v@, pos_after_minutes(v@)).0,
        span_view(r.4) == seconds_spans(v@, pos_after_minutes(v@)).1,
        r.5 == seconds_spans(v@, pos_after_minutes(v@)).2,
        digit_span(v@, span_view(r.0)),
        digit_span(v@, span_view(r.1)),
        digit_span(v@, span_view(r.2)),
        digit_span(v@, span_view(r.3)),
        digit_span(v@, span_view(r.4)),
{
    let ghost s = v@;
    proof {
        lemma_unit_span_digits(s, 0, 'd');
        lemma_unit_span_digits(s, pos_after_days(s), 'h');
        lemma_unit_span_digits(s, pos_after_hours(s), 'm');
        let p = pos_after_minutes(s);
        lemma_digit_run_digits(s, p);
        let e = p + digit_run(s, p);
        if e < s.len() {
            lemma_digit_run_digits(s, e + 1);
        }
    }
    let d = unit_span_at(v, 0, 'd');
    let p1 = after_span(d, 0);
    let h = unit_span_at(v, p1, 'h');
    let p2 = after_span(h, p1);
    let m = unit_span_at(v, p2, 'm');
    let p3 = after_span(m, p2);
    let (sec, frac, p4) = seconds_spans_at(v, p3);
    (d, h, m, sec, frac, p4)
}

fn interval_message(s: &str, tail: &str) -> (r: String)
    ensures
        r@ == interval_error(s@, tail@),
{
    String::from_str("Invalid interval '").concat(s).concat(tail)
}

/// Parses an interval such as `1s`, `0.75s`, `1m30s` or `1d2h3m4.567s` into
/// milliseconds.
pub fn parse_interval_as_ms(interval: &str) -> (r: Result<u64, String>)
    ensures
        result_view(r) == interval_result(interval@),
{
    if interval.is_empty() {
        return Err(String::from_str("Interval cannot be empty"));
    }
    let v = chars_of(interval);
    let (d, h, m, sec, frac, p4) = interval_spans(&v);
    if p4 != v.len() {
        return Err(interval_message(interval, "': unrecognized format"));
    }
    let d = convert_match_to_u64(&v, d);
    let h = convert_match_to_u64(&v, h);
    let m = convert_match_to_u64(&v, m);
    let sec = convert_match_to_u64(&v, sec);
    let ms = match convert_fraction_match_to_ms_u64(&v, frac) {
        Some(ms) => ms,
        None => {
            return Err(interval_message(interval, "': maximum precision is millisecond"));
        },
    };
    match calculate_total_ms(d, h, m, sec, ms) {
        Some(0) => Err(interval_message(interval, "': interval cannot be zero")),
        Some(total) => Ok(total),
        None => Err(interval_message(interval, "': interval is too large")),
    }
}

// ---------------------------------------------------------------------------
// Concurrency

/// The digits of a concurrency value: its text without one leading `+`.
pub open spec fn concurrency_digits(s: Seq<char>) -> Seq<char> {
    if s.len() > 0 && s[0] == '+' {
        s.drop_first()
    } else {
        s
    }
}

/// What parsing a concurrency value gives: a number in `1..=1000` written in
/// decimal (with an optional `+`), or the error text; a number out of range,
/// however large, is reported as such.
pub open spec fn concurrency_result(s: Seq<char>) -> Result<u16, Seq<char>> {
    let d = concurrency_digits(s);
    if d.len() == 0 || !all_digits(d) {
        Err("Invalid concurrency value: '"@ + s + "'"@)
    } else if 1 <= digits_value(d) <= MAX_CONCURRENCY {
        Ok(digits_value(d) as u16)
    } else {
        Err("Invalid concurrency: value "@ + s + " is not in the range 1–1000"@)
    }
}

/// Parses the value of `-c`.
pub fn parse_concurrency(concurrency: &str) -> (r: Result<u16, String>)
    ensures
        result_view(r) == concurrency_result(concurrency@),
{
    let v = chars_of(concurrency);
    let start: usize = if v.len() > 0 && v[0] == '+' { 1 } else { 0 };
    let ghost d = concurrency_digits(v@);
    assert(d =~= v@.subrange(start as int, v@.len() as int));
    let n = digit_run_at(&v, start);
    proof {
        lemma_digit_run_digits(v@, start as int);
    }
    if start == v.len() || start + n != v.len() {
        proof {
            if start < v.len() {
                assert(!crate::text::is_digit(d[n as int]));
            }
        }
        return Err(
            String::from_str("Invalid concurrency value: '").concat(concurrency).concat("'"),
        );
    }
    match digits_to_u64(&v, start, v.len()) {
        Some(value) => {
            if 1 <= value && value <= MAX_CONCURRENCY as u64 {
                return Ok(value as u16);
            }
        },
        None => {},
    }
    Err(
        String::from_str("Invalid concurrency: value ").concat(concurrency).concat(
            " is not in the range 1–1000",
        ),
    )
}

} // verus!
