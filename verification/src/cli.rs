//! Reading the command line: flags, their values, the location and the day window.
use vstd::prelude::*;
use crate::text::{chars_of, eq_str, push_chars};
use crate::types::{Date, Theme, Units, day_number, valid_date, date_le, lemma_day_number_increasing};
use crate::geo::{DaysError, spec_looks_like_days, spec_parse_days_str, looks_like_days, parse_days_str, parse_days};
use crate::calendar::{parsed_dmy, parse_dmy, days_between, representable};

verus! {

/// The texts of the arguments.
pub open spec fn arg_views(args: Seq<String>) -> Seq<Seq<char>> {
    Seq::new(args.len(), |i: int| args[i]@)
}

/// Whether `v` spells `s`, for a `String`.
fn is(a: &String, s: &str) -> (r: bool)
    ensures
        r == (a@ == s@),
{
    let v = chars_of(a.as_str());
    eq_str(&v, s)
}

/// Index of the first argument equal to `flag` at or after `i`, or `args.len()`.
pub open spec fn find_arg_from(args: Seq<Seq<char>>, flag: Seq<char>, i: int) -> int
    decreases args.len() - i,
{
    if i < 0 || i >= args.len() {
        args.len() as int
    } else if args[i] == flag {
        i
    } else {
        find_arg_from(args, flag, i + 1)
    }
}

/// Position of `flag` among the arguments.
fn find_arg(args: &Vec<String>, flag: &str) -> (r: usize)
    ensures
        r == find_arg_from(arg_views(args@), flag@, 0),
{
    let ghost views = arg_views(args@);
    let mut i: usize = 0;
    while i < args.len()
        invariant
            i <= args.len(),
            views == arg_views(args@),
            find_arg_from(views, flag@, i as int) == find_arg_from(views, flag@, 0),
        decreases args.len() - i,
    {
        if is(&args[i], flag) {
            return i;
        }
        i = i + 1;
    }
    i
}

/// Whether the boolean flag `flag` was given.
pub fn has_flag(args: &Vec<String>, flag: &str) -> (r: bool)
    ensures
        r == (find_arg_from(arg_views(args@), flag@, 0) < args@.len()),
{
    find_arg(args, flag) < args.len()
}

/// The argument that follows the first occurrence of `flag`, if any.
pub fn flag_value<'a>(args: &'a Vec<String>, flag: &str) -> (r: Option<&'a String>)
    ensures
        ({
            let p = find_arg_from(arg_views(args@), flag@, 0);
            if p + 1 < args@.len() { r == Some(&args@[p + 1]) } else { r is None }
        }),
{
    let p = find_arg(args, flag);
    if p < args.len() && p + 1 < args.len() {
        Some(&args[p + 1])
    } else {
        None
    }
}

/// The unit system named by a `--units` value.
pub open spec fn spec_units_from_arg(s: Seq<char>) -> Option<Units> {
    if s == "imperial"@ {
        Some(Units::Imperial)
    } else if s == "british"@ {
        Some(Units::British)
    } else if s == "metric"@ {
        Some(Units::Metric)
    } else {
        None
    }
}

/// The unit system named by a `--units` value.
pub fn units_from_arg(s: &str) -> (r: Option<Units>)
    ensures
        r == spec_units_from_arg(s@),
{
    let v = chars_of(s);
    if eq_str(&v, "imperial") {
        Some(Units::Imperial)
    } else if eq_str(&v, "british") {
        Some(Units::British)
    } else if eq_str(&v, "metric") {
        Some(Units::Metric)
    } else {
        None
    }
}

/// The interface languages that have catalogs.
pub open spec fn is_known_lang(s: Seq<char>) -> bool {
    s == "en"@ || s == "ca"@ || s == "cs"@ || s == "da"@ || s == "de"@ || s == "el"@ || s == "es-es"@
        || s == "es-419"@ || s == "fi"@ || s == "fr-fr"@ || s == "fr-ca"@ || s == "hr"@ || s
        == "hu"@ || s == "it"@ || s == "nb"@ || s == "nl"@ || s == "pl"@ || s == "pt-br"@ || s
        == "pt-pt"@ || s == "ro"@ || s == "ru"@ || s == "sk"@ || s == "sv"@ || s == "tr"@ || s
        == "uk"@
}

/// The interface language named by a `--lang` value, when it has a catalog.
pub fn lang_from_arg(s: &str) -> (r: Option<&'static str>)
    ensures
        r is Some <==> is_known_lang(s@),
        r matches Some(l) ==> l@ == s@,
{
    let v = chars_of(s);
    if eq_str(&v, "en") { Some("en") }
    else if eq_str(&v, "ca") { Some("ca") }
    else if eq_str(&v, "cs") { Some("cs") }
    else if eq_str(&v, "da") { Some("da") }
    else if eq_str(&v, "de") { Some("de") }
    else if eq_str(&v, "el") { Some("el") }
    else if eq_str(&v, "es-es") { Some("es-es") }
    else if eq_str(&v, "es-419") { Some("es-419") }
    else if eq_str(&v, "fi") { Some("fi") }
    else if eq_str(&v, "fr-fr") { Some("fr-fr") }
    else if eq_str(&v, "fr-ca") { Some("fr-ca") }
    else if eq_str(&v, "hr") { Some("hr") }
    else if eq_str(&v, "hu") { Some("hu") }
    else if eq_str(&v, "it") { Some("it") }
    else if eq_str(&v, "nb") { Some("nb") }
    else if eq_str(&v, "nl") { Some("nl") }
    else if eq_str(&v, "pl") { Some("pl") }
    else if eq_str(&v, "pt-br") { Some("pt-br") }
    else if eq_str(&v, "pt-pt") { Some("pt-pt") }
    else if eq_str(&v, "ro") { Some("ro") }
    else if eq_str(&v, "ru") { Some("ru") }
    else if eq_str(&v, "sk") { Some("sk") }
    else if eq_str(&v, "sv") { Some("sv") }
    else if eq_str(&v, "tr") { Some("tr") }
    else if eq_str(&v, "uk") { Some("uk") }
    else { None }
}

/// The palette chosen by the palette flags; the first given of `--i-am-blue`,
/// `--color-me`, `--classic-colors`, `--rainforest` wins, else the warm palette.
pub fn select_theme(blue: bool, rainbow: bool, classic: bool, rainforest: bool) -> (t: Theme)
    ensures
        t == (if blue {
            Theme::Blue
        } else if rainbow {
            Theme::Rainbow
        } else if classic {
            Theme::Classic
        } else if rainforest {
            Theme::Rainforest
        } else {
            Theme::Warm
        }),
{
    if blue {
        Theme::Blue
    } else if rainbow {
        Theme::Rainbow
    } else if classic {
        Theme::Classic
    } else if rainforest {
        Theme::Rainforest
    } else {
        Theme::Warm
    }
}

/// The unit system of the report: a valid `--units` value names it outright; else
/// `--strange-units` asks for American units and `--yes-sir` for British units (the
/// first of the two when both are given); else the system locale's units; else metric.
pub fn select_units(cli_units: Option<Units>, strange_units: bool, yes_sir: bool, detected: Option<Units>) -> (u: Units)
    ensures
        u == (match cli_units {
            Some(c) => c,
            None => if strange_units {
                Units::Imperial
            } else if yes_sir {
                Units::British
            } else {
                match detected {
                    Some(d) => d,
                    None => Units::Metric,
                }
            },
        }),
{
    match cli_units {
        Some(c) => c,
        None => if strange_units {
            Units::Imperial
        } else if yes_sir {
            Units::British
        } else {
            match detected {
                Some(d) => d,
                None => Units::Metric,
            }
        },
    }
}

/// Rows of an overview chart: 24 with `--high-charts`, else 4.
pub fn chart_height(high: bool) -> (h: usize)
    ensures
        h == (if high { 24usize } else { 4usize }),
{
    if high { 24 } else { 4 }
}

/// The boolean flags.
pub open spec fn is_switch(a: Seq<char>) -> bool {
    a == "--i-am-blue"@ || a == "--color-me"@ || a == "--classic-colors"@ || a == "--rainforest"@ || a
        == "--high-charts"@ || a == "--no-charts"@ || a == "--no-table"@ || a == "--tabular-bells"@
        || a == "--i-cant-afford-cga"@ || a == "--no-eyecandy"@ || a == "--i-drone-you"@
        || a == "--strange-units"@ || a == "--yes-sir"@
}

/// Every flag the program knows.
pub open spec fn is_flag(a: Seq<char>) -> bool {
    is_switch(a) || a == "--units"@ || a == "--lang"@ || a == "--delorean"@
}

fn is_switch_exec(a: &String) -> (r: bool)
    ensures
        r == is_switch(a@),
{
    let v = chars_of(a.as_str());
    eq_str(&v, "--i-am-blue") || eq_str(&v, "--color-me") || eq_str(&v, "--classic-colors")
        || eq_str(&v, "--rainforest") || eq_str(&v, "--high-charts") || eq_str(&v, "--no-charts")
        || eq_str(&v, "--no-table") || eq_str(&v, "--tabular-bells") || eq_str(
        &v,
        "--i-cant-afford-cga",
    ) || eq_str(&v, "--no-eyecandy") || eq_str(&v, "--i-drone-you") || eq_str(&v, "--strange-units")
        || eq_str(&v, "--yes-sir")
}

/// Positional arguments kept after reading `args`, and how many following arguments are
/// still to be skipped as flag values (`--units` and `--lang` take one, `--delorean` two).
pub open spec fn strip_state(args: Seq<Seq<char>>) -> (Seq<Seq<char>>, int)
    decreases args.len(),
{
    if args.len() == 0 {
        (Seq::empty(), 0)
    } else {
        let st = strip_state(args.drop_last());
        let a = args.last();
        if st.1 > 0 {
            (st.0, st.1 - 1)
        } else if a == "--units"@ || a == "--lang"@ {
            (st.0, 1)
        } else if a == "--delorean"@ {
            (st.0, 2)
        } else if is_switch(a) {
            (st.0, 0)
        } else {
            (st.0.push(a), 0)
        }
    }
}

/// The positional arguments: `args` without the flags and the values they take.
pub fn strip_flags(args: &Vec<String>) -> (r: Vec<String>)
    ensures
        arg_views(r@) == strip_state(arg_views(args@)).0,
{
    let mut out: Vec<String> = Vec::new();
    let mut skip: usize = 0;
    let mut i: usize = 0;
    while i < args.len()
        invariant
            i <= args.len(),
            (arg_views(out@), skip as int) == strip_state(arg_views(args@).subrange(0, i as int)),
            skip <= 2,
        decreases args.len() - i,
    {
        let ghost pre = arg_views(args@).subrange(0, i as int);
        let ghost next = arg_views(args@).subrange(0, i + 1);
        assert(next.drop_last() =~= pre);
        assert(next.last() == args@[i as int]@);
        let a = &args[i];
        if skip > 0 {
            skip = skip - 1;
        } else if is(a, "--units") || is(a, "--lang") {
            skip = 1;
        } else if is(a, "--delorean") {
            skip = 2;
        } else if is_switch_exec(a) {
        } else {
            let ghost before = out@;
            out.push(a.clone());
            assert(arg_views(out@) =~= arg_views(before).push(a@));
        }
        i = i + 1;
    }
    assert(arg_views(args@).subrange(0, args.len() as int) =~= arg_views(args@));
    out
}

proof fn lemma_strip_keeps_no_flag(args: Seq<Seq<char>>)
    ensures
        forall|i: int| 0 <= i < strip_state(args).0.len() ==> !is_flag(#[trigger] strip_state(args).0[i]),
        0 <= strip_state(args).1 <= 2,
    decreases args.len(),
{
    if args.len() > 0 {
        lemma_strip_keeps_no_flag(args.drop_last());
    }
}

/// No positional argument left by `strip_flags` is a flag.
pub proof fn law_stripped_args_hold_no_flag(args: Seq<String>)
    ensures
        forall|i: int| 0 <= i < strip_state(arg_views(args)).0.len() ==> !is_flag(#[trigger] strip_state(arg_views(args)).0[i]),
{
    lemma_strip_keeps_no_flag(arg_views(args));
}

/// The flags the usage text and the README document, as literal names.
pub open spec fn documented_flag(a: Seq<char>) -> bool {
    a == "--i-am-blue"@ || a == "--color-me"@ || a == "--classic-colors"@ || a == "--rainforest"@
        || a == "--high-charts"@ || a == "--no-charts"@ || a == "--no-table"@ || a
        == "--tabular-bells"@ || a == "--i-cant-afford-cga"@ || a == "--no-eyecandy"@ || a
        == "--i-drone-you"@ || a == "--strange-units"@ || a == "--yes-sir"@ || a == "--units"@ || a
        == "--lang"@ || a == "--delorean"@
}

/// No documented flag is ever left among the positional arguments, wherever it stands
/// on the command line: the place is read from the other words only.
pub proof fn law_documented_flags_are_stripped(args: Seq<String>)
    ensures
        forall|i: int|
            0 <= i < strip_state(arg_views(args)).0.len() ==> !documented_flag(
                #[trigger] strip_state(arg_views(args)).0[i],
            ),
{
    lemma_strip_keeps_no_flag(arg_views(args));
    assert forall|i: int| 0 <= i < strip_state(arg_views(args)).0.len() implies !documented_flag(
        #[trigger] strip_state(arg_views(args)).0[i],
    ) by {
        assert(!is_flag(strip_state(arg_views(args)).0[i]));
    }
}

/// Why the command line was rejected.
#[derive(Clone, Copy, Debug, PartialEq, Eq, Structural)]
pub enum ArgError {
    /// Not enough positional arguments: the usage text is shown.
    Usage,
    /// `--delorean` without two readable `DD.MM.YYYY` dates.
    InvalidDates,
    /// The historical range ends before it starts.
    EndBeforeStart,
}

/// `--delorean DD.MM.YYYY DD.MM.YYYY`: the dates after the flag (a missing one reads as
/// the empty text).
pub open spec fn spec_delorean(args: Seq<Seq<char>>) -> Result<Option<(Date, Date)>, ArgError> {
    let p = find_arg_from(args, "--delorean"@, 0);
    if p >= args.len() {
        Ok(None)
    } else {
        let s = if p + 1 < args.len() { args[p + 1] } else { Seq::empty() };
        let e = if p + 2 < args.len() { args[p + 2] } else { Seq::empty() };
        match (parsed_dmy(s), parsed_dmy(e)) {
            (Some(a), Some(b)) => Ok(Some((
                Date { year: a.0, month: a.1, day: a.2 },
                Date { year: b.0, month: b.1, day: b.2 },
            ))),
            _ => Err(ArgError::InvalidDates),
        }
    }
}

/// The historical date range requested with `--delorean`, if any.
pub fn delorean_dates(args: &Vec<String>) -> (r: Result<Option<(Date, Date)>, ArgError>)
    ensures
        r == spec_delorean(arg_views(args@)),
        r matches Ok(Some((a, b))) ==> representable(a) && representable(b),
{
    let p = find_arg(args, "--delorean");
    if p >= args.len() {
        return Ok(None);
    }
    let s = if p + 1 < args.len() { parse_dmy(args[p + 1].as_str()) } else { parse_dmy("") };
    let e = if args.len() - p > 2 { parse_dmy(args[p + 2].as_str()) } else { parse_dmy("") };
    proof {
        assert(""@ =~= Seq::<char>::empty()) by {
            reveal_strlit("");
        }
    }
    match (s, e) {
        (Some(a), Some(b)) => Ok(Some((a, b))),
        _ => Err(ArgError::InvalidDates),
    }
}

/// How a historical range is shown.
#[derive(Clone, Copy, Debug, PartialEq, Eq, Structural)]
pub enum HistMode {
    /// hourly records, for up to 31 days
    Hourly,
    /// daily records, for up to 365 days
    Daily,
    /// monthly buckets of daily records, for longer ranges
    Monthly,
}

/// Number of days in the range `start..=end`.
pub open spec fn span_days(start: Date, end: Date) -> int {
    day_number(end) - day_number(start) + 1
}

/// The mode for a range of `n` days, or `EndBeforeStart` when the range is empty.
pub open spec fn spec_hist_mode(n: int) -> Result<HistMode, ArgError> {
    if n < 1 {
        Err(ArgError::EndBeforeStart)
    } else if n <= 31 {
        Ok(HistMode::Hourly)
    } else if n <= 365 {
        Ok(HistMode::Daily)
    } else {
        Ok(HistMode::Monthly)
    }
}

/// How the historical range `start..=end` is shown: hourly up to 31 days, daily up to a
/// year, monthly beyond; an end before the start is rejected.
pub fn historical_mode(start: Date, end: Date) -> (r: Result<HistMode, ArgError>)
    requires
        representable(start),
        representable(end),
    ensures
        r == spec_hist_mode(span_days(start, end)),
{
    let d = days_between(start, end);
    if d < 0 {
        Err(ArgError::EndBeforeStart)
    } else if d <= 30 {
        Ok(HistMode::Hourly)
    } else if d <= 364 {
        Ok(HistMode::Daily)
    } else {
        Ok(HistMode::Monthly)
    }
}

/// A historical range is refused exactly when its end date comes before its start date,
/// and then with `EndBeforeStart`.
pub proof fn law_range_refused_iff_end_before_start(start: Date, end: Date)
    requires
        valid_date(start),
        valid_date(end),
    ensures
        spec_hist_mode(span_days(start, end)) is Err <==> !date_le(start, end),
        !date_le(start, end) ==> spec_hist_mode(span_days(start, end)) == Err::<HistMode, ArgError>(
            ArgError::EndBeforeStart,
        ),
{
    if date_le(start, end) {
        if start != end {
            lemma_day_number_increasing(start, end);
        }
    } else {
        lemma_day_number_increasing(end, start);
    }
}

/// Which caption describes the day window of a report.
#[derive(Clone, Copy, Debug, PartialEq, Eq, Structural)]
pub enum DaysCaption {
    /// days `from` to `to` (a window that does not start today)
    Range { from: u32, to: u32 },
    /// today only
    OneDay,
    /// the next `n` days from today
    Days { n: u32 },
}

/// The caption for the day window `day_from..=day_to`.
pub fn days_caption(day_from: u32, day_to: u32) -> (r: DaysCaption)
    ensures
        r == (if day_from > 1 {
            DaysCaption::Range { from: day_from, to: day_to }
        } else if day_to == 1 {
            DaysCaption::OneDay
        } else {
            DaysCaption::Days { n: day_to }
        }),
{
    if day_from > 1 {
        DaysCaption::Range { from: day_from, to: day_to }
    } else if day_to == 1 {
        DaysCaption::OneDay
    } else {
        DaysCaption::Days { n: day_to }
    }
}

/// Where the forecast is for, as given on the command line.
#[derive(Debug)]
pub enum Place {
    /// Latitude and longitude texts (`lat,lng` or `lat lng`), to be read as numbers.
    Coordinates { lat: Vec<char>, lng: Vec<char> },
    /// A city name to look up.
    City { name: Vec<char> },
}

/// The place and the day window from the positional arguments (the first being the
/// program). The day window is kept apart from the place so that a caller can report a
/// bad coordinate before a bad day argument, as the command line is read in that order.
#[derive(Debug)]
pub struct Request {
    pub place: Place,
    /// the day window, or why its argument was rejected
    pub days: Result<(u32, u32), DaysError>,
    /// the argument the day window was read from (empty when there is none)
    pub days_arg: Vec<char>,
}

/// The texts of `args[lo..hi]` joined with single spaces.
pub open spec fn joined(args: Seq<Seq<char>>, lo: int, hi: int) -> Seq<char>
    decreases hi - lo,
{
    if hi <= lo {
        Seq::empty()
    } else if hi == lo + 1 {
        args[lo]
    } else {
        joined(args, lo, hi - 1) + seq![' '] + args[hi - 1]
    }
}

/// The day window for an optional argument.
pub open spec fn spec_days_arg(args: Seq<Seq<char>>, i: int) -> Result<(u32, u32), DaysError> {
    if i < args.len() { spec_parse_days_str(args[i]) } else { Ok((1, 7)) }
}

/// The text of an optional argument (empty when it is missing).
pub open spec fn spec_arg_text(args: Seq<Seq<char>>, i: int) -> Seq<char> {
    if i < args.len() { args[i] } else { Seq::empty() }
}

/// Index of the first `,` in `s`, or `s.len()`.
pub open spec fn find_comma(s: Seq<char>) -> int {
    crate::geo::find_char(s, ',')
}

/// The request made by the positional arguments `args` (`args[0]` is the program):
/// `lat,lng [days]`, `lat lng [days]` (when the first word reads as a number), or
/// `city words... [days]`; as (latitude or city name, longitude, is coordinates, day
/// window, day argument).
pub open spec fn spec_request(args: Seq<Seq<char>>, first_is_number: bool) -> Result<
    (Seq<char>, Seq<char>, bool, Result<(u32, u32), DaysError>, Seq<char>),
    ArgError,
> {
    if args.len() < 2 {
        Err(ArgError::Usage)
    } else {
        let first = args[1];
        let c = find_comma(first);
        if c < first.len() {
            Ok((
                first.subrange(0, c),
                first.subrange(c + 1, first.len() as int),
                true,
                spec_days_arg(args, 2),
                spec_arg_text(args, 2),
            ))
        } else if first_is_number {
            if args.len() < 3 {
                Err(ArgError::Usage)
            } else {
                Ok((first, args[2], true, spec_days_arg(args, 3), spec_arg_text(args, 3)))
            }
        } else if args.len() > 2 && spec_looks_like_days(args.last()) {
            Ok((
                joined(args, 1, args.len() - 1),
                Seq::empty(),
                false,
                spec_parse_days_str(args.last()),
                args.last(),
            ))
        } else {
            Ok((joined(args, 1, args.len() as int), Seq::empty(), false, Ok((1, 7)), Seq::empty()))
        }
    }
}

/// The request as plain values: (latitude or city name, longitude, is coordinates, day
/// window, day argument).
pub open spec fn request_view(r: Request) -> (
    Seq<char>,
    Seq<char>,
    bool,
    Result<(u32, u32), DaysError>,
    Seq<char>,
) {
    match r.place {
        Place::Coordinates { lat, lng } => (lat@, lng@, true, r.days, r.days_arg@),
        Place::City { name } => (name@, Seq::empty(), false, r.days, r.days_arg@),
    }
}

fn join_args(args: &Vec<String>, lo: usize, hi: usize) -> (r: Vec<char>)
    requires
        lo < hi <= args.len(),
    ensures
        r@ == joined(arg_views(args@), lo as int, hi as int),
{
    let ghost views = arg_views(args@);
    let mut r = chars_of(args[lo].as_str());
    let mut k: usize = lo + 1;
    while k < hi
        invariant
            lo < k <= hi <= args.len(),
            views == arg_views(args@),
            r@ == joined(views, lo as int, k as int),
        decreases hi - k,
    {
        r.push(' ');
        let w = chars_of(args[k].as_str());
        push_chars(&mut r, &w);
        k = k + 1;
        assert(r@ =~= joined(views, lo as int, k as int));
    }
    r
}

/// Reads the place and day window from the positional arguments; `first_is_number`
/// tells whether `args[1]` reads as a floating-point number.
pub fn parse_request(args: &Vec<String>, first_is_number: bool) -> (r: Result<Request, ArgError>)
    ensures
        match (r, spec_request(arg_views(args@), first_is_number)) {
            (Ok(q), Ok(s)) => request_view(q) == s,
            (Err(e), Err(f)) => e == f,
            _ => false,
        },
{
    let ghost views = arg_views(args@);
    if args.len() < 2 {
        return Err(ArgError::Usage);
    }
    let first = chars_of(args[1].as_str());
    assert(first@ == views[1]);
    let mut c: usize = 0;
    while c < first.len() && first[c] != ','
        invariant
            c <= first.len(),
            crate::geo::find_from(first@, ',', c as int) == find_comma(first@),
        decreases first.len() - c,
    {
        c = c + 1;
    }
    if c < first.len() {
        let days = if args.len() > 2 { parse_days(Some(&args[2])) } else { parse_days(None) };
        let days_arg = if args.len() > 2 { chars_of(args[2].as_str()) } else { Vec::new() };
        let mut lat: Vec<char> = Vec::new();
        let mut lng: Vec<char> = Vec::new();
        let mut k: usize = 0;
        while k < first.len()
            invariant
                c < first.len(),
                k <= first.len(),
                k <= c ==> lat@ == first@.subrange(0, k as int) && lng@.len() == 0,
                k > c ==> lat@ == first@.subrange(0, c as int) && lng@ == first@.subrange(c + 1, k as int),
            decreases first.len() - k,
        {
            if k < c {
                lat.push(first[k]);
                assert(lat@ =~= first@.subrange(0, k + 1));
            } else if k > c {
                lng.push(first[k]);
                assert(lng@ =~= first@.subrange(c + 1, k + 1));
            } else {
                assert(lng@ =~= first@.subrange(c + 1, k + 1));
            }
            k = k + 1;
        }
        assert(days_arg@ =~= spec_arg_text(views, 2));
        Ok(Request { place: Place::Coordinates { lat, lng }, days, days_arg })
    } else if first_is_number {
        if args.len() < 3 {
            return Err(ArgError::Usage);
        }
        let days = if args.len() > 3 { parse_days(Some(&args[3])) } else { parse_days(None) };
        let days_arg = if args.len() > 3 { chars_of(args[3].as_str()) } else { Vec::new() };
        let lng = chars_of(args[2].as_str());
        assert(days_arg@ =~= spec_arg_text(views, 3));
        Ok(Request { place: Place::Coordinates { lat: first, lng }, days, days_arg })
    } else {
        let n = args.len();
        if n > 2 && looks_like_days(args[n - 1].as_str()) {
            assert(views.last() == args@[n - 1]@);
            let days = parse_days_str(args[n - 1].as_str());
            let days_arg = chars_of(args[n - 1].as_str());
            let name = join_args(args, 1, n - 1);
            Ok(Request { place: Place::City { name }, days, days_arg })
        } else {
            proof {
                if n > 2 {
                    assert(views.last() == args@[n - 1]@);
                }
            }
            let name = join_args(args, 1, n);
            Ok(Request { place: Place::City { name }, days: Ok((1, 7)), days_arg: Vec::new() })
        }
    }
}

} // verus!

verus! {

/// Every language chosen from the system locale is one that `--lang` accepts, so that
/// detection never selects a language without a catalog.
pub proof fn law_detected_language_is_selectable(tag: Seq<char>)
    ensures
        is_known_lang(crate::locale::spec_lang_for_locale(tag)),
{
}

} // verus!
