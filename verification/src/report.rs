use vstd::prelude::*;

use crate::application::{Application, ApplicationMap};
use crate::text::{chars_of, string_from_chars};
use crate::time::TimeSpan;

verus! {

broadcast use vstd::seq_lib::group_to_multiset_ensures;

// ---------------------------------------------------------------------------
// Bars
// ---------------------------------------------------------------------------

/// The width, in characters, of a bar for the longest usage.
pub open spec fn full_bar_width() -> nat {
    30
}

/// The number of blocks in the bar of `current` against `maximum`: whole seconds,
/// scaled so that `maximum` fills the full width, rounded down.
pub open spec fn bar_length(current: TimeSpan, maximum: TimeSpan) -> nat {
    ((current.secs as nat * full_bar_width()) / (maximum.secs as nat)) as nat
}

/// A run of `n` block characters.
pub open spec fn blocks(n: nat) -> Seq<char> {
    Seq::new(n, |i: int| '█')
}

/// The bar drawn for `current` against `maximum`: empty when `maximum` is no time
/// at all, otherwise `bar_length` blocks.
pub open spec fn bar(current: TimeSpan, maximum: TimeSpan) -> Seq<char> {
    if maximum.secs == 0 && maximum.nanos == 0 {
        Seq::empty()
    } else {
        blocks(bar_length(current, maximum))
    }
}

/// A bar can be drawn: a non-empty `maximum` has whole seconds to divide by, and
/// scaling `current` stays within `u64`.
pub open spec fn bar_fits(current: TimeSpan, maximum: TimeSpan) -> bool {
    !(maximum.secs == 0 && maximum.nanos == 0) ==> (maximum.secs > 0 && current.secs * 30
        <= u64::MAX)
}

/// The bar of `current` against `maximum`.
pub fn create_bar(current: TimeSpan, maximum: TimeSpan) -> (b: String)
    requires
        bar_fits(current, maximum),
    ensures
        b@ == bar(current, maximum),
{
    if maximum.is_zero() {
        return String::new();
    }
    let n: u64 = current.secs * 30 / maximum.secs;
    let mut b = String::new();
    let mut k: u64 = 0;
    proof {
        reveal_strlit("█");
    }
    while k < n
        invariant
            k <= n,
            b@ == blocks(k as nat),
        decreases n - k,
    {
        let ghost prev = b@;
        b.append("█");
        assert(b@ == prev + "█"@);
        proof {
            reveal_strlit("█");
        }
        assert("█"@ =~= seq!['█']);
        assert(b@ =~= blocks((k + 1) as nat));
        k = k + 1;
    }
    assert(b@ =~= bar(current, maximum));
    b
}

// ---------------------------------------------------------------------------
// Ordering by usage
// ---------------------------------------------------------------------------

/// Each application has been used at least as long as every one after it.
pub open spec fn usage_descending(apps: Seq<Application>) -> bool {
    forall|i: int, j: int|
        0 <= i < j < apps.len() ==> apps[i].usage.total_time.at_least(apps[j].usage.total_time)
}

/// The applications of `applications`, the most used first.
pub fn applications_by_usage(applications: &ApplicationMap) -> (sorted: Vec<Application>)
    ensures
        sorted@.to_multiset() == applications.values().to_multiset(),
        usage_descending(sorted@),
{
    let ghost vals = applications.values();
    let n = applications.len();
    let mut sorted: Vec<Application> = Vec::new();
    let mut i: usize = 0;
    while i < n
        invariant
            n == vals.len(),
            vals == applications.values(),
            i <= n,
            sorted@.to_multiset() == vals.take(i as int).to_multiset(),
            usage_descending(sorted@),
        decreases n - i,
    {
        let app = applications.app_at(i).clone();
        let t = app.usage.total_time;
        let mut p: usize = 0;
        while p < sorted.len() && sorted[p].usage.total_time.is_at_least(&t)
            invariant
                p <= sorted@.len(),
                forall|j: int| 0 <= j < p ==> sorted@[j].usage.total_time.at_least(t),
            decreases sorted@.len() - p,
        {
            p = p + 1;
        }
        let ghost before = sorted@;
        sorted.insert(p, app);
        assert(vals.take(i + 1) =~= vals.take(i as int).push(vals[i as int]));
        assert(sorted@.to_multiset() == before.to_multiset().insert(app));
        assert forall|a: int, b: int| 0 <= a < b < sorted@.len() implies sorted@[a].usage.total_time.at_least(
            sorted@[b].usage.total_time,
        ) by {
            if b < p {
            } else if b == p {
            } else if a < p {
                assert(sorted@[b] == before[b - 1]);
            } else if a == p {
                assert(sorted@[b] == before[b - 1]);
                assert(p < before.len());
                assert(!before[p as int].usage.total_time.at_least(t));
                if b - 1 > p {
                    assert(before[p as int].usage.total_time.at_least(before[b - 1].usage.total_time));
                }
            } else {
                assert(sorted@[a] == before[a - 1]);
                assert(sorted@[b] == before[b - 1]);
            }
        }
        i = i + 1;
    }
    assert(vals.take(n as int) =~= vals);
    sorted
}

// ---------------------------------------------------------------------------
// Rows of the usage report
// ---------------------------------------------------------------------------

/// `s` padded with spaces on the right to `width` characters, as `{:<width}`
/// writes it; a longer text is left as it is.
pub open spec fn pad_right(s: Seq<char>, width: nat) -> Seq<char> {
    if s.len() < width {
        s + Seq::new((width - s.len()) as nat, |i: int| ' ')
    } else {
        s
    }
}

/// The decimal digit `d`.
pub open spec fn digit(d: nat) -> char {
    seq!['0', '1', '2', '3', '4', '5', '6', '7', '8', '9'][d as int]
}

/// `n` in decimal, without leading zeros.
pub open spec fn decimal(n: nat) -> Seq<char>
    decreases n,
{
    if n < 10 {
        seq![digit(n)]
    } else {
        decimal(n / 10).push(digit(n % 10))
    }
}

/// `n` in decimal with at least two digits, as `{:02}` writes it.
pub open spec fn two_digits(n: nat) -> Seq<char> {
    if n < 10 {
        seq!['0', digit(n)]
    } else {
        decimal(n)
    }
}

/// Whole hours in `t`.
pub open spec fn hours_of(t: TimeSpan) -> nat {
    (t.secs / 3600) as nat
}

/// Whole minutes in `t` beyond its whole hours.
pub open spec fn minutes_of(t: TimeSpan) -> nat {
    ((t.secs % 3600) / 60) as nat
}

/// The report row of `app` against the longest usage `maximum`: the display name
/// in a column of 40, a bar in a column of 30, and the hours and minutes used.
pub open spec fn usage_row_text(app: Application, maximum: TimeSpan) -> Seq<char> {
    let t = app.usage.total_time;
    pad_right(app.display_name@, 40) + seq![' ', '|', ' '] + pad_right(bar(t, maximum), 30)
        + seq![' '] + two_digits(hours_of(t)) + seq!['h', ' '] + two_digits(minutes_of(t))
        + seq!['m', '\n']
}

fn push_chars(out: &mut Vec<char>, s: &Vec<char>)
    ensures
        final(out)@ == old(out)@ + s@,
{
    let mut k: usize = 0;
    while k < s.len()
        invariant
            k <= s@.len(),
            out@ == old(out)@ + s@.take(k as int),
        decreases s@.len() - k,
    {
        out.push(s[k]);
        assert(s@.take(k + 1) =~= s@.take(k as int).push(s@[k as int]));
        assert(old(out)@ + s@.take(k + 1) =~= old(out)@ + s@.take(k as int) + seq![s@[k as int]]);
        k = k + 1;
    }
    assert(s@.take(k as int) =~= s@);
}

fn push_padded(out: &mut Vec<char>, s: &Vec<char>, width: usize)
    ensures
        final(out)@ == old(out)@ + pad_right(s@, width as nat),
{
    push_chars(out, s);
    if s.len() < width {
        let ghost mid = out@;
        let mut k: usize = s.len();
        while k < width
            invariant
                s@.len() <= k <= width,
                out@ == mid + Seq::new((k - s@.len()) as nat, |i: int| ' '),
            decreases width - k,
        {
            out.push(' ');
            assert(out@ =~= mid + Seq::new((k + 1 - s@.len()) as nat, |i: int| ' '));
            k = k + 1;
        }
        assert(out@ =~= old(out)@ + pad_right(s@, width as nat));
    } else {
        assert(pad_right(s@, width as nat) == s@);
    }
}

fn digit_char(d: u64) -> (c: char)
    requires
        d < 10,
    ensures
        c == digit(d as nat),
{
    let digits: [char; 10] = ['0', '1', '2', '3', '4', '5', '6', '7', '8', '9'];
    assert(digits@ =~= seq!['0', '1', '2', '3', '4', '5', '6', '7', '8', '9']);
    digits[d as usize]
}

fn push_decimal(out: &mut Vec<char>, n: u64)
    ensures
        final(out)@ == old(out)@ + decimal(n as nat),
    decreases n,
{
    if n >= 10 {
        push_decimal(out, n / 10);
    }
    out.push(digit_char(n % 10));
    assert(final(out)@ =~= old(out)@ + decimal(n as nat));
}

fn push_two_digits(out: &mut Vec<char>, n: u64)
    ensures
        final(out)@ == old(out)@ + two_digits(n as nat),
{
    if n < 10 {
        out.push('0');
    }
    push_decimal(out, n);
    assert(final(out)@ =~= old(out)@ + two_digits(n as nat));
}

/// The report row of `app` against the longest usage `maximum`.
pub fn usage_row(app: &Application, maximum: TimeSpan) -> (row: String)
    requires
        bar_fits(app.usage.total_time, maximum),
    ensures
        row@ == usage_row_text(*app, maximum),
{
    let t = app.usage.total_time;
    let mut out: Vec<char> = Vec::new();
    let name = chars_of(app.display_name.as_str());
    push_padded(&mut out, &name, 40);
    out.push(' ');
    out.push('|');
    out.push(' ');
    let bar_text = create_bar(t, maximum);
    let bar_chars = chars_of(bar_text.as_str());
    push_padded(&mut out, &bar_chars, 30);
    out.push(' ');
    push_two_digits(&mut out, t.secs / 3600);
    out.push('h');
    out.push(' ');
    push_two_digits(&mut out, (t.secs % 3600) / 60);
    out.push('m');
    out.push('\n');
    assert(out@ =~= usage_row_text(*app, maximum));
    string_from_chars(&out)
}

/// The rows of the report for `sorted`, each drawn against the first one's usage.
pub fn usage_rows(sorted: &Vec<Application>) -> (rows: Vec<String>)
    requires
        forall|i: int|
            0 <= i < sorted@.len() ==> bar_fits(
                #[trigger] sorted@[i].usage.total_time,
                sorted@[0].usage.total_time,
            ),
    ensures
        rows@.len() == sorted@.len(),
        forall|i: int|
            0 <= i < sorted@.len() ==> #[trigger] rows@[i]@ == usage_row_text(
                sorted@[i],
                sorted@[0].usage.total_time,
            ),
{
    let mut rows: Vec<String> = Vec::new();
    if sorted.len() == 0 {
        return rows;
    }
    let maximum = sorted[0].usage.total_time;
    let mut i: usize = 0;
    while i < sorted.len()
        invariant
            i <= sorted@.len(),
            sorted@.len() > 0,
            maximum == sorted@[0].usage.total_time,
            forall|j: int|
                0 <= j < sorted@.len() ==> bar_fits(#[trigger] sorted@[j].usage.total_time, maximum),
            rows@.len() == i,
            forall|j: int|
                0 <= j < i ==> #[trigger] rows@[j]@ == usage_row_text(sorted@[j], maximum),
        decreases sorted@.len() - i,
    {
        let row = usage_row(&sorted[i], maximum);
        rows.push(row);
        i = i + 1;
    }
    rows
}

// ---------------------------------------------------------------------------
// The usage report
// ---------------------------------------------------------------------------

/// The inputs on which the report can be drawn: scaling any usage for its bar stays
/// within `u64`, and when no application has a whole second of use, none has any
/// use at all (so the longest usage is either none or at least a second).
pub open spec fn report_fits(apps: Seq<Application>) -> bool {
    &&& forall|i: int| 0 <= i < apps.len() ==> #[trigger] apps[i].usage.total_time.secs * 30 <= u64::MAX
    &&& (forall|i: int| 0 <= i < apps.len() ==> #[trigger] apps[i].usage.total_time.secs == 0)
        ==> (forall|i: int| 0 <= i < apps.len() ==> #[trigger] apps[i].usage.total_time.nanos == 0)
}

/// What the report says when there is nothing to report.
pub open spec fn no_applications_text() -> Seq<char> {
    "No applications found."@
}

/// The lines of the usage report: one row per application, the most used first,
/// each with a bar against the most used one; or a single line saying that there
/// are no applications.
pub fn usage_report(applications: &ApplicationMap) -> (lines: Vec<String>)
    requires
        report_fits(applications.values()),
    ensures
        applications.values().len() == 0 ==> lines@.len() == 1 && lines@[0]@
            == no_applications_text(),
        applications.values().len() > 0 ==> exists|sorted: Seq<Application>|
            {
                &&& sorted.to_multiset() == applications.values().to_multiset()
                &&& usage_descending(sorted)
                &&& lines@.len() == sorted.len()
                &&& forall|i: int|
                    0 <= i < sorted.len() ==> #[trigger] lines@[i]@ == usage_row_text(
                        sorted[i],
                        sorted[0].usage.total_time,
                    )
            },
{
    if applications.len() == 0 {
        let mut lines: Vec<String> = Vec::new();
        lines.push("No applications found.".to_owned());
        return lines;
    }
    let sorted = applications_by_usage(applications);
    let ghost vals = applications.values();
    let ghost srt = sorted@;
    proof {
        assert forall|i: int| 0 <= i < srt.len() implies vals.contains(#[trigger] srt[i]) by {
            assert(srt.contains(srt[i]));
            assert(srt.to_multiset().count(srt[i]) > 0);
        }
        assert(srt.to_multiset().len() == vals.to_multiset().len());
        assert(srt.len() == vals.len());
        let m = srt[0].usage.total_time;
        assert forall|i: int| 0 <= i < srt.len() implies bar_fits(
            #[trigger] srt[i].usage.total_time,
            m,
        ) by {
            assert(vals.contains(srt[i]));
            let k = choose|k: int| 0 <= k < vals.len() && vals[k] == srt[i];
            assert(vals[k].usage.total_time.secs * 30 <= u64::MAX);
            if !(m.secs == 0 && m.nanos == 0) && m.secs == 0 {
                assert forall|j: int| 0 <= j < vals.len() implies #[trigger] vals[j].usage.total_time.secs
                    == 0 by {
                    assert(vals.contains(vals[j]));
                    assert(vals.to_multiset().count(vals[j]) > 0);
                    assert(srt.contains(vals[j]));
                    let q = choose|q: int| 0 <= q < srt.len() && srt[q] == vals[j];
                    if q > 0 {
                        assert(srt[0].usage.total_time.at_least(srt[q].usage.total_time));
                    }
                }
                assert(vals.contains(srt[0]));
                let z = choose|z: int| 0 <= z < vals.len() && vals[z] == srt[0];
                assert(vals[z].usage.total_time.nanos == 0);
            }
        }
    }
    let lines = usage_rows(&sorted);
    lines
}

/// Whether the report can be drawn for `applications` (see [`report_fits`]).
pub fn can_report(applications: &ApplicationMap) -> (r: bool)
    ensures
        r == report_fits(applications.values()),
{
    let ghost vals = applications.values();
    let n = applications.len();
    let mut all_scale = true;
    let mut all_secs_zero = true;
    let mut all_nanos_zero = true;
    let mut i: usize = 0;
    while i < n
        invariant
            n == vals.len(),
            vals == applications.values(),
            i <= n,
            all_scale == forall|j: int| 0 <= j < i ==> #[trigger] vals[j].usage.total_time.secs * 30 <= u64::MAX,
            all_secs_zero == forall|j: int| 0 <= j < i ==> #[trigger] vals[j].usage.total_time.secs == 0,
            all_nanos_zero == forall|j: int| 0 <= j < i ==> #[trigger] vals[j].usage.total_time.nanos == 0,
        decreases n - i,
    {
        let t = applications.app_at(i).usage.total_time;
        if t.secs > u64::MAX / 30 {
            all_scale = false;
        }
        if t.secs != 0 {
            all_secs_zero = false;
        }
        if t.nanos != 0 {
            all_nanos_zero = false;
        }
        i = i + 1;
    }
    all_scale && (!all_secs_zero || all_nanos_zero)
}

/// The longest usage fills the full bar width, and a usage no longer than it never
/// draws a longer bar.
pub proof fn law_bar_within_width(current: TimeSpan, maximum: TimeSpan)
    requires
        maximum.secs > 0,
        current.secs <= maximum.secs,
    ensures
        bar_length(current, maximum) <= full_bar_width(),
        bar_length(maximum, maximum) == full_bar_width(),
        bar(maximum, maximum).len() == full_bar_width(),
{
    let c = current.secs as nat;
    let m = maximum.secs as nat;
    assert((c * 30) / m <= 30) by (nonlinear_arith)
        requires
            c <= m,
            m > 0,
    ;
    assert((m * 30) / m == 30) by (nonlinear_arith)
        requires
            m > 0,
    ;
}

/// The value of a decimal digit character (0 for any other character).
pub open spec fn digit_value(c: char) -> nat {
    if c == '1' {
        1
    } else if c == '2' {
        2
    } else if c == '3' {
        3
    } else if c == '4' {
        4
    } else if c == '5' {
        5
    } else if c == '6' {
        6
    } else if c == '7' {
        7
    } else if c == '8' {
        8
    } else if c == '9' {
        9
    } else {
        0
    }
}

/// A decimal digit character.
pub open spec fn is_digit(c: char) -> bool {
    c == '0' || c == '1' || c == '2' || c == '3' || c == '4' || c == '5' || c == '6' || c == '7'
        || c == '8' || c == '9'
}

/// The number that the decimal digits `s` read as.
pub open spec fn decimal_value(s: Seq<char>) -> nat
    decreases s.len(),
{
    if s.len() == 0 {
        0
    } else {
        decimal_value(s.drop_last()) * 10 + digit_value(s.last())
    }
}

proof fn lemma_digit_reads_back(d: nat)
    requires
        d < 10,
    ensures
        digit_value(digit(d)) == d,
        is_digit(digit(d)),
{
    let ds = seq!['0', '1', '2', '3', '4', '5', '6', '7', '8', '9'];
    assert(digit(d) == ds[d as int]);
    if d == 0 {
        assert(ds[0] == '0');
    } else if d == 1 {
        assert(ds[1] == '1');
    } else if d == 2 {
        assert(ds[2] == '2');
    } else if d == 3 {
        assert(ds[3] == '3');
    } else if d == 4 {
        assert(ds[4] == '4');
    } else if d == 5 {
        assert(ds[5] == '5');
    } else if d == 6 {
        assert(ds[6] == '6');
    } else if d == 7 {
        assert(ds[7] == '7');
    } else if d == 8 {
        assert(ds[8] == '8');
    } else {
        assert(ds[9] == '9');
    }
}

proof fn lemma_decimal_reads_back(n: nat)
    ensures
        decimal_value(decimal(n)) == n,
        forall|i: int| 0 <= i < decimal(n).len() ==> is_digit(#[trigger] decimal(n)[i]),
        decimal(n).len() >= 1,
        n < 10 ==> decimal(n).len() == 1,
        n >= 10 ==> decimal(n).len() >= 2,
        10 <= n < 100 ==> decimal(n).len() == 2,
    decreases n,
{
    if n < 10 {
        lemma_digit_reads_back(n);
        let d = decimal(n);
        assert(d.drop_last() =~= Seq::<char>::empty());
        assert(d.last() == digit(n));
        assert(decimal_value(d) == decimal_value(d.drop_last()) * 10 + digit_value(d.last()));
    } else {
        lemma_decimal_reads_back(n / 10);
        lemma_digit_reads_back(n % 10);
        let d = decimal(n);
        assert(d.drop_last() =~= decimal(n / 10));
        assert(d.last() == digit(n % 10));
        assert(n == (n / 10) * 10 + n % 10);
        assert(decimal_value(d) == decimal_value(d.drop_last()) * 10 + digit_value(d.last()));
        assert forall|i: int| 0 <= i < d.len() implies is_digit(#[trigger] d[i]) by {
            if i < d.len() - 1 {
                assert(d[i] == decimal(n / 10)[i]);
            }
        }
    }
}

/// A number written with at least two digits reads back as itself: `two_digits`
/// gives only decimal digits, at least two of them, exactly two below a hundred.
pub proof fn law_two_digits_reads_back(n: nat)
    ensures
        decimal_value(two_digits(n)) == n,
        forall|i: int| 0 <= i < two_digits(n).len() ==> is_digit(#[trigger] two_digits(n)[i]),
        two_digits(n).len() >= 2,
        n < 100 ==> two_digits(n).len() == 2,
{
    lemma_decimal_reads_back(n);
    if n < 10 {
        lemma_digit_reads_back(n);
        let t = two_digits(n);
        let z = seq!['0'];
        assert(t.drop_last() =~= z);
        assert(z.drop_last() =~= Seq::<char>::empty());
        assert(z.last() == '0');
        assert(decimal_value(z) == decimal_value(z.drop_last()) * 10 + digit_value(z.last()));
        assert(t.last() == digit(n));
        assert(decimal_value(t) == decimal_value(t.drop_last()) * 10 + digit_value(t.last()));
        assert forall|i: int| 0 <= i < t.len() implies is_digit(#[trigger] t[i]) by {
            if i == 0 {
                assert(t[0] == '0');
            } else {
                assert(t[1] == digit(n));
            }
        }
    }
}

/// A report row shows the usage as hours and minutes that recompose its whole
/// minutes: the row is the display name, the bar, then `h` hours and `m` minutes
/// written with at least two digits, where `60 * h + m` is the number of whole
/// minutes used and `m` is below sixty.
pub proof fn law_row_shows_whole_minutes(app: Application, maximum: TimeSpan)
    ensures
        exists|h: nat, m: nat|
            {
                &&& 60 * h + m == app.usage.total_time.secs / 60
                &&& m < 60
                &&& usage_row_text(app, maximum) == pad_right(app.display_name@, 40) + seq![
                    ' ',
                    '|',
                    ' ',
                ] + pad_right(bar(app.usage.total_time, maximum), 30) + seq![' '] + two_digits(h)
                    + seq!['h', ' '] + two_digits(m) + seq!['m', '\n']
            },
{
    let s = app.usage.total_time.secs as nat;
    let h = hours_of(app.usage.total_time);
    let m = minutes_of(app.usage.total_time);
    assert(60 * (s / 3600) + (s % 3600) / 60 == s / 60 && (s % 3600) / 60 < 60) by (nonlinear_arith);
    assert(60 * h + m == app.usage.total_time.secs / 60 && m < 60);
    assert(usage_row_text(app, maximum) == pad_right(app.display_name@, 40) + seq![' ', '|', ' ']
        + pad_right(bar(app.usage.total_time, maximum), 30) + seq![' '] + two_digits(h) + seq![
        'h',
        ' ',
    ] + two_digits(m) + seq!['m', '\n']);
}

/// A bar has as many blocks as the usage's whole seconds fill of thirty equal
/// parts of the longest usage (rounded down), and nothing but blocks.
pub proof fn law_bar_counts_thirtieths(current: TimeSpan, maximum: TimeSpan)
    requires
        maximum.secs > 0,
    ensures
        bar(current, maximum).len() * maximum.secs <= current.secs * 30,
        current.secs * 30 < (bar(current, maximum).len() + 1) * maximum.secs,
        forall|i: int| 0 <= i < bar(current, maximum).len() ==> #[trigger] bar(current, maximum)[i]
            == '█',
{
    let c = current.secs as nat;
    let m = maximum.secs as nat;
    let q = (c * 30) / m;
    assert(q * m <= c * 30 && c * 30 < (q + 1) * m) by (nonlinear_arith)
        requires
            m > 0,
            q == (c * 30) / m,
    ;
}

/// A padded column holds the text and then spaces up to the width: it is as long
/// as the longer of the text and the width, begins with the text, and is spaces
/// after it.
pub proof fn law_pad_right_column(s: Seq<char>, width: nat)
    ensures
        pad_right(s, width).len() == if s.len() < width { width } else { s.len() },
        pad_right(s, width).subrange(0, s.len() as int) == s,
        forall|i: int|
            s.len() <= i < pad_right(s, width).len() ==> #[trigger] pad_right(s, width)[i] == ' ',
{
    assert(pad_right(s, width).subrange(0, s.len() as int) =~= s);
}

} // verus!
