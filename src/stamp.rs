//! Creation times of saves, as sortable text `YYYY-MM-DD HH:MM:SS`.
use vstd::prelude::*;
use chrono::{Datelike, Timelike};
use crate::text::{lex_lt, lemma_lex_concat};

verus! {

/// A local calendar date and wall-clock time.
#[derive(Clone, Copy, Debug, PartialEq, Eq, Structural)]
pub struct Stamp {
    pub year: i32,
    pub month: u32,
    pub day: u32,
    pub hour: u32,
    pub minute: u32,
    pub second: u32,
}

/// Whether `year` is a leap year of the (proleptic) Gregorian calendar.
pub open spec fn is_leap_year(year: int) -> bool {
    year % 4 == 0 && (year % 100 != 0 || year % 400 == 0)
}

/// The number of days of `month` (1 to 12) in `year`.
pub open spec fn days_in_month(year: int, month: int) -> int {
    if month == 2 {
        if is_leap_year(year) { 29 } else { 28 }
    } else if month == 4 || month == 6 || month == 9 || month == 11 {
        30
    } else {
        31
    }
}

impl Stamp {
    /// A real calendar date and a time of day without leap second.
    pub open spec fn valid(self) -> bool {
        &&& 1 <= self.month <= 12
        &&& 1 <= self.day <= days_in_month(self.year as int, self.month as int)
        &&& self.hour <= 23 && self.minute <= 59 && self.second <= 59
    }
}

/// The decimal digit `d` (below ten).
pub open spec fn digit_char(d: nat) -> char {
    if d == 0 { '0' }
    else if d == 1 { '1' }
    else if d == 2 { '2' }
    else if d == 3 { '3' }
    else if d == 4 { '4' }
    else if d == 5 { '5' }
    else if d == 6 { '6' }
    else if d == 7 { '7' }
    else if d == 8 { '8' }
    else { '9' }
}

/// `n` in decimal, without leading zeros.
pub open spec fn decimal(n: nat) -> Seq<char>
    decreases n,
{
    if n < 10 {
        seq![digit_char(n)]
    } else {
        decimal(n / 10).push(digit_char(n % 10))
    }
}

/// `n` in decimal, left-padded with `0` to at least two digits.
pub open spec fn two_digits(n: nat) -> Seq<char> {
    if n < 10 { seq!['0'] + decimal(n) } else { decimal(n) }
}

/// A year in decimal, with a leading `-` when negative.
pub open spec fn year_text(y: int) -> Seq<char> {
    if y >= 0 { decimal(y as nat) } else { seq!['-'] + decimal((-y) as nat) }
}

/// The time of day of a stamp: `HH:MM:SS`.
pub open spec fn clock_text(s: Stamp) -> Seq<char> {
    two_digits(s.hour as nat) + (seq![':'] + (two_digits(s.minute as nat) + (seq![':'] + two_digits(
        s.second as nat,
    ))))
}

/// What follows the year in the text of a stamp: `-MM-DD HH:MM:SS`.
pub open spec fn after_year_text(s: Stamp) -> Seq<char> {
    seq!['-'] + (two_digits(s.month as nat) + (seq!['-'] + (two_digits(s.day as nat) + (seq![' ']
        + clock_text(s)))))
}

/// The text of a stamp: `YYYY-MM-DD HH:MM:SS`.
pub open spec fn stamp_text(s: Stamp) -> Seq<char> {
    year_text(s.year as int) + after_year_text(s)
}

/// The text of the decimal digit `d`.
fn digit_str(d: u64) -> (r: &'static str)
    requires
        d < 10,
    ensures
        r@ == seq![digit_char(d as nat)],
{
    proof {
        reveal_strlit("0");
        reveal_strlit("1");
        reveal_strlit("2");
        reveal_strlit("3");
        reveal_strlit("4");
        reveal_strlit("5");
        reveal_strlit("6");
        reveal_strlit("7");
        reveal_strlit("8");
        reveal_strlit("9");
    }
    let r = if d == 0 { "0" }
    else if d == 1 { "1" }
    else if d == 2 { "2" }
    else if d == 3 { "3" }
    else if d == 4 { "4" }
    else if d == 5 { "5" }
    else if d == 6 { "6" }
    else if d == 7 { "7" }
    else if d == 8 { "8" }
    else { "9" };
    assert(r@ =~= seq![digit_char(d as nat)]);
    r
}

/// Appends `n` in decimal to `out`.
fn push_decimal(out: &mut String, n: u64)
    ensures
        final(out)@ == old(out)@ + decimal(n as nat),
    decreases n,
{
    if n < 10 {
        out.append(digit_str(n));
    } else {
        push_decimal(out, n / 10);
        out.append(digit_str(n % 10));
        assert(decimal(n as nat) == decimal((n / 10) as nat).push(digit_char((n % 10) as nat)));
        assert(final(out)@ =~= old(out)@ + decimal(n as nat));
    }
}

/// Appends `n` in decimal to `out`, padded to two digits.
fn push_two_digits(out: &mut String, n: u32)
    ensures
        final(out)@ == old(out)@ + two_digits(n as nat),
{
    if n < 10 {
        out.append(digit_str(0));
    }
    push_decimal(out, n as u64);
    assert(final(out)@ =~= old(out)@ + two_digits(n as nat));
}

/// Appends the single character `c` (given as a one-character literal) to `out`.
fn push_sep(out: &mut String, c: &str)
    ensures
        final(out)@ == old(out)@ + c@,
{
    out.append(c);
}

/// Appends the time of day of `s` to `out`.
fn push_clock(out: &mut String, s: &Stamp)
    ensures
        final(out)@ == old(out)@ + clock_text(*s),
{
    proof {
        reveal_strlit(":");
    }
    push_two_digits(out, s.hour);
    push_sep(out, ":");
    push_two_digits(out, s.minute);
    push_sep(out, ":");
    push_two_digits(out, s.second);
    assert(out@ =~= old(out)@ + clock_text(*s));
}

/// Appends what follows the year in the text of `s` to `out`.
fn push_after_year(out: &mut String, s: &Stamp)
    ensures
        final(out)@ == old(out)@ + after_year_text(*s),
{
    proof {
        reveal_strlit("-");
        reveal_strlit(" ");
    }
    push_sep(out, "-");
    push_two_digits(out, s.month);
    push_sep(out, "-");
    push_two_digits(out, s.day);
    push_sep(out, " ");
    push_clock(out, s);
    assert(out@ =~= old(out)@ + after_year_text(*s));
}

/// The text of `s`, `YYYY-MM-DD HH:MM:SS`: the year as is, the rest in two digits.
pub fn stamp_to_text(s: &Stamp) -> (r: String)
    ensures
        r@ == stamp_text(*s),
{
    proof {
        reveal_strlit("-");
    }
    let mut out = String::new();
    if s.year < 0 {
        push_sep(&mut out, "-");
        let a: i64 = -(s.year as i64);
        push_decimal(&mut out, a as u64);
    } else {
        push_decimal(&mut out, s.year as u64);
    }
    assert(out@ =~= year_text(s.year as int));
    push_after_year(&mut out, s);
    out
}

/// Relies on chrono's `Local::now` with `Datelike` and `Timelike`: the local
/// date and time now, a date of the proleptic Gregorian calendar (chrono's
/// `NaiveDate` holds only those) and each field within the range that chrono
/// documents.
#[verifier::external_body]
fn local_now() -> (r: Stamp)
    ensures
        r.valid(),
{
    let t = chrono::Local::now();
    Stamp {
        year: t.year(),
        month: t.month(),
        day: t.day(),
        hour: t.hour(),
        minute: t.minute(),
        second: t.second(),
    }
}

/// The text of the local time now.
pub fn timestamp() -> (r: String)
    ensures
        exists|s: Stamp| s.valid() && r@ == stamp_text(s),
{
    let s = local_now();
    stamp_to_text(&s)
}

/// Chronological order: by year, then month, day, hour, minute and second.
pub open spec fn earlier(a: Stamp, b: Stamp) -> bool {
    a.year < b.year || (a.year == b.year && (a.month < b.month || (a.month == b.month && (a.day < b.day
        || (a.day == b.day && (a.hour < b.hour || (a.hour == b.hour && (a.minute < b.minute || (
    a.minute == b.minute && a.second < b.second)))))))))
}

proof fn lemma_digit_char(d: nat)
    requires
        d < 10,
    ensures
        digit_char(d) as int == 48 + d,
{
}

proof fn lemma_one_char(a: char, b: char)
    ensures
        lex_lt(seq![a], seq![b]) == ((a as int) < (b as int)),
        (seq![a] == seq![b]) == (a == b),
{
    reveal_with_fuel(lex_lt, 2);
    assert(seq![a][0] == a && seq![b][0] == b);
    assert(seq![a].drop_first() =~= Seq::<char>::empty());
    assert(seq![b].drop_first() =~= Seq::<char>::empty());
    if seq![a] == seq![b] {
        assert(seq![a][0] == seq![b][0]);
    }
}

/// Decimal texts of equal length compare as the numbers do.
proof fn lemma_decimal_order(n: nat, m: nat)
    requires
        decimal(n).len() == decimal(m).len(),
    ensures
        lex_lt(decimal(n), decimal(m)) == (n < m),
        (decimal(n) == decimal(m)) == (n == m),
    decreases n,
{
    if n < 10 && m < 10 {
        lemma_digit_char(n);
        lemma_digit_char(m);
        lemma_one_char(digit_char(n), digit_char(m));
    } else if n >= 10 && m >= 10 {
        assert(decimal(n / 10).len() + 1 == decimal(n).len());
        lemma_decimal_order(n / 10, m / 10);
        lemma_digit_char(n % 10);
        lemma_digit_char(m % 10);
        lemma_one_char(digit_char(n % 10), digit_char(m % 10));
        assert(decimal(n) =~= decimal(n / 10) + seq![digit_char(n % 10)]);
        assert(decimal(m) =~= decimal(m / 10) + seq![digit_char(m % 10)]);
        lemma_lex_concat(decimal(n / 10), seq![digit_char(n % 10)], decimal(m / 10), seq![digit_char(m % 10)]);
    } else {
        lemma_decimal_len_pos(n);
        lemma_decimal_len_pos(m);
    }
}

proof fn lemma_decimal_len_pos(n: nat)
    ensures
        decimal(n).len() >= 1,
        n >= 10 ==> decimal(n).len() >= 2,
    decreases n,
{
    if n >= 10 {
        lemma_decimal_len_pos(n / 10);
    }
}

proof fn lemma_year_len(y: nat)
    requires
        1000 <= y <= 9999,
    ensures
        decimal(y).len() == 4,
{
    let y1 = y / 10;
    let y2 = y1 / 10;
    let y3 = y2 / 10;
    assert(decimal(y3).len() == 1);
    assert(decimal(y2).len() == decimal(y3).len() + 1);
    assert(decimal(y1).len() == decimal(y2).len() + 1);
    assert(decimal(y).len() == decimal(y1).len() + 1);
}

proof fn lemma_two_digits_form(n: nat)
    requires
        n < 100,
    ensures
        two_digits(n) =~= seq![digit_char(n / 10)] + seq![digit_char(n % 10)],
{
    if n < 10 {
        assert(decimal(n) == seq![digit_char(n)]);
        assert(n / 10 == 0 && n % 10 == n);
    } else {
        assert(n / 10 < 10);
        assert(decimal(n / 10) == seq![digit_char(n / 10)]);
        assert(decimal(n) == decimal(n / 10).push(digit_char(n % 10)));
    }
}

proof fn lemma_two_digits(n: nat, m: nat)
    requires
        n < 100,
        m < 100,
    ensures
        two_digits(n).len() == 2,
        two_digits(m).len() == 2,
        lex_lt(two_digits(n), two_digits(m)) == (n < m),
        (two_digits(n) == two_digits(m)) == (n == m),
{
    lemma_two_digits_form(n);
    lemma_two_digits_form(m);
    lemma_digit_char(n / 10);
    lemma_digit_char(m / 10);
    lemma_digit_char(n % 10);
    lemma_digit_char(m % 10);
    lemma_one_char(digit_char(n / 10), digit_char(m / 10));
    lemma_one_char(digit_char(n % 10), digit_char(m % 10));
    lemma_lex_concat(
        seq![digit_char(n / 10)],
        seq![digit_char(n % 10)],
        seq![digit_char(m / 10)],
        seq![digit_char(m % 10)],
    );
}

/// For years written with four digits, the text of one stamp comes before
/// the text of another exactly when it is earlier: listings sorted by text
/// are in time order.
pub proof fn lemma_text_order_is_time_order(a: Stamp, b: Stamp)
    requires
        a.valid(),
        b.valid(),
        1000 <= a.year <= 9999,
        1000 <= b.year <= 9999,
    ensures
        lex_lt(stamp_text(a), stamp_text(b)) == earlier(a, b),
{
    let ya = year_text(a.year as int);
    let yb = year_text(b.year as int);
    lemma_year_len(a.year as nat);
    lemma_year_len(b.year as nat);
    lemma_decimal_order(a.year as nat, b.year as nat);
    lemma_two_digits(a.month as nat, b.month as nat);
    lemma_two_digits(a.day as nat, b.day as nat);
    lemma_two_digits(a.hour as nat, b.hour as nat);
    lemma_two_digits(a.minute as nat, b.minute as nat);
    lemma_two_digits(a.second as nat, b.second as nat);
    let dash = seq!['-'];
    let space = seq![' '];
    let colon = seq![':'];
    let ma = two_digits(a.month as nat);
    let mb = two_digits(b.month as nat);
    let da = two_digits(a.day as nat);
    let db = two_digits(b.day as nat);
    let ha = two_digits(a.hour as nat);
    let hb = two_digits(b.hour as nat);
    let ia = two_digits(a.minute as nat);
    let ib = two_digits(b.minute as nat);
    let sa = two_digits(a.second as nat);
    let sb = two_digits(b.second as nat);
    lemma_lex_irreflexive_one('-');
    lemma_lex_irreflexive_one(' ');
    lemma_lex_irreflexive_one(':');
    let t9a = colon + sa;
    let t9b = colon + sb;
    lemma_lex_concat(colon, sa, colon, sb);
    let t8a = ia + t9a;
    let t8b = ib + t9b;
    lemma_lex_concat(ia, t9a, ib, t9b);
    let t7a = colon + t8a;
    let t7b = colon + t8b;
    lemma_lex_concat(colon, t8a, colon, t8b);
    let t6a = ha + t7a;
    let t6b = hb + t7b;
    lemma_lex_concat(ha, t7a, hb, t7b);
    let t5a = space + t6a;
    let t5b = space + t6b;
    lemma_lex_concat(space, t6a, space, t6b);
    let t4a = da + t5a;
    let t4b = db + t5b;
    lemma_lex_concat(da, t5a, db, t5b);
    let t3a = dash + t4a;
    let t3b = dash + t4b;
    lemma_lex_concat(dash, t4a, dash, t4b);
    let t2a = ma + t3a;
    let t2b = mb + t3b;
    lemma_lex_concat(ma, t3a, mb, t3b);
    let t1a = dash + t2a;
    let t1b = dash + t2b;
    lemma_lex_concat(dash, t2a, dash, t2b);
    lemma_lex_concat(ya, t1a, yb, t1b);
}

proof fn lemma_lex_irreflexive_one(c: char)
    ensures
        !lex_lt(seq![c], seq![c]),
{
    lemma_one_char(c, c);
}

} // verus!
