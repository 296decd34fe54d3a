//! The three-reel date picker: turning a reel, and the labels the reels show.
use vstd::prelude::*;

use crate::date::{month_days, CreatedDay};
use crate::text::{decimal, decimal_of, string_from};

verus! {

/// The first year the picker offers.
pub const YEAR_MIN: i32 = 2005;

#[derive(Clone, Copy, Debug, PartialEq, Eq, Structural)]
pub enum Reel {
    Year,
    Month,
    Day,
}

/// The year, month and day the reels show; the day may exceed the month until clamped.
#[derive(Clone, Copy, Debug, PartialEq, Eq, Structural)]
pub struct Parts {
    pub year: i32,
    pub month: u32,
    pub day: u32,
}

/// `value` modulo `modulus`, into `0..modulus`; a modulus below 1 counts as 1.
pub open spec fn wrapped(value: int, modulus: int) -> int {
    value % (if modulus < 1 { 1 } else { modulus })
}

/// `value.rem_euclid(modulus.max(1))`.
pub fn wrap(value: i32, modulus: i32) -> (r: i32)
    ensures
        r as int == wrapped(value as int, modulus as int),
{
    let m: i64 = if modulus < 1 { 1 } else { modulus as i64 };
    let v: i64 = value as i64;
    let r: i64 = if v >= 0 {
        v % m
    } else {
        let q: i64 = (-v) % m;
        proof { lemma_neg_mod(v as int, m as int); }
        if q == 0 { 0 } else { m - q }
    };
    r as i32
}

proof fn lemma_neg_mod(v: int, m: int)
    requires
        v < 0,
        m >= 1,
    ensures
        ((-v) % m == 0 ==> v % m == 0),
        ((-v) % m != 0 ==> v % m == m - (-v) % m),
{
    let q = (-v) / m;
    let r = (-v) % m;
    assert(-v == q * m + r) by (nonlinear_arith)
        requires m >= 1, q == (-v) / m, r == (-v) % m;
    assert(0 <= r < m);
    if r == 0 {
        assert(v == (-q) * m) by (nonlinear_arith)
            requires -v == q * m + r, r == 0;
        vstd::arithmetic::div_mod::lemma_mod_multiples_basic(-q, m);
    } else {
        assert(v == (-q - 1) * m + (m - r)) by (nonlinear_arith)
            requires -v == q * m + r;
        vstd::arithmetic::div_mod::lemma_fundamental_div_mod_converse(v, m, -q - 1, m - r);
    }
}

/// `parts` with the day lowered to the last day of its month where it runs past it.
pub open spec fn clamped(p: Parts) -> Parts {
    let days = month_days(p.year as int, p.month as int);
    Parts { year: p.year, month: p.month, day: if p.day <= days { p.day } else { days } }
}

/// Turning a reel does not overflow: the year step, and the month and day steps on
/// the values as `i32`.
pub open spec fn spin_fits(p: Parts, reel: Reel, dir: i32) -> bool {
    match reel {
        Reel::Year => i32::MIN <= p.year + dir <= i32::MAX,
        Reel::Month => i32::MIN <= (p.month as i32) - 1 && i32::MIN <= (p.month as i32) - 1 + dir <= i32::MAX,
        Reel::Day => i32::MIN <= (p.day as i32) - 1 && i32::MIN <= (p.day as i32) - 1 + dir <= i32::MAX,
    }
}

/// The parts after turning `reel` by `dir`, or `None` when the year would leave
/// `YEAR_MIN..=year_max`. Month and day turn circularly; the day is then clamped.
pub open spec fn spun(p: Parts, reel: Reel, dir: i32, year_max: i32) -> Option<Parts> {
    match reel {
        Reel::Year => {
            let next = p.year + dir;
            if YEAR_MIN <= next <= year_max {
                Some(clamped(Parts { year: next as i32, ..p }))
            } else {
                None
            }
        },
        Reel::Month => Some(clamped(Parts {
            month: (wrapped((p.month as i32) - 1 + dir, 12) + 1) as u32,
            ..p
        })),
        Reel::Day => {
            let days = month_days(p.year as int, p.month as int) as i32;
            Some(Parts { day: (wrapped((p.day as i32) - 1 + dir, days as int) + 1) as u32, ..p })
        },
    }
}

/// The day reel is a ring of the month's days: turning it forward from the month's last
/// day lands on day 1, and backward from day 1 on the last day; the year and month stay.
/// For September that last day is the 30th.
pub proof fn lemma_day_reel_wraps(p: Parts, year_max: i32)
    requires
        1 <= p.month <= 12,
    ensures
        p.day == month_days(p.year as int, p.month as int) ==> spun(p, Reel::Day, 1i32, year_max)
            == Some(Parts { day: 1, ..p }),
        p.day == 1 ==> spun(p, Reel::Day, -1i32, year_max)
            == Some(Parts { day: month_days(p.year as int, p.month as int), ..p }),
        p.month == 9 && p.day == 30 ==> spun(p, Reel::Day, 1i32, year_max) == Some(Parts { day: 1, ..p }),
{
    crate::date::lemma_gregorian_month_lengths(p.year as int);
    let days = month_days(p.year as int, p.month as int) as int;
    assert(28 <= days <= 31);
    if p.day == days {
        assert((days - 1 + 1) % days == 0) by {
            vstd::arithmetic::div_mod::lemma_mod_self_0(days);
        }
    }
    if p.day == 1 {
        assert((1 - 1 - 1) % days == days - 1) by {
            vstd::arithmetic::div_mod::lemma_fundamental_div_mod_converse(-1, days, -1, days - 1);
        }
    }
}

impl Parts {
    /// Turns `reel` by `dir` steps; `false`, with nothing changed, when the year would
    /// leave `YEAR_MIN..=year_max`.
    pub fn spin(&mut self, reel: Reel, dir: i32, year_max: i32) -> (r: bool)
        requires
            spin_fits(*old(self), reel, dir),
        ensures
            match spun(*old(self), reel, dir, year_max) {
                Some(p) => r && *final(self) == p,
                None => !r && *final(self) == *old(self),
            },
    {
        match reel {
            Reel::Year => {
                let next = self.year + dir;
                if !(YEAR_MIN <= next && next <= year_max) {
                    return false;
                }
                self.year = next;
                self.clamp_day();
            },
            Reel::Month => {
                self.month = (wrap(self.month as i32 - 1 + dir, 12) + 1) as u32;
                self.clamp_day();
            },
            Reel::Day => {
                let days = CreatedDay::days_in_month(self.year, self.month) as i32;
                self.day = (wrap(self.day as i32 - 1 + dir, days) + 1) as u32;
            },
        }
        true
    }

    /// Lowers the day to the last day of the month where it runs past it.
    pub fn clamp_day(&mut self)
        ensures
            *final(self) == clamped(*old(self)),
    {
        let days = CreatedDay::days_in_month(self.year, self.month);
        if self.day > days {
            self.day = days;
        }
    }

    /// The day the parts name, or `today` when they name none.
    pub fn day(self, today: CreatedDay) -> (r: CreatedDay)
        ensures
            crate::date::valid_ymd(self.year as int, self.month as int, self.day as int)
                ==> r.ymd_spec() == (self.year as int, self.month as int, self.day as int),
            !crate::date::valid_ymd(self.year as int, self.month as int, self.day as int) ==> r == today,
    {
        match CreatedDay::from_ymd(self.year, self.month, self.day) {
            Some(day) => day,
            None => today,
        }
    }

    pub fn from_ymd(ymd: (i32, u32, u32)) -> (r: Parts)
        ensures
            r == (Parts { year: ymd.0, month: ymd.1, day: ymd.2 }),
    {
        Parts { year: ymd.0, month: ymd.1, day: ymd.2 }
    }
}

/// `n` in decimal, padded with leading zeros to `width` characters; a minus sign
/// counts toward the width, as `{:0width$}` formats it.
pub open spec fn padded(n: int, width: nat) -> Seq<char> {
    let digits = decimal((if n < 0 { -n } else { n }) as nat);
    let room = if n < 0 { width - 1 } else { width as int };
    let zeros = Seq::new((if room > digits.len() { room - digits.len() } else { 0 }) as nat, |i: int| '0');
    if n < 0 { seq!['-'] + zeros + digits } else { zeros + digits }
}

fn zero_padded(n: i64, width: usize) -> (r: Vec<char>)
    requires
        -0x1_0000_0000 < n < 0x1_0000_0000,
        1 <= width <= 8,
    ensures
        r@ == padded(n as int, width as nat),
{
    let magnitude: u64 = if n < 0 { (-n) as u64 } else { n as u64 };
    let digits = decimal_of(magnitude);
    let room: usize = if n < 0 { width - 1 } else { width };
    let mut out: Vec<char> = Vec::new();
    if n < 0 {
        out.push('-');
    }
    let ghost front = out@;
    let fill: usize = if room > digits.len() { room - digits.len() } else { 0 };
    let mut k: usize = 0;
    while k < fill
        invariant
            k <= fill,
            out@ == front + Seq::new(k as nat, |i: int| '0'),
        decreases fill - k,
    {
        out.push('0');
        assert(out@ =~= front + Seq::new((k + 1) as nat, |i: int| '0'));
        k = k + 1;
    }
    let mut j: usize = 0;
    let ghost middle = out@;
    while j < digits.len()
        invariant
            j <= digits@.len(),
            out@ == middle + digits@.take(j as int),
        decreases digits.len() - j,
    {
        out.push(digits[j]);
        assert(out@ =~= middle + digits@.take(j + 1));
        j = j + 1;
    }
    assert(digits@.take(j as int) =~= digits@);
    if n < 0 {
        assert(out@ =~= padded(n as int, width as nat));
    } else {
        assert(front =~= Seq::<char>::empty());
        assert(out@ =~= padded(n as int, width as nat));
    }
    out
}

pub open spec fn month_name(i: int) -> Seq<char> {
    if i == 0 { "JAN"@ } else if i == 1 { "FEB"@ } else if i == 2 { "MAR"@ } else if i == 3 { "APR"@ }
    else if i == 4 { "MAY"@ } else if i == 5 { "JUN"@ } else if i == 6 { "JUL"@ } else if i == 7 { "AUG"@ }
    else if i == 8 { "SEP"@ } else if i == 9 { "OCT"@ } else if i == 10 { "NOV"@ } else { "DEC"@ }
}

fn month_abbrev(i: i32) -> (r: &'static str)
    requires
        0 <= i < 12,
    ensures
        r@ == month_name(i as int),
{
    if i == 0 { "JAN" } else if i == 1 { "FEB" } else if i == 2 { "MAR" } else if i == 3 { "APR" }
    else if i == 4 { "MAY" } else if i == 5 { "JUN" } else if i == 6 { "JUL" } else if i == 7 { "AUG" }
    else if i == 8 { "SEP" } else if i == 9 { "OCT" } else if i == 10 { "NOV" } else { "DEC" }
}

/// The text a reel shows `offset` positions away from the current value.
pub open spec fn reel_label(reel: Reel, p: Parts, offset: i32) -> Seq<char> {
    match reel {
        Reel::Year => padded(p.year + offset, 4),
        Reel::Month => month_name(wrapped((p.month as i32) - 1 + offset, 12)),
        Reel::Day => {
            let days = month_days(p.year as int, p.month as int) as i32;
            padded(wrapped((p.day as i32) - 1 + offset, days as int) + 1, 2)
        },
    }
}

/// The label `offset` steps from the reel's current value.
pub fn label(reel: Reel, parts: Parts, offset: i32) -> (r: String)
    requires
        spin_fits(parts, reel, offset),
    ensures
        r@ == reel_label(reel, parts, offset),
{
    match reel {
        Reel::Year => string_from(&zero_padded((parts.year + offset) as i64, 4)),
        Reel::Month => {
            let i = wrap(parts.month as i32 - 1 + offset, 12);
            String::from_str(month_abbrev(i))
        },
        Reel::Day => {
            let days = CreatedDay::days_in_month(parts.year, parts.month) as i32;
            let w = wrap(parts.day as i32 - 1 + offset, days);
            assert(w < 0x7fff_ffff) by {
                assert(days as int <= 31 || days as int >= 0);
            }
            string_from(&zero_padded(w as i64 + 1, 2))
        },
    }
}

/// What a reel shows while it has no value.
pub open spec fn blank(reel: Reel) -> Seq<char> {
    match reel {
        Reel::Year => "────"@,
        Reel::Month => "───"@,
        Reel::Day => "──"@,
    }
}

pub fn blank_label(reel: Reel) -> (r: &'static str)
    ensures
        r@ == blank(reel),
{
    match reel {
        Reel::Year => "────",
        Reel::Month => "───",
        Reel::Day => "──",
    }
}

/// `wrapped` lands in `0..modulus` (or 0 when the modulus is below 1).
pub proof fn lemma_wrapped_range(value: int, modulus: int)
    ensures
        0 <= wrapped(value, modulus) < (if modulus < 1 { 1 } else { modulus }),
{
}

/// Turning a reel keeps a valid date valid: the month stays in 1..=12 and the day
/// within its month.
pub proof fn lemma_spin_keeps_valid(p: Parts, reel: Reel, dir: i32, year_max: i32)
    requires
        crate::date::valid_ymd(p.year as int, p.month as int, p.day as int),
        spin_fits(p, reel, dir),
        spun(p, reel, dir, year_max) is Some,
    ensures
        ({
            let q = spun(p, reel, dir, year_max).unwrap();
            crate::date::valid_ymd(q.year as int, q.month as int, q.day as int)
        }),
{
    assert((p.month as i32) as int == p.month as int);
    assert((p.day as i32) as int == p.day as int);
    let days = month_days(p.year as int, p.month as int);
    assert(28 <= days <= 31);
    match reel {
        Reel::Year => {
            let y = (p.year + dir) as i32;
            assert(28 <= month_days(y as int, p.month as int) <= 31);
        },
        Reel::Month => {
            let m = wrapped((p.month as i32) - 1 + dir, 12) + 1;
            lemma_wrapped_range((p.month as i32) - 1 + dir, 12);
            assert(1 <= m <= 12);
            assert((m as u32) as int == m);
            assert(28 <= month_days(p.year as int, m) <= 31);
        },
        Reel::Day => {
            let w = wrapped((p.day as i32) - 1 + dir, (days as i32) as int);
            assert((days as i32) as int == days as int);
            lemma_wrapped_range((p.day as i32) - 1 + dir, days as int);
            assert(((w + 1) as u32) as int == w + 1);
        },
    }
}

} // verus!
