use vstd::prelude::*;
use toml_datetime::{Date, Datetime, Offset, Time};
use crate::errors::{
    Context, ErrView, ErrorKind, KindView, PErr, agrees, expecting_err, grammar_err, mk_expecting_err, mk_grammar_err,
};

verus! {

/// `toml_datetime::Date`, a calendar date: year, month and day.
/// Its fields are public and read as they are.
#[verifier::external_type_specification]
pub struct ExDate(Date);

/// `toml_datetime::Time`, a time of day: hour, minute, second and nanosecond.
/// Its fields are public and read as they are.
#[verifier::external_type_specification]
pub struct ExTime(Time);

/// `toml_datetime::Offset`, an offset from UTC: `Z`, or a signed number of minutes.
/// Its fields are public and read as they are.
#[verifier::external_type_specification]
pub struct ExOffset(Offset);

/// `toml_datetime::Datetime`, the optional date, time and offset that make up a date-time.
/// Its fields are public and read as they are.
#[verifier::external_type_specification]
pub struct ExDatetime(Datetime);

/// Whether `c` is a decimal digit.
pub open spec fn is_digit(c: char) -> bool {
    '0' <= c && c <= '9'
}

/// The number that the `n` decimal digits from `k` on spell.
pub open spec fn digits_val(s: Seq<char>, k: int, n: nat) -> int
    decreases n,
{
    if n == 0 {
        0
    } else {
        digits_val(s, k, (n - 1) as nat) * 10 + (s[k + n - 1] as int - '0' as int)
    }
}

/// `10` to the power `n`.
pub open spec fn pow10(n: nat) -> int
    decreases n,
{
    if n == 0 {
        1
    } else {
        10 * pow10((n - 1) as nat)
    }
}

/// Whether the `n` characters from `k` on are decimal digits.
pub open spec fn all_digits(s: Seq<char>, k: int, n: int) -> bool {
    0 <= k && k + n <= s.len() && forall|j: int| k <= j < k + n ==> is_digit(#[trigger] s[j])
}

/// The end of the run of digits that starts at `j`.
pub open spec fn digits_end(s: Seq<char>, j: int) -> int
    decreases s.len() - j,
{
    if 0 <= j < s.len() && is_digit(s[j]) {
        digits_end(s, j + 1)
    } else {
        j
    }
}

/// A failure of the date-time grammar at `pos`.
pub open spec fn dt_err(pos: int) -> ErrView {
    grammar_err(Context::DateTime, pos, false)
}

/// `e` as a failure that stops the alternatives around it.
pub open spec fn cut_err(e: ErrView) -> ErrView {
    ErrView { cut: true, ..e }
}

/// A two-digit field at `k` whose value must lie in `lo..=hi`.
pub open spec fn spec_field(s: Seq<char>, k: int, lo: int, hi: int) -> Result<int, ErrView> {
    if all_digits(s, k, 2) {
        let v = digits_val(s, k, 2);
        if lo <= v <= hi {
            Ok(v)
        } else {
            Err(ErrView { kind: KindView::OutOfRange, pos: k, cut: false })
        }
    } else {
        Err(dt_err(k))
    }
}

/// `full-date = date-fullyear "-" date-month "-" date-mday`, at `i`.
pub open spec fn spec_full_date(s: Seq<char>, i: int) -> Result<(int, Date), ErrView> {
    if !all_digits(s, i, 4) {
        Err(dt_err(i))
    } else if !(i + 4 < s.len() && s[i + 4] == '-') {
        Err(expecting_err(Context::DateTime, seq!['-'], i + 4, false))
    } else {
        match spec_field(s, i + 5, 1, 12) {
            Err(e) => Err(cut_err(e)),
            Ok(month) => if !(i + 7 < s.len() && s[i + 7] == '-') {
                Err(expecting_err(Context::DateTime, seq!['-'], i + 7, true))
            } else {
                match spec_field(s, i + 8, 1, 31) {
                    Err(e) => Err(cut_err(e)),
                    Ok(day) => Ok(
                        (
                            i + 10,
                            Date {
                                year: digits_val(s, i, 4) as u16,
                                month: month as u8,
                                day: day as u8,
                            },
                        ),
                    ),
                }
            },
        }
    }
}

/// The nanoseconds of the fraction whose digits run from `k` to `end`: the first nine
/// digits at most, the others cut off, scaled to nanoseconds.
pub open spec fn secfrac_nanos(s: Seq<char>, k: int, end: int) -> int {
    let n = if end - k > 9 {
        9
    } else {
        end - k
    };
    digits_val(s, k, n as nat) * pow10((9 - n) as nat)
}

/// The optional fraction of a second at `j`: its end and its nanoseconds. Without a
/// dot and at least one digit the fraction is absent.
pub open spec fn spec_secfrac(s: Seq<char>, j: int) -> (int, int) {
    if 0 <= j < s.len() && s[j] == '.' && digits_end(s, j + 1) > j + 1 {
        (digits_end(s, j + 1), secfrac_nanos(s, j + 1, digits_end(s, j + 1)))
    } else {
        (j, 0)
    }
}

/// `partial-time = time-hour ":" time-minute ":" time-second [time-secfrac]`, at `i`.
pub open spec fn spec_partial_time(s: Seq<char>, i: int) -> Result<(int, Time), ErrView> {
    match spec_field(s, i, 0, 23) {
        Err(e) => Err(e),
        Ok(hour) => if !(i + 2 < s.len() && s[i + 2] == ':') {
            Err(expecting_err(Context::DateTime, seq![':'], i + 2, false))
        } else {
            match spec_field(s, i + 3, 0, 59) {
                Err(e) => Err(cut_err(e)),
                Ok(minute) => if !(i + 5 < s.len() && s[i + 5] == ':') {
                    Err(expecting_err(Context::DateTime, seq![':'], i + 5, true))
                } else {
                    match spec_field(s, i + 6, 0, 60) {
                        Err(e) => Err(cut_err(e)),
                        Ok(second) => {
                            let (end, nanos) = spec_secfrac(s, i + 8);
                            Ok(
                                (
                                    end,
                                    Time {
                                        hour: hour as u8,
                                        minute: minute as u8,
                                        second: second as u8,
                                        nanosecond: nanos as u32,
                                    },
                                ),
                            )
                        },
                    }
                },
            }
        },
    }
}

/// `time-offset = "Z" / ( "+" / "-" ) time-hour ":" time-minute`, at `j`.
pub open spec fn spec_time_offset(s: Seq<char>, j: int) -> Result<(int, Offset), ErrView> {
    if 0 <= j < s.len() && (s[j] == 'Z' || s[j] == 'z') {
        Ok((j + 1, Offset::Z))
    } else if 0 <= j < s.len() && (s[j] == '+' || s[j] == '-') {
        match spec_field(s, j + 1, 0, 23) {
            Err(e) => Err(cut_err(e)),
            Ok(h) => if !(j + 3 < s.len() && s[j + 3] == ':') {
                Err(expecting_err(Context::DateTime, seq![':'], j + 3, true))
            } else {
                match spec_field(s, j + 4, 0, 59) {
                    Err(e) => Err(cut_err(e)),
                    Ok(m) => Ok(
                        (
                            j + 6,
                            Offset::Custom {
                                minutes: (if s[j] == '+' {
                                    h * 60 + m
                                } else {
                                    -(h * 60 + m)
                                }) as i16,
                            },
                        ),
                    ),
                }
            },
        }
    } else {
        Err(grammar_err(Context::TimeOffset, j, false))
    }
}

/// Whether `c` separates a date from a time: `T`, `t` or a space.
pub open spec fn is_time_delim(c: char) -> bool {
    c == 'T' || c == 't' || c == ' '
}

/// What follows a full date that ends at `d`: a time and an optional offset, or
/// nothing.
pub open spec fn spec_after_date(s: Seq<char>, d: int, date: Date) -> Result<(int, Datetime), ErrView> {
    let date_only = Ok((d, Datetime { date: Some(date), time: None, offset: None }));
    if 0 <= d < s.len() && is_time_delim(s[d]) {
        match spec_partial_time(s, d + 1) {
            Err(e) => if e.cut {
                Err(e)
            } else {
                date_only
            },
            Ok((t, time)) => match spec_time_offset(s, t) {
                Ok((o, off)) => Ok((o, Datetime { date: Some(date), time: Some(time), offset: Some(off) })),
                Err(e) => if e.cut {
                    Err(e)
                } else {
                    Ok((t, Datetime { date: Some(date), time: Some(time), offset: None }))
                },
            },
        }
    } else {
        date_only
    }
}

/// `date-time = full-date [ time-delim partial-time [ time-offset ] ] / partial-time`,
/// at `i`: the first alternative that matches.
pub open spec fn spec_date_time(s: Seq<char>, i: int) -> Result<(int, Datetime), ErrView> {
    match spec_full_date(s, i) {
        Ok((d, date)) => spec_after_date(s, d, date),
        Err(e) => if e.cut {
            Err(e)
        } else {
            match spec_partial_time(s, i) {
                Ok((t, time)) => Ok((t, Datetime { date: None, time: Some(time), offset: None })),
                Err(e2) => Err(e2),
            }
        },
    }
}

/// Parses `n` digits at `k`, if they are there.
fn digits(s: &[char], k: usize, n: usize) -> (r: Option<u32>)
    requires
        n <= 4,
    ensures
        r is Some <==> all_digits(s@, k as int, n as int),
        r matches Some(v) ==> v == digits_val(s@, k as int, n as nat) && v < pow10(n as nat),
{
    if k > s.len() || n > s.len() - k {
        return None;
    }
    let _len = s.len();
    proof {
        reveal_with_fuel(pow10, 5);
    }
    let mut v: u32 = 0;
    let mut i: usize = 0;
    while i < n
        invariant
            n <= 4,
            k + n <= s@.len(),
            s@.len() <= usize::MAX,
            i <= n,
            v == digits_val(s@, k as int, i as nat),
            v < pow10(i as nat),
            pow10(4) == 10000,
            forall|j: int| k <= j < k + i ==> is_digit(#[trigger] s@[j]),
        decreases n - i,
    {
        proof {
            reveal_with_fuel(pow10, 5);
            lemma_pow10_mono(i as nat + 1, 4);
        }
        let c = s[k + i];
        if !('0' <= c && c <= '9') {
            return None;
        }
        v = v * 10 + (c as u32 - '0' as u32);
        i = i + 1;
    }
    Some(v)
}

proof fn lemma_pow10_mono(a: nat, b: nat)
    requires
        a <= b,
    ensures
        1 <= pow10(a) <= pow10(b),
    decreases b,
{
    if a < b {
        lemma_pow10_mono(a, (b - 1) as nat);
    } else if a > 0 {
        lemma_pow10_mono((a - 1) as nat, (a - 1) as nat);
    }
}

/// Parses a two-digit field at `k` whose value must lie in `lo..=hi`.
fn field(s: &[char], k: usize, lo: u32, hi: u32) -> (r: Result<u32, PErr>)
    ensures
        match (r, spec_field(s@, k as int, lo as int, hi as int)) {
            (Ok(v), Ok(sv)) => v == sv && v < 100,
            (Err(e), Err(se)) => e@ == se,
            _ => false,
        },
{
    proof {
        reveal_with_fuel(pow10, 3);
    }
    match digits(s, k, 2) {
        Some(v) => {
            if lo <= v && v <= hi {
                Ok(v)
            } else {
                Err(PErr { kind: ErrorKind::OutOfRange, pos: k, cut: false })
            }
        },
        None => Err(mk_grammar_err(Context::DateTime, k, false)),
    }
}

/// `e` as a failure that stops the alternatives around it.
fn cut(e: PErr) -> (r: PErr)
    ensures
        r@ == cut_err(e@),
{
    PErr { cut: true, ..e }
}


/// Parses `full-date` at `i`.
pub fn full_date(s: &[char], i: usize) -> (r: Result<(usize, Date), PErr>)
    ensures
        r matches Ok((e, _)) ==> i < e <= s@.len(),
        agrees(r, spec_full_date(s@, i as int)),
{
    let _len = s.len();
    let year = match digits(s, i, 4) {
        Some(y) => y,
        None => {
            return Err(mk_grammar_err(Context::DateTime, i, false));
        },
    };
    if !(i + 4 < s.len() && s[i + 4] == '-') {
        return Err(mk_expecting_err(Context::DateTime, '-', None, i + 4, false));
    }
    let month = match field(s, i + 5, 1, 12) {
        Ok(m) => m,
        Err(e) => {
            return Err(cut(e));
        },
    };
    if !(i + 7 < s.len() && s[i + 7] == '-') {
        return Err(mk_expecting_err(Context::DateTime, '-', None, i + 7, true));
    }
    let day = match field(s, i + 8, 1, 31) {
        Ok(d) => d,
        Err(e) => {
            return Err(cut(e));
        },
    };
    proof {
        reveal_with_fuel(pow10, 5);
    }
    Ok((i + 10, Date { year: year as u16, month: month as u8, day: day as u8 }))
}

/// The scale from a fraction of `n` digits to nanoseconds.
fn frac_scale(n: usize) -> (r: u64)
    requires
        1 <= n <= 9,
    ensures
        r == pow10((9 - n) as nat),
{
    proof {
        reveal_with_fuel(pow10, 10);
    }
    if n == 1 {
        100_000_000
    } else if n == 2 {
        10_000_000
    } else if n == 3 {
        1_000_000
    } else if n == 4 {
        100_000
    } else if n == 5 {
        10_000
    } else if n == 6 {
        1_000
    } else if n == 7 {
        100
    } else if n == 8 {
        10
    } else {
        1
    }
}

/// Parses the optional fraction of a second at `j`: its end and its nanoseconds.
/// Digits past the ninth are consumed and cut off, not rounded.
pub fn time_secfrac(s: &[char], j: usize) -> (r: (usize, u32))
    ensures
        j <= r.0,
        j <= s@.len() ==> r.0 <= s@.len(),
        r.0 == spec_secfrac(s@, j as int).0,
        r.1 == spec_secfrac(s@, j as int).1,
        r.1 < 1_000_000_000,
{
    let _len = s.len();
    if !(j < s.len() && s[j] == '.') {
        return (j, 0);
    }
    let mut k = j + 1;
    let mut v: u64 = 0;
    proof {
        reveal_with_fuel(pow10, 10);
    }
    while k < s.len() && '0' <= s[k] && s[k] <= '9'
        invariant
            j + 1 <= k <= s@.len(),
            s@.len() <= usize::MAX,
            digits_end(s@, j + 1) == digits_end(s@, k as int),
            forall|m: int| j + 1 <= m < k ==> is_digit(#[trigger] s@[m]),
            v == digits_val(s@, j + 1, (if k - (j + 1) > 9 { 9 } else { k - (j + 1) }) as nat),
            v < pow10((if k - (j + 1) > 9 { 9 } else { k - (j + 1) }) as nat),
            pow10(9) == 1_000_000_000,
        decreases s@.len() - k,
    {
        if k - (j + 1) < 9 {
            proof {
                lemma_pow10_mono((k - (j + 1) + 1) as nat, 9);
            }
            v = v * 10 + (s[k] as u64 - '0' as u64);
        }
        k = k + 1;
    }
    if k == j + 1 {
        return (j, 0);
    }
    let n: usize = if k - (j + 1) > 9 {
        9
    } else {
        k - (j + 1)
    };
    let scale = frac_scale(n);
    proof {
        lemma_pow10_mono(n as nat, 9);
        lemma_pow10_mono((9 - n) as nat, 9);
        lemma_pow10_split(n as nat);
        assert(v * scale < pow10(n as nat) * pow10((9 - n) as nat)) by (nonlinear_arith)
            requires
                v < pow10(n as nat),
                scale == pow10((9 - n) as nat),
                scale >= 1,
        ;
    }
    (k, (v * scale) as u32)
}

proof fn lemma_pow10_split(n: nat)
    requires
        n <= 9,
    ensures
        pow10(n) * pow10((9 - n) as nat) == pow10(9),
    decreases n,
{
    if n > 0 {
        lemma_pow10_split((n - 1) as nat);
        assert(pow10(n) == 10 * pow10((n - 1) as nat));
        assert(pow10((9 - (n - 1)) as nat) == 10 * pow10((9 - n) as nat));
        let a = pow10((n - 1) as nat);
        let b = pow10((9 - n) as nat);
        assert(a * 10 * b == a * (10 * b)) by (nonlinear_arith);
        assert((10 * a) * b == a * 10 * b) by (nonlinear_arith);
    }
}

/// Parses `partial-time` at `i`.
pub fn partial_time(s: &[char], i: usize) -> (r: Result<(usize, Time), PErr>)
    ensures
        r matches Ok((e, _)) ==> i < e <= s@.len(),
        agrees(r, spec_partial_time(s@, i as int)),
{
    let _len = s.len();
    let hour = match field(s, i, 0, 23) {
        Ok(h) => h,
        Err(e) => {
            return Err(e);
        },
    };
    if !(i + 2 < s.len() && s[i + 2] == ':') {
        return Err(mk_expecting_err(Context::DateTime, ':', None, i + 2, false));
    }
    let minute = match field(s, i + 3, 0, 59) {
        Ok(m) => m,
        Err(e) => {
            return Err(cut(e));
        },
    };
    if !(i + 5 < s.len() && s[i + 5] == ':') {
        return Err(mk_expecting_err(Context::DateTime, ':', None, i + 5, true));
    }
    let second = match field(s, i + 6, 0, 60) {
        Ok(m) => m,
        Err(e) => {
            return Err(cut(e));
        },
    };
    let (end, nanos) = time_secfrac(s, i + 8);
    Ok(
        (
            end,
            Time { hour: hour as u8, minute: minute as u8, second: second as u8, nanosecond: nanos },
        ),
    )
}

/// Parses `time-offset` at `j`.
pub fn time_offset(s: &[char], j: usize) -> (r: Result<(usize, Offset), PErr>)
    ensures
        r matches Ok((e, _)) ==> j < e <= s@.len(),
        agrees(r, spec_time_offset(s@, j as int)),
{
    let _len = s.len();
    if j < s.len() && (s[j] == 'Z' || s[j] == 'z') {
        return Ok((j + 1, Offset::Z));
    }
    if !(j < s.len() && (s[j] == '+' || s[j] == '-')) {
        return Err(mk_grammar_err(Context::TimeOffset, j, false));
    }
    let h = match field(s, j + 1, 0, 23) {
        Ok(h) => h,
        Err(e) => {
            return Err(cut(e));
        },
    };
    if !(j + 3 < s.len() && s[j + 3] == ':') {
        return Err(mk_expecting_err(Context::DateTime, ':', None, j + 3, true));
    }
    let m = match field(s, j + 4, 0, 59) {
        Ok(m) => m,
        Err(e) => {
            return Err(cut(e));
        },
    };
    let total: i16 = (h * 60 + m) as i16;
    let minutes: i16 = if s[j] == '+' {
        total
    } else {
        -total
    };
    Ok((j + 6, Offset::Custom { minutes }))
}

/// Parses `date-time` at `i`: an offset date-time, a local date-time, a local date or
/// a local time, whichever the text holds.
pub fn date_time(s: &[char], i: usize) -> (r: Result<(usize, Datetime), PErr>)
    ensures
        agrees(r, spec_date_time(s@, i as int)),
        r matches Ok((e, _)) ==> i < e <= s@.len(),
{
    let _len = s.len();
    match full_date(s, i) {
        Ok((d, date)) => {
            let date_only = Datetime { date: Some(date), time: None, offset: None };
            if !(d < s.len() && (s[d] == 'T' || s[d] == 't' || s[d] == ' ')) {
                return Ok((d, date_only));
            }
            match partial_time(s, d + 1) {
                Err(e) => {
                    if e.cut {
                        Err(e)
                    } else {
                        Ok((d, date_only))
                    }
                },
                Ok((t, time)) => match time_offset(s, t) {
                    Ok((o, off)) => Ok(
                        (o, Datetime { date: Some(date), time: Some(time), offset: Some(off) }),
                    ),
                    Err(e) => {
                        if e.cut {
                            Err(e)
                        } else {
                            Ok((t, Datetime { date: Some(date), time: Some(time), offset: None }))
                        }
                    },
                },
            }
        },
        Err(e) => {
            if e.cut {
                return Err(e);
            }
            match partial_time(s, i) {
                Ok((t, time)) => Ok((t, Datetime { date: None, time: Some(time), offset: None })),
                Err(e2) => Err(e2),
            }
        },
    }
}

} // verus!
