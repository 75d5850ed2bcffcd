use crate::zone::CivilDateTime;
use vstd::prelude::*;

verus! {

/// The character of a decimal digit.
pub open spec fn digit_char(d: nat) -> char {
    if d == 0 { '0' }
    else if d == 1 { '1' }
    else if d == 2 { '2' }
    else if d == 3 { '3' }
    else if d == 4 { '4' }
    else if d == 5 { '5' }
    else if d == 6 { '6' }
    else if d == 7 { '7' }
    else if d == 8 { '8' }
    else { '9' }
}

/// The decimal digits of `n`, most significant first, without leading zeros.
pub open spec fn digits(n: nat) -> Seq<char>
    decreases n,
{
    if n < 10 {
        seq![digit_char(n)]
    } else {
        digits(n / 10).push(digit_char(n % 10))
    }
}

/// `n` in decimal, with leading zeros up to `width` digits (width at most 4).
pub open spec fn zero_padded(n: nat, width: nat) -> Seq<char>
    decreases width,
{
    if width >= 4 && n < 1000 {
        seq!['0'] + zero_padded(n, 3)
    } else if width >= 3 && n < 100 {
        seq!['0'] + zero_padded(n, 2)
    } else if width >= 2 && n < 10 {
        seq!['0'] + digits(n)
    } else {
        digits(n)
    }
}

/// A signed integer as `{:02}` renders it: at least two characters, zeros
/// after the sign.
pub open spec fn signed_two(n: int) -> Seq<char> {
    if n < 0 {
        seq!['-'] + zero_padded((-n) as nat, 1)
    } else {
        zero_padded(n as nat, 2)
    }
}

pub open spec fn abs(n: int) -> nat {
    if n < 0 { (-n) as nat } else { n as nat }
}

/// Division truncated toward zero, as Rust's `/` on signed integers.
pub open spec fn trunc_div(n: int, d: nat) -> int
    recommends
        d > 0,
{
    if n < 0 {
        -(abs(n) / d)
    } else {
        n / (d as int)
    }
}

/// The remainder with the sign of the dividend, as Rust's `%` on signed integers.
pub open spec fn trunc_rem(n: int, d: nat) -> int
    recommends
        d > 0,
{
    if n < 0 {
        -(abs(n) % d)
    } else {
        n % (d as int)
    }
}

/// A duration in milliseconds rendered as whole hours, minutes within the
/// hour and seconds within the minute, separated by colons.
pub open spec fn duration_text(ms: int) -> Seq<char> {
    signed_two(trunc_div(ms, 3_600_000)) + seq![':'] + signed_two(
        trunc_rem(trunc_div(ms, 60_000), 60),
    ) + seq![':'] + signed_two(trunc_rem(trunc_div(ms, 1000), 60))
}

/// Relies on `String::push`: appends one character.
#[verifier::external_body]
pub(crate) fn push_char(s: &mut String, c: char)
    ensures
        final(s)@ == old(s)@.push(c),
{
    s.push(c);
}

fn digit_of(d: u128) -> (c: char)
    requires
        d < 10,
    ensures
        c == digit_char(d as nat),
{
    if d == 0 { '0' }
    else if d == 1 { '1' }
    else if d == 2 { '2' }
    else if d == 3 { '3' }
    else if d == 4 { '4' }
    else if d == 5 { '5' }
    else if d == 6 { '6' }
    else if d == 7 { '7' }
    else if d == 8 { '8' }
    else { '9' }
}

fn push_digits(s: &mut String, n: u128)
    ensures
        final(s)@ == old(s)@ + digits(n as nat),
    decreases n,
{
    if n >= 10 {
        push_digits(s, n / 10);
    }
    push_char(s, digit_of(n % 10));
    proof {
        assert(final(s)@ =~= old(s)@ + digits(n as nat));
    }
}

/// Appends `n` with leading zeros up to `width` digits.
fn push_padded(s: &mut String, n: u128, width: u8)
    requires
        width <= 4,
    ensures
        final(s)@ == old(s)@ + zero_padded(n as nat, width as nat),
    decreases width,
{
    if width >= 4 && n < 1000 {
        push_char(s, '0');
        push_padded(s, n, 3);
        assert(final(s)@ =~= old(s)@ + zero_padded(n as nat, width as nat));
    } else if width >= 3 && n < 100 {
        push_char(s, '0');
        push_padded(s, n, 2);
        assert(final(s)@ =~= old(s)@ + zero_padded(n as nat, width as nat));
    } else if width >= 2 && n < 10 {
        push_char(s, '0');
        push_digits(s, n);
        assert(final(s)@ =~= old(s)@ + zero_padded(n as nat, width as nat));
    } else {
        push_digits(s, n);
    }
}

fn push_signed_two(s: &mut String, negative: bool, magnitude: u128)
    ensures
        final(s)@ == old(s)@ + signed_two(if negative { -magnitude } else { magnitude as int }),
{
    if negative && magnitude > 0 {
        push_char(s, '-');
        push_padded(s, magnitude, 1);
        assert(final(s)@ =~= old(s)@ + signed_two(-magnitude));
    } else {
        push_padded(s, magnitude, 2);
        assert(signed_two(if negative { -magnitude } else { magnitude as int })
            == zero_padded(magnitude as nat, 2));
    }
}

/// Renders a duration given in milliseconds as `HH:MM:SS`: whole hours
/// (two digits at least, more when needed), then minutes and seconds within
/// the hour, each truncated toward zero.
pub fn format_duration(ms: i128) -> (r: String)
    ensures
        r@ == duration_text(ms as int),
{
    let negative = ms < 0;
    let magnitude: u128 = if negative { ((-(ms + 1)) as u128) + 1 } else { ms as u128 };
    let mut r = String::new();
    push_signed_two(&mut r, negative, magnitude / 3_600_000);
    push_char(&mut r, ':');
    push_signed_two(&mut r, negative, (magnitude / 60_000) % 60);
    push_char(&mut r, ':');
    push_signed_two(&mut r, negative, (magnitude / 1000) % 60);
    proof {
        assert(magnitude as nat == abs(ms as int));
        assert(r@ =~= duration_text(ms as int));
    }
    r
}

/// A year as `%Y` writes it: four digits at least, with a sign outside 0..=9999.
pub open spec fn year_text(y: int) -> Seq<char> {
    if 0 <= y <= 9999 {
        zero_padded(y as nat, 4)
    } else if y > 9999 {
        seq!['+'] + zero_padded(y as nat, 4)
    } else {
        seq!['-'] + zero_padded((-y) as nat, 4)
    }
}

/// `YYYY-MM-DD`.
pub open spec fn date_text(c: CivilDateTime) -> Seq<char> {
    year_text(c.year as int) + seq!['-'] + zero_padded(c.month as nat, 2) + seq!['-']
        + zero_padded(c.day as nat, 2)
}

/// `HH:MM:SS`, 24-hour.
pub open spec fn time_text(c: CivilDateTime) -> Seq<char> {
    zero_padded(c.hour as nat, 2) + seq![':'] + zero_padded(c.minute as nat, 2) + seq![':']
        + zero_padded(c.second as nat, 2)
}

/// Renders the date of `c` as `YYYY-MM-DD`.
pub fn format_date(c: &CivilDateTime) -> (r: String)
    ensures
        r@ == date_text(*c),
{
    let mut r = String::new();
    let y = c.year;
    if y < 0 {
        push_char(&mut r, '-');
        push_padded(&mut r, ((-(y + 1)) as u128) + 1, 4);
    } else {
        if y > 9999 {
            push_char(&mut r, '+');
        }
        push_padded(&mut r, y as u128, 4);
    }
    assert(r@ =~= year_text(c.year as int));
    push_char(&mut r, '-');
    push_padded(&mut r, c.month as u128, 2);
    push_char(&mut r, '-');
    push_padded(&mut r, c.day as u128, 2);
    assert(r@ =~= date_text(*c));
    r
}

/// Renders the time of day of `c` as `HH:MM:SS`.
pub fn format_time(c: &CivilDateTime) -> (r: String)
    ensures
        r@ == time_text(*c),
{
    let mut r = String::new();
    push_padded(&mut r, c.hour as u128, 2);
    push_char(&mut r, ':');
    push_padded(&mut r, c.minute as u128, 2);
    push_char(&mut r, ':');
    push_padded(&mut r, c.second as u128, 2);
    assert(r@ =~= time_text(*c));
    r
}

} // verus!
