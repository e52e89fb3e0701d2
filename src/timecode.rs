//! Decimal rendering of counters and the `HH:MM:SS` timecode of an elapsed time.
use vstd::prelude::*;

verus! {

/// Milliseconds in one hour.
pub const MS_PER_HOUR: u64 = 3_600_000;

/// Milliseconds in one minute.
pub const MS_PER_MINUTE: u64 = 60_000;

/// Milliseconds in one second.
pub const MS_PER_SECOND: u64 = 1_000;

/// Relies on `String::push`: the character is appended at the end.
pub assume_specification[ String::push ](s: &mut String, ch: char)
    ensures
        final(s)@ == old(s)@.push(ch),
;

/// The ASCII character of a decimal digit.
pub open spec fn digit_char(d: nat) -> char {
    if d == 0 {
        '0'
    } else if d == 1 {
        '1'
    } else if d == 2 {
        '2'
    } else if d == 3 {
        '3'
    } else if d == 4 {
        '4'
    } else if d == 5 {
        '5'
    } else if d == 6 {
        '6'
    } else if d == 7 {
        '7'
    } else if d == 8 {
        '8'
    } else {
        '9'
    }
}

/// The decimal digits of `n`, most significant first, without leading zeros.
pub open spec fn decimal(n: nat) -> Seq<char>
    decreases n,
{
    if n < 10 {
        seq![digit_char(n)]
    } else {
        decimal(n / 10).push(digit_char(n % 10))
    }
}

/// A run of `k` zero characters.
pub open spec fn zeros(k: nat) -> Seq<char> {
    Seq::new(k, |_i: int| '0')
}

/// `n` in decimal, left-padded with zeros to at least `width` characters.
pub open spec fn zero_padded(n: nat, width: nat) -> Seq<char> {
    if decimal(n).len() >= width {
        decimal(n)
    } else {
        zeros((width - decimal(n).len()) as nat) + decimal(n)
    }
}

/// The hour field: whole hours elapsed, counted from one.
pub open spec fn hour_field(ms: nat) -> nat {
    ms / MS_PER_HOUR as nat + 1
}

/// The minute field: whole minutes within the current hour.
pub open spec fn minute_field(ms: nat) -> nat {
    ms % MS_PER_HOUR as nat / MS_PER_MINUTE as nat
}

/// The second field: whole seconds within the current minute.
pub open spec fn second_field(ms: nat) -> nat {
    ms % MS_PER_MINUTE as nat / MS_PER_SECOND as nat
}

/// `HH:MM:SS` for an elapsed time of `ms` milliseconds; fractions of a second
/// are dropped and the hour field is neither wrapped nor capped.
pub open spec fn timecode(ms: nat) -> Seq<char> {
    zero_padded(hour_field(ms), 2) + seq![':'] + zero_padded(minute_field(ms), 2) + seq![':']
        + zero_padded(second_field(ms), 2)
}

/// A number with more than one digit is at least as large as its digit count.
proof fn lemma_decimal_len_bound(n: nat)
    ensures
        decimal(n).len() >= 1,
        n >= 1 ==> decimal(n).len() <= n,
    decreases n,
{
    if n >= 10 {
        lemma_decimal_len_bound(n / 10);
    }
}

fn digit_of(d: u64) -> (c: char)
    requires
        d < 10,
    ensures
        c == digit_char(d as nat),
{
    if d == 0 {
        '0'
    } else if d == 1 {
        '1'
    } else if d == 2 {
        '2'
    } else if d == 3 {
        '3'
    } else if d == 4 {
        '4'
    } else if d == 5 {
        '5'
    } else if d == 6 {
        '6'
    } else if d == 7 {
        '7'
    } else if d == 8 {
        '8'
    } else {
        '9'
    }
}

/// Number of decimal digits of `n`.
fn decimal_len(n: u64) -> (r: u64)
    ensures
        r as nat == decimal(n as nat).len(),
    decreases n,
{
    if n < 10 {
        1
    } else {
        let k = decimal_len(n / 10);
        proof {
            lemma_decimal_len_bound((n / 10) as nat);
        }
        k + 1
    }
}

/// Appends the decimal digits of `n`.
pub fn push_decimal(s: &mut String, n: u64)
    ensures
        final(s)@ == old(s)@ + decimal(n as nat),
    decreases n,
{
    if n >= 10 {
        push_decimal(s, n / 10);
    }
    let c = digit_of(n % 10);
    s.push(c);
    assert(final(s)@ =~= old(s)@ + decimal(n as nat));
}

/// Appends `n` in decimal, left-padded with zeros to at least `width` characters.
pub fn push_zero_padded(s: &mut String, n: u64, width: u64)
    ensures
        final(s)@ == old(s)@ + zero_padded(n as nat, width as nat),
{
    let ghost s0 = s@;
    let len = decimal_len(n);
    let mut k: u64 = len;
    while k < width
        invariant
            len <= k <= if len >= width { len } else { width },
            len as nat == decimal(n as nat).len(),
            s@ == s0 + zeros((k - len) as nat),
        decreases width - k,
    {
        s.push('0');
        assert(s@ =~= s0 + zeros((k + 1 - len) as nat));
        k = k + 1;
    }
    push_decimal(s, n);
    assert(s@ =~= s0 + zero_padded(n as nat, width as nat));
}

/// Appends the timecode of an elapsed time of `ms` milliseconds.
pub fn push_timecode(s: &mut String, ms: u64)
    ensures
        final(s)@ == old(s)@ + timecode(ms as nat),
{
    let ghost s0 = s@;
    push_zero_padded(s, ms / MS_PER_HOUR + 1, 2);
    s.push(':');
    push_zero_padded(s, ms % MS_PER_HOUR / MS_PER_MINUTE, 2);
    s.push(':');
    push_zero_padded(s, ms % MS_PER_MINUTE / MS_PER_SECOND, 2);
    assert(s@ =~= s0 + timecode(ms as nat));
}

/// The `HH:MM:SS` timecode of an elapsed time of `time_ms` milliseconds.
pub fn to_timecode(time_ms: u64) -> (r: String)
    ensures
        r@ == timecode(time_ms as nat),
{
    let mut s = String::new();
    push_timecode(&mut s, time_ms);
    assert(s@ =~= timecode(time_ms as nat));
    s
}

} // verus!
