//! Human-readable sizes, rates and durations.
//!
//! Fractional values are written from their exact value, rounded to the
//! nearest last digit with ties going to the even digit.
use vstd::prelude::*;
use crate::text::{
    decimal, zero_pad, fixed1, fixed2, round_half_even, push_decimal, push_decimal_padded,
    push_fixed1, push_fixed2, div_round_half_even, append,
};
use crate::download::{Rate, rate_is_zero};

verus! {

pub const KIB: u64 = 1024;
pub const MIB: u64 = 1048576;
pub const GIB: u64 = 1073741824;
pub const NANOS_PER_SEC: u64 = 1_000_000_000;

/// A byte count: whole bytes below 1 KB, else two decimals of the largest
/// of KB, MB, GB (powers of 1024) that it reaches.
pub open spec fn bytes_text(b: nat) -> Seq<char> {
    if b >= GIB {
        fixed2(round_half_even(b * 100, GIB as nat)) + " GB"@
    } else if b >= MIB {
        fixed2(round_half_even(b * 100, MIB as nat)) + " MB"@
    } else if b >= KIB {
        fixed2(round_half_even(b * 100, KIB as nat)) + " KB"@
    } else {
        decimal(b) + " B"@
    }
}

/// A duration of `secs` whole seconds: `1h 02m 03s`, `4m 05s` or `6s`.
pub open spec fn duration_text(secs: nat) -> Seq<char> {
    if secs >= 3600 {
        decimal(secs / 3600) + "h "@ + zero_pad(decimal((secs % 3600) / 60), 2) + "m "@ + zero_pad(
            decimal(secs % 60),
            2,
        ) + "s"@
    } else if secs >= 60 {
        decimal(secs / 60) + "m "@ + zero_pad(decimal(secs % 60), 2) + "s"@
    } else {
        decimal(secs) + "s"@
    }
}

/// A transfer rate: two decimals of MB/s or KB/s when it reaches 1 MB/s or
/// 1 KB/s, else whole bytes per second.
pub open spec fn rate_text(r: Rate) -> Seq<char> {
    if rate_is_zero(r) {
        "0 B/s"@
    } else {
        let num: nat = (r.bytes as nat) * (NANOS_PER_SEC as nat);
        let den: nat = r.nanos as nat;
        if num >= (MIB as nat) * den {
            fixed2(round_half_even(num * 100, den * (MIB as nat))) + " MB/s"@
        } else if num >= (KIB as nat) * den {
            fixed2(round_half_even(num * 100, den * (KIB as nat))) + " KB/s"@
        } else {
            decimal(round_half_even(num, den)) + " B/s"@
        }
    }
}

/// A duration in seconds with one decimal, as in `12.5s`.
pub open spec fn seconds_tenths_text(nanos: nat) -> Seq<char> {
    fixed1(round_half_even(nanos, 100_000_000)) + "s"@
}

/// Writes a byte count for people.
pub fn format_bytes(bytes: u64) -> (s: String)
    ensures
        s@ == bytes_text(bytes as nat),
{
    let mut s = String::new();
    let b = bytes as u128;
    if bytes >= GIB {
        push_fixed2(&mut s, div_round_half_even(b * 100, GIB as u128));
        append(&mut s, " GB");
    } else if bytes >= MIB {
        push_fixed2(&mut s, div_round_half_even(b * 100, MIB as u128));
        append(&mut s, " MB");
    } else if bytes >= KIB {
        push_fixed2(&mut s, div_round_half_even(b * 100, KIB as u128));
        append(&mut s, " KB");
    } else {
        push_decimal(&mut s, b);
        append(&mut s, " B");
    }
    s
}

/// Writes a transfer rate for people.
pub fn format_bytes_speed(rate: Rate) -> (s: String)
    ensures
        s@ == rate_text(rate),
{
    let mut s = String::new();
    if rate.bytes == 0 || rate.nanos == 0 {
        append(&mut s, "0 B/s");
        return s;
    }
    let b: u128 = rate.bytes as u128;
    let den: u128 = rate.nanos as u128;
    proof {
        assert(b * 1000000000u128 * 100 <= 18446744073709551615u128 * 100000000000u128)
            by (nonlinear_arith)
            requires
                b <= 18446744073709551615u128,
        ;
        assert(den * 1048576u128 <= 18446744073709551615u128 * 1048576u128) by (nonlinear_arith)
            requires
                den <= 18446744073709551615u128,
        ;
    }
    let num: u128 = b * 1000000000u128;
    if num >= 1048576u128 * den {
        push_fixed2(&mut s, div_round_half_even(num * 100, den * 1048576u128));
        append(&mut s, " MB/s");
    } else if num >= 1024u128 * den {
        push_fixed2(&mut s, div_round_half_even(num * 100, den * 1024u128));
        append(&mut s, " KB/s");
    } else {
        push_decimal(&mut s, div_round_half_even(num, den));
        append(&mut s, " B/s");
    }
    s
}

/// Writes a duration (given in nanoseconds) for people, by its whole
/// seconds.
pub fn format_duration(nanos: u128) -> (s: String)
    ensures
        s@ == duration_text((nanos / NANOS_PER_SEC as u128) as nat),
{
    let secs: u128 = nanos / NANOS_PER_SEC as u128;
    let mut s = String::new();
    if secs >= 3600 {
        push_decimal(&mut s, secs / 3600);
        append(&mut s, "h ");
        push_decimal_padded(&mut s, (secs % 3600) / 60, 2);
        append(&mut s, "m ");
        push_decimal_padded(&mut s, secs % 60, 2);
        append(&mut s, "s");
    } else if secs >= 60 {
        push_decimal(&mut s, secs / 60);
        append(&mut s, "m ");
        push_decimal_padded(&mut s, secs % 60, 2);
        append(&mut s, "s");
    } else {
        push_decimal(&mut s, secs);
        append(&mut s, "s");
    }
    s
}

/// Writes a duration (given in nanoseconds) in seconds with one decimal.
pub fn format_seconds_tenths(nanos: u64) -> (s: String)
    ensures
        s@ == seconds_tenths_text(nanos as nat),
{
    let mut s = String::new();
    push_fixed1(&mut s, div_round_half_even(nanos as u128, 100_000_000));
    append(&mut s, "s");
    s
}

} // verus!
