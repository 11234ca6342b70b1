//! Human-readable sizes and times.
use vstd::prelude::*;
use vstd::string::*;
use vstd::utf8::*;
use crate::text::utf8_to_string;
use crate::clock::now_since_epoch;

verus! {

broadcast use vstd::utf8::encode_utf8_decode_utf8;

/// The decimal digit `d` as a character.
pub open spec fn digit(d: int) -> char {
    (48 + d) as char
}

/// The decimal representation of `n`, without leading zeros.
pub open spec fn decimal(n: nat) -> Seq<char>
    decreases n,
{
    if n < 10 {
        seq![digit(n as int)]
    } else {
        decimal(n / 10).push(digit((n % 10) as int))
    }
}

/// The one-character string of the digit `d`.
fn digit_string(d: u64) -> (r: String)
    requires
        d < 10,
    ensures
        r@ == seq![digit(d as int)],
{
    let mut v: Vec<u8> = Vec::new();
    v.push((48 + d) as u8);
    let ghost c = seq![digit(d as int)];
    proof {
        assert(is_ascii_chars(c));
        is_ascii_chars_encode_utf8(c);
        assert(v@ =~= encode_utf8(c));
        encode_utf8_valid_utf8(c);
    }
    utf8_to_string(v).unwrap()
}

/// The decimal representation of `n`.
pub fn u64_to_decimal(n: u64) -> (r: String)
    ensures
        r@ == decimal(n as nat),
    decreases n,
{
    if n < 10 {
        digit_string(n)
    } else {
        let mut s = u64_to_decimal(n / 10);
        let d = digit_string(n % 10);
        s.append(d.as_str());
        s
    }
}

/// The clock time `now` (seconds and nanoseconds since the Unix epoch, `None`
/// before the epoch) lies at or before the time `timestamp` seconds after the
/// epoch.
pub open spec fn not_yet_past(timestamp: u64, now: Option<(u64, u32)>) -> bool {
    match now {
        None => true,
        Some((secs, nanos)) => timestamp > secs || (timestamp == secs && nanos == 0),
    }
}

/// How `format_timestamp` describes `timestamp` at the clock time `now`: a
/// time not yet past as its own number of seconds "from now"; a past time by
/// the whole seconds since it, in seconds below a minute, minutes below an
/// hour, hours below a day, and days beyond.
pub open spec fn timestamp_text(timestamp: u64, now: Option<(u64, u32)>) -> Seq<char> {
    if not_yet_past(timestamp, now) {
        decimal(timestamp as nat) + " seconds from now"@
    } else {
        let ago = match now {
            Some((secs, _)) => (secs - timestamp) as nat,
            None => 0,
        };
        if ago < 60 {
            decimal(ago) + " seconds ago"@
        } else if ago < 3600 {
            decimal(ago / 60) + " minutes ago"@
        } else if ago < 86400 {
            decimal(ago / 3600) + " hours ago"@
        } else {
            decimal(ago / 86400) + " days ago"@
        }
    }
}

/// Describes `timestamp` (seconds since the Unix epoch) relative to the
/// clock time `now`, as `timestamp_text` says.
pub fn format_timestamp_at(timestamp: u64, now: Option<(u64, u32)>) -> (r: String)
    ensures
        r@ == timestamp_text(timestamp, now),
{
    let past = match now {
        None => false,
        Some((secs, nanos)) => timestamp < secs || (timestamp == secs && nanos != 0),
    };
    if !past {
        let mut s = u64_to_decimal(timestamp);
        s.append(" seconds from now");
        return s;
    }
    let ago = match now {
        Some((secs, _)) => secs - timestamp,
        None => 0,
    };
    if ago < 60 {
        let mut s = u64_to_decimal(ago);
        s.append(" seconds ago");
        s
    } else if ago < 3600 {
        let mut s = u64_to_decimal(ago / 60);
        s.append(" minutes ago");
        s
    } else if ago < 86400 {
        let mut s = u64_to_decimal(ago / 3600);
        s.append(" hours ago");
        s
    } else {
        let mut s = u64_to_decimal(ago / 86400);
        s.append(" days ago");
        s
    }
}

/// Describes `timestamp` (seconds since the Unix epoch) relative to the
/// current time, as `timestamp_text` says for the time the clock gave.
pub fn format_timestamp(timestamp: u64) -> (r: String)
    requires
        timestamp <= i64::MAX,
    ensures
        exists|now: Option<(u64, u32)>| r@ == timestamp_text(timestamp, now),
{
    let now = now_since_epoch();
    format_timestamp_at(timestamp, now)
}

/// 2 to the power `n`.
pub open spec fn two_pow(n: nat) -> nat
    decreases n,
{
    if n == 0 {
        1
    } else {
        2 * two_pow((n - 1) as nat)
    }
}

/// How many low bits of `x` a 53-bit significand cannot hold.
pub open spec fn dropped_bits(x: nat) -> nat
    decreases x,
{
    if x < 0x20_0000_0000_0000 {
        0
    } else {
        1 + dropped_bits(x / 2)
    }
}

/// `x` rounded to the nearest value with a 53-bit significand, ties to the
/// even significand: the value of `x as f64`.
pub open spec fn f64_value(x: nat) -> nat {
    let p = two_pow(dropped_bits(x));
    let q = x / p;
    let r = x % p;
    if 2 * r > p || (2 * r == p && q % 2 == 1) {
        (q + 1) * p
    } else {
        q * p
    }
}

/// The unit a size of `v` bytes is shown in: 0 for B, 1 for KB, 2 for MB,
/// 3 for GB; the largest whose divisor `v` reaches.
pub open spec fn size_unit(v: nat) -> nat {
    if v < 1024 {
        0
    } else if v < 0x10_0000 {
        1
    } else if v < 0x4000_0000 {
        2
    } else {
        3
    }
}

/// The number of bytes in unit `k`.
pub open spec fn unit_divisor(k: nat) -> nat {
    if k == 0 {
        1
    } else if k == 1 {
        1024
    } else if k == 2 {
        0x10_0000
    } else {
        0x4000_0000
    }
}

/// The name of unit `k`.
pub open spec fn unit_name(k: nat) -> Seq<char> {
    if k == 0 {
        "B"@
    } else if k == 1 {
        "KB"@
    } else if k == 2 {
        "MB"@
    } else {
        "GB"@
    }
}

/// `v / d` in hundredths, rounded to the nearest, ties to the even.
pub open spec fn hundredths(v: nat, d: nat) -> nat {
    let q = (v * 100) / d;
    let r = (v * 100) % d;
    if 2 * r > d || (2 * r == d && q % 2 == 1) {
        q + 1
    } else {
        q
    }
}

/// How `format_size` shows `bytes`: the value of `bytes as f64` in its unit,
/// with two decimals, then a space and the unit's name.
pub open spec fn size_text(bytes: u64) -> Seq<char> {
    let v = f64_value(bytes as nat);
    let k = size_unit(v);
    let h = hundredths(v, unit_divisor(k));
    decimal(h / 100) + "."@ + seq![digit(((h / 10) % 10) as int), digit((h % 10) as int)] + " "@ + unit_name(k)
}

proof fn lemma_div_mul_bounds(x: nat, p: nat)
    requires
        p > 0,
    ensures
        (x / p) * p + x % p == x,
        x % p < p,
        (x / p) * p <= x,
{
    vstd::arithmetic::div_mod::lemma_fundamental_div_mod(x as int, p as int);
    vstd::arithmetic::div_mod::lemma_mod_bound(x as int, p as int);
    vstd::arithmetic::mul::lemma_mul_is_commutative(p as int, (x / p) as int);
}

proof fn lemma_div_div(x: nat, p: nat)
    requires
        p > 0,
    ensures
        x / p / 2 == x / (2 * p),
{
    vstd::arithmetic::div_mod::lemma_div_denominator(x as int, p as int, 2);
    vstd::arithmetic::mul::lemma_mul_is_commutative(p as int, 2);
}

/// The value of `x as f64`, computed exactly on integers.
fn f64_value_exec(x: u64) -> (v: u128)
    ensures
        v == f64_value(x as nat),
        v <= 0x1_0000_0000_0000_1000,
{
    let xw = x as u128;
    let mut y: u128 = xw;
    let mut p: u128 = 1;
    let ghost mut sh: nat = 0;
    while y >= 0x20_0000_0000_0000
        invariant
            p == two_pow(sh as nat),
            1 <= p <= 0x1000,
            y == xw / p,
            dropped_bits(xw as nat) == sh + dropped_bits(y as nat),
            y * p <= xw,
            xw < 0x1_0000_0000_0000_0000,
        decreases y,
    {
        proof {
            lemma_div_div(xw as nat, p as nat);
            lemma_div_mul_bounds(xw as nat, 2 * p as nat);
            assert(p * 2 <= 0x1000) by (nonlinear_arith)
                requires y * p <= xw, xw < 0x1_0000_0000_0000_0000, y >= 0x20_0000_0000_0000, p >= 1;
        }
        y = y / 2;
        p = p * 2;
        proof {
            sh = sh + 1;
        }
        proof {
            assert(y * p <= xw) by {
                lemma_div_mul_bounds(xw as nat, p as nat);
            }
        }
    }
    let q = xw / p;
    let r = xw % p;
    proof {
        lemma_div_mul_bounds(xw as nat, p as nat);
        assert((q + 1) * p <= 0x1_0000_0000_0000_1000) by (nonlinear_arith)
            requires q * p + r == xw, xw < 0x1_0000_0000_0000_0000, r >= 0, p <= 0x1000;
    }
    if 2 * r > p || (2 * r == p && q % 2 == 1) {
        (q + 1) * p
    } else {
        q * p
    }
}

/// Shows `bytes` in B, KB, MB or GB with two decimals, as `size_text` says.
pub fn format_size(bytes: u64) -> (r: String)
    ensures
        r@ == size_text(bytes),
{
    let v = f64_value_exec(bytes);
    let ghost vn = v as nat;
    let k: u64;
    let d: u128;
    if v < 1024 {
        k = 0;
        d = 1;
    } else if v < 0x10_0000 {
        k = 1;
        d = 1024;
    } else if v < 0x4000_0000 {
        k = 2;
        d = 0x10_0000;
    } else {
        k = 3;
        d = 0x4000_0000;
    }
    assert(k == size_unit(vn) && d == unit_divisor(k as nat));
    let num = v * 100;
    let q = num / d;
    let r = num % d;
    proof {
        lemma_div_mul_bounds(num as nat, d as nat);
        if k == 3 {
            assert(q <= 0x1_0000_0000_0000_0000) by (nonlinear_arith)
                requires q * d + r == num, num <= 0x64_0000_0000_0006_4000, d == 0x4000_0000, r >= 0;
        } else {
            assert(q <= num) by (nonlinear_arith)
                requires q * d + r == num, d >= 1, r >= 0, q >= 0;
        }
    }
    let h = if 2 * r > d || (2 * r == d && q % 2 == 1) { q + 1 } else { q };
    assert(h == hundredths(vn, unit_divisor(k as nat)));
    let hi = (h / 100) as u64;
    let mut s = u64_to_decimal(hi);
    s.append(".");
    let tens = digit_string(((h / 10) % 10) as u64);
    s.append(tens.as_str());
    let ones = digit_string((h % 10) as u64);
    s.append(ones.as_str());
    s.append(" ");
    let unit = if k == 0 {
        "B"
    } else if k == 1 {
        "KB"
    } else if k == 2 {
        "MB"
    } else {
        "GB"
    };
    s.append(unit);
    assert(s@ =~= size_text(bytes));
    s
}

} // verus!
