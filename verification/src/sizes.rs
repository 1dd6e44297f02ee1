//! Human-readable byte counts: "1.5 GB", "12.0 MB", "3.2 KB", "512 B".
//!
//! A size is shown in the largest unit it reaches, with one decimal. The
//! decimal is that of the double-precision quotient: the byte count is first
//! rounded to the nearest double (ties to even), the quotient by the unit is
//! exact (the units are powers of two), and the tenths are rounded to nearest,
//! ties to even, as std's `{:.1}` does.
use vstd::prelude::*;
use crate::text::{decimal, decimal_text, digit, digit_char, push_char};

verus! {

/// Bytes in a kibibyte, mebibyte and gibibyte.
pub const KB: u64 = 1024;
pub const MB: u64 = 1048576;
pub const GB: u64 = 1073741824;

/// The largest integer below which every integer is a double.
pub open spec fn exact_limit() -> nat {
    9007199254740992
}

/// The spacing of the doubles around `b`: 1 below 2^53, doubled with each
/// further bit.
pub open spec fn grain(b: nat) -> nat
    decreases b,
{
    if b < exact_limit() {
        1
    } else {
        2 * grain(b / 2)
    }
}

/// `b` rounded to a multiple of `m`, ties to the even multiple.
pub open spec fn round_to(b: nat, m: nat) -> nat
    recommends
        m > 0,
{
    let q = b / m;
    let r = b % m;
    if 2 * r > m || (2 * r == m && q % 2 == 1) {
        (q + 1) * m
    } else {
        q * m
    }
}

/// The value of `b as f64`.
pub open spec fn as_double(b: nat) -> nat {
    round_to(b, grain(b))
}

/// `v / unit` rounded to tenths, ties to even, counted in tenths.
pub open spec fn tenths(v: nat, unit: nat) -> nat
    recommends
        unit > 0,
{
    let q = (v * 10) / unit;
    let r = (v * 10) % unit;
    if 2 * r > unit || (2 * r == unit && q % 2 == 1) {
        q + 1
    } else {
        q
    }
}

/// A count of tenths written with one decimal: `t / 10` "." `t % 10`.
pub open spec fn one_decimal(t: nat) -> Seq<char> {
    decimal(t / 10).push('.').push(digit_char(t % 10))
}

/// `b as f64 / unit as f64` written with `{:.1}`.
pub open spec fn quotient_text(b: nat, unit: nat) -> Seq<char> {
    one_decimal(tenths(as_double(b), unit))
}

/// The text of a byte count in its largest unit.
pub open spec fn size_text(bytes: nat) -> Seq<char> {
    if bytes >= GB {
        quotient_text(bytes, GB as nat) + seq![' ', 'G', 'B']
    } else if bytes >= MB {
        quotient_text(bytes, MB as nat) + seq![' ', 'M', 'B']
    } else if bytes >= KB {
        quotient_text(bytes, KB as nat) + seq![' ', 'K', 'B']
    } else {
        decimal(bytes) + seq![' ', 'B']
    }
}

proof fn lemma_grain(b: nat)
    ensures
        grain(b) >= 1,
        b < exact_limit() ==> grain(b) == 1,
    decreases b,
{
    if b >= exact_limit() {
        lemma_grain(b / 2);
    }
}

/// `b as f64`, as an integer (it may exceed `u64::MAX`).
pub fn double_value(b: u64) -> (v: u128)
    ensures
        v == as_double(b as nat),
        v <= 2 * (b as nat) + 1,
{
    let mut t: u64 = b;
    let mut m: u128 = 1;
    while t >= 9007199254740992
        invariant
            m >= 1,
            m <= b as nat + 1,
            t as nat == b as nat / (m as nat),
            grain(b as nat) == m * grain(t as nat),
        decreases t,
    {
        let ghost t0 = t as nat;
        let ghost m0 = m as nat;
        proof {
            vstd::arithmetic::div_mod::lemma_div_denominator(b as int, m as int, 2);
            assert(t0 >= exact_limit());
            assert(grain(t0) == 2 * grain(t0 / 2));
            assert(2 * m0 <= b) by (nonlinear_arith)
                requires
                    t0 == b as nat / m0,
                    t0 >= 2,
                    m0 >= 1,
            ;
        }
        t = t / 2;
        m = m * 2;
        proof {
            assert(m0 * (2 * grain(t as nat)) == (2 * m0) * grain(t as nat)) by (nonlinear_arith);
        }
    }
    proof {
        lemma_grain(t as nat);
        assert(grain(t as nat) == 1);
        assert(grain(b as nat) == m * grain(t as nat));
        assert(grain(b as nat) == m) by (nonlinear_arith)
            requires
                grain(b as nat) == m * grain(t as nat),
                grain(t as nat) == 1,
        ;
    }
    let bb: u128 = b as u128;
    let q: u128 = bb / m;
    let r: u128 = bb % m;
    proof {
        assert(q * m + r == bb) by (nonlinear_arith)
            requires
                q == bb / m,
                r == bb % m,
                m > 0,
        ;
        assert(q * m <= bb) by (nonlinear_arith)
            requires
                q * m + r == bb,
                r >= 0,
        ;
    }
    if 2 * r > m || (2 * r == m && q % 2 == 1) {
        proof {
            assert((q + 1) * m == q * m + m) by (nonlinear_arith);
        }
        (q + 1) * m
    } else {
        q * m
    }
}

/// `v / unit` with one decimal, for a power-of-two unit.
pub fn one_decimal_text(v: u128, unit: u128) -> (s: String)
    requires
        v <= 0x2_0000_0000_0000_0001,
        0 < unit <= 0x1_0000_0000_0000_0000,
    ensures
        s@ == one_decimal(tenths(v as nat, unit as nat)),
{
    let n: u128 = v * 10;
    let q: u128 = n / unit;
    let r: u128 = n % unit;
    proof {
        assert(q <= n) by (nonlinear_arith)
            requires
                q == n / unit,
                unit > 0,
                n >= 0,
        ;
    }
    let t: u128 = if 2 * r > unit || (2 * r == unit && q % 2 == 1) {
        q + 1
    } else {
        q
    };
    let mut s = decimal_text(t / 10);
    push_char(&mut s, '.');
    push_char(&mut s, digit(t % 10));
    s
}

/// `bytes as f64 / unit as f64` written with one decimal.
pub fn quotient_one_decimal(bytes: u64, unit: u64) -> (s: String)
    requires
        0 < unit,
    ensures
        s@ == quotient_text(bytes as nat, unit as nat),
{
    let v = double_value(bytes);
    one_decimal_text(v, unit as u128)
}

/// The byte count in its largest unit: GB, MB, KB with one decimal, or plain
/// bytes.
pub fn format_size(bytes: u64) -> (s: String)
    ensures
        s@ == size_text(bytes as nat),
{
    let (mut s, unit) = if bytes >= GB {
        (quotient_one_decimal(bytes, GB), " GB")
    } else if bytes >= MB {
        (quotient_one_decimal(bytes, MB), " MB")
    } else if bytes >= KB {
        (quotient_one_decimal(bytes, KB), " KB")
    } else {
        (decimal_text(bytes as u128), " B")
    };
    proof {
        reveal_strlit(" GB");
        reveal_strlit(" MB");
        reveal_strlit(" KB");
        reveal_strlit(" B");
    }
    s.append(unit);
    s
}

/// Sizes below 2^53 bytes are shown from their exact value.
pub proof fn lemma_exact_below_limit(b: nat)
    requires
        b < exact_limit(),
    ensures
        as_double(b) == b,
{
    lemma_grain(b);
}

} // verus!
