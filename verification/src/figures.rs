//! Figures as they are shown: counts in thousands and millions, the length of a
//! rate window, paths below the home directory.
use crate::text::{cat2, decimal, decimal_string, decimal_wide, starts, strip_prefix};
use vstd::prelude::*;

verus! {

// ---------------------------------------------------------------------------
// Rounding
// ---------------------------------------------------------------------------

/// The integer nearest to `a / b`; of two that are equally near, the even one.
pub open spec fn nearest(a: nat, b: nat) -> nat {
    let q = a / b;
    let r = a % b;
    if 2 * r < b || (2 * r == b && q % 2 == 0) {
        q
    } else {
        q + 1
    }
}

fn round(a: u128, b: u128) -> (n: u128)
    requires
        0 < b <= 0x1_0000_0000_0000_0000_0000,
        a < u128::MAX,
    ensures
        n == nearest(a as nat, b as nat),
{
    let q: u128 = a / b;
    let r: u128 = a % b;
    proof {
        assert(q <= a) by (nonlinear_arith)
            requires
                q == a / b,
                b > 0,
        ;
    }
    if 2 * r < b || (2 * r == b && q % 2 == 0) {
        q
    } else {
        q + 1
    }
}

/// Numbers of 53 binary digits are below this.
pub const TOP: u128 = 0x20_0000_0000_0000;

/// The smallest power of two of which a number of 53 binary digits times exceeds
/// `n`.
pub open spec fn coarse(n: nat) -> nat
    decreases n,
{
    if n < TOP {
        1
    } else {
        2 * coarse(n / 2)
    }
}

/// The number nearest to `n` that has 53 significant binary digits.
pub open spec fn in_double(n: nat) -> nat {
    nearest(n, coarse(n)) * coarse(n)
}

/// The largest power of two from `f` on, by doubling, times which `a / b` has no
/// more than 53 binary digits.
pub open spec fn fine(a: nat, b: nat, f: nat) -> nat
    decreases TOP * b - f * a,
{
    if a > 0 && f > 0 && 2 * f * a < TOP * b {
        proof {
            assert(f * a < 2 * f * a) by (nonlinear_arith)
                requires
                    a > 0,
                    f > 0,
            ;
        }
        fine(a, b, 2 * f)
    } else {
        f
    }
}

/// `n` divided by `d` in double precision, rounded to an integer.
pub open spec fn divided(n: nat, d: nat) -> nat {
    let a = in_double(n);
    let f = fine(a, d, 1);
    nearest(nearest(a * f, d), f)
}

fn coarse_of(n: u64) -> (r: u128)
    ensures
        r == coarse(n as nat),
        1 <= r <= 4096,
{
    let mut m: u64 = n;
    let mut u: u128 = 1;
    while m as u128 >= TOP
        invariant
            coarse(n as nat) == u * coarse(m as nat),
            1 <= u,
            m as nat * u <= n,
            u <= 4096,
        decreases m,
    {
        proof {
            assert(u <= 2047) by (nonlinear_arith)
                requires
                    m as nat * u <= n,
                    m >= 0x20_0000_0000_0000,
                    n <= 0xffff_ffff_ffff_ffff,
            ;
            assert(coarse(m as nat) == 2 * coarse((m / 2) as nat));
            assert(u * (2 * coarse((m / 2) as nat)) == (2 * u) * coarse((m / 2) as nat))
                by (nonlinear_arith);
            assert((m / 2) as nat * (2 * u) <= m as nat * u) by (nonlinear_arith)
                requires
                    2 * (m / 2) <= m,
                    u >= 1,
            ;
        }
        m = m / 2;
        u = 2 * u;
    }
    assert(u * coarse(m as nat) == u) by (nonlinear_arith)
        requires
            coarse(m as nat) == 1,
    ;
    u
}

/// The number nearest to `n` that has 53 significant binary digits.
fn to_double(n: u64) -> (r: u128)
    ensures
        r == in_double(n as nat),
        r <= 0x1_0000_0000_0000_1000,
{
    let u = coarse_of(n);
    let k = round(n as u128, u);
    proof {
        assert(k * u <= n + u) by (nonlinear_arith)
            requires
                k <= (n as nat) / (u as nat) + 1,
                u >= 1,
        ;
    }
    k * u
}

fn divide(n: u64, d: u128) -> (r: u128)
    requires
        1 <= d <= 1_000_000,
    ensures
        r == divided(n as nat, d as nat),
{
    let a = to_double(n);
    let mut f: u128 = 1;
    if a > 0 {
        while 2 * f * a < TOP * d
            invariant
                a > 0,
                f >= 1,
                1 <= d <= 1_000_000,
                a <= 0x1_0000_0000_0000_1000,
                fine(a as nat, d as nat, 1) == fine(a as nat, d as nat, f as nat),
                f == 1 || f * a < TOP * d,
                2 * f * a <= u128::MAX,
                TOP * d <= u128::MAX,
                f * a <= 0x10_0000_0000_0000_0000_0000,
                f <= 0x1_0000_0000_0000_0000_0000,
            decreases TOP * d - f * a,
        {
            proof {
                assert((2 * f) * a == 2 * f * a) by (nonlinear_arith);
                assert(f * a < 2 * f * a) by (nonlinear_arith)
                    requires
                        a > 0,
                        f > 0,
                ;
                assert(TOP * d <= 0x20_0000_0000_0000 * 1_000_000) by (nonlinear_arith)
                    requires
                        d <= 1_000_000,
                        TOP == 0x20_0000_0000_0000,
                ;
                assert(2 * f <= 2 * f * a) by (nonlinear_arith)
                    requires
                        a > 0,
                        f > 0,
                ;
                assert(2 * (2 * f) * a == 2 * (2 * f * a)) by (nonlinear_arith);
            }
            f = 2 * f;
        }
    }
    let m = round(f * a, d);
    proof {
        assert(m <= f * a + 1) by (nonlinear_arith)
            requires
                m <= ((f * a) as nat) / (d as nat) + 1,
                d >= 1,
        ;
        assert(f * a == a * f) by (nonlinear_arith);
    }
    round(m, f)
}

// ---------------------------------------------------------------------------
// Labels
// ---------------------------------------------------------------------------

/// A count in millions, in thousands, or as it is.
pub open spec fn si(n: nat) -> Seq<char> {
    if n >= 1_000_000 {
        decimal(divided(n, 1_000_000)) + "M"@
    } else if n >= 1000 {
        decimal(divided(n, 1000)) + "k"@
    } else {
        decimal(n)
    }
}

/// A short form of a count: 91M, 425k, 512.
pub fn fmt_si(n: u64) -> (r: String)
    ensures
        r@ == si(n as nat),
{
    if n >= 1_000_000 {
        let s = decimal_wide(divide(n, 1_000_000));
        cat2(s.as_str(), "M")
    } else if n >= 1000 {
        let s = decimal_wide(divide(n, 1000));
        cat2(s.as_str(), "k")
    } else {
        decimal_string(n)
    }
}

/// Within a twentieth of `t`.
pub open spec fn about(minutes: int, t: int) -> bool {
    -(t / 20) <= minutes - t <= t / 20
}

pub open spec fn window_label(minutes: int) -> Seq<char> {
    if about(minutes, 300) {
        "5h"@
    } else if about(minutes, 1440) {
        "daily"@
    } else if about(minutes, 10080) {
        "wk"@
    } else if about(minutes, 43200) {
        "mo"@
    } else if minutes > 0 {
        decimal(
            if minutes >= 60 {
                (minutes / 60) as nat
            } else {
                1
            },
        ) + "h"@
    } else {
        "limit"@
    }
}

fn is_about(minutes: i64, t: i64) -> (r: bool)
    requires
        300 <= t <= 43200,
        minutes >= i64::MIN + 43200,
    ensures
        r == about(minutes as int, t as int),
{
    let d: i64 = minutes - t;
    d <= t / 20 && d >= -(t / 20)
}

/// A short label for the length of a rate window, with a tolerance of a
/// twentieth.
pub fn rate_window_label(minutes: i64) -> (r: String)
    requires
        minutes > i64::MIN + 43200,
    ensures
        r@ == window_label(minutes as int),
{
    if is_about(minutes, 300) {
        "5h".to_string()
    } else if is_about(minutes, 1440) {
        "daily".to_string()
    } else if is_about(minutes, 10080) {
        "wk".to_string()
    } else if is_about(minutes, 43200) {
        "mo".to_string()
    } else if minutes > 0 {
        let h: i64 = minutes / 60;
        let s = decimal_string(
            if h >= 1 {
                h as u64
            } else {
                1
            },
        );
        cat2(s.as_str(), "h")
    } else {
        "limit".to_string()
    }
}

/// A path with the home directory written as `~`.
pub open spec fn below_home(path: Seq<char>, home: Option<Seq<char>>) -> Seq<char> {
    match home {
        Some(h) => if h.len() > 0 && starts(path, h) {
            "~"@ + path.skip(h.len() as int)
        } else {
            path
        },
        None => path,
    }
}

/// Abbreviates the home directory in a resolved path.
pub fn home_path(path: &str, home: Option<&str>) -> (r: String)
    ensures
        r@ == below_home(
            path@,
            match home {
                Some(h) => Some(h@),
                None => None,
            },
        ),
{
    match home {
        Some(h) => {
            if !h.is_empty() {
                match strip_prefix(path, h) {
                    Some(rest) => {
                        return cat2("~", rest.as_str());
                    },
                    None => {},
                }
            }
            path.to_owned()
        },
        None => path.to_owned(),
    }
}

} // verus!
