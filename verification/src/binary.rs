//! Exact integer arithmetic on IEEE 754 values.
//!
//! A non-negative IEEE value is ordered by its bit pattern read as an integer, its *rank*. The
//! value a rank stands for is a whole number of the format's smallest positive value, so sums,
//! multiples and their rounding can all be stated and computed on integers.
//!
//! A format is named by its `lead`, the weight of the leading bit of its significand:
//! [`LEAD_32`] for the 32-bit format and [`LEAD_64`] for the 64-bit one.
use vstd::arithmetic::div_mod::*;
use vstd::arithmetic::mul::*;
use vstd::arithmetic::power2::*;
use vstd::prelude::*;

verus! {

/// Leading significand bit of the 32-bit format.
pub const LEAD_32: u64 = 0x80_0000;

/// Leading significand bit of the 64-bit format.
pub const LEAD_64: u64 = 0x10_0000_0000_0000;

/// The value of a rank, counted in the format's smallest positive value.
pub open spec fn magnitude(lead: nat, rank: nat) -> nat {
    if rank < lead {
        rank
    } else {
        (rank % lead + lead) * pow2((rank / lead - 1) as nat)
    }
}

/// The distance from zero.
pub open spec fn abs(x: int) -> nat {
    if x < 0 {
        (-x) as nat
    } else {
        x as nat
    }
}

/// The value of a signed rank.
pub open spec fn signed_value(lead: nat, rank: int) -> int {
    if rank < 0 {
        -magnitude(lead, (-rank) as nat)
    } else {
        magnitude(lead, rank as nat) as int
    }
}

/// How many low bits of `v` do not fit a significand.
pub open spec fn excess(lead: nat, v: nat) -> nat
    decreases v,
{
    if lead == 0 || v < 2 * lead {
        0
    } else {
        1 + excess(lead, v / 2)
    }
}

/// The multiple of `unit` closest to `v`; halfway, the even multiple.
pub open spec fn to_multiple(v: nat, unit: nat) -> nat {
    let q = v / unit;
    let r = v % unit;
    if 2 * r > unit || (2 * r == unit && q % 2 == 1) {
        (q + 1) * unit
    } else {
        q * unit
    }
}

/// `v` rounded to a significand, to nearest and halfway to even.
pub open spec fn nearest(lead: nat, v: nat) -> nat {
    to_multiple(v, pow2(excess(lead, v)))
}

/// [`nearest`], mirrored for negative values.
pub open spec fn round(lead: nat, v: int) -> int {
    if v < 0 {
        -nearest(lead, (-v) as nat)
    } else {
        nearest(lead, v as nat) as int
    }
}

/// Values and their rounding are symmetric about zero.
pub proof fn symmetric(lead: nat, x: int)
    requires
        lead > 0,
    ensures
        signed_value(lead, -x) == -signed_value(lead, x),
        round(lead, -x) == -round(lead, x),
{
    if x == 0 {
        lemma2_to64();
        assert(0nat / 1 == 0 && 0nat % 1 == 0);
    }
}

/// Writing a significand and an exponent as a rank keeps the value.
proof fn lemma_rank(lead: nat, q: nat, e: nat)
    requires
        lead > 0,
        (q < lead && e == 0) || lead <= q <= 2 * lead,
    ensures
        magnitude(lead, e * lead + q) == q * pow2(e),
{
    let rank = e * lead + q;
    lemma2_to64();
    if q < lead {
        assert(rank == q) by (nonlinear_arith)
            requires
                rank == e * lead + q,
                e == 0,
        ;
    } else if q < 2 * lead {
        assert(rank == (e + 1) * lead + (q - lead)) by (nonlinear_arith)
            requires
                rank == e * lead + q,
        ;
        lemma_fundamental_div_mod_converse(rank as int, lead as int, e + 1 as int, q - lead);
    } else {
        assert(rank == (e + 2) * lead + 0) by (nonlinear_arith)
            requires
                rank == e * lead + q,
                q == 2 * lead,
        ;
        lemma_fundamental_div_mod_converse(rank as int, lead as int, e + 2 as int, 0);
        lemma_pow2_unfold(e + 1);
        assert(lead * (2 * pow2(e)) == 2 * lead * pow2(e)) by (nonlinear_arith);
    }
}

/// Doubling a value doubles what it rounds to.
proof fn lemma_nearest_double(lead: nat, v: nat)
    requires
        lead > 0,
    ensures
        nearest(lead, 2 * v) == 2 * nearest(lead, v),
{
    lemma2_to64();
    if 2 * v < 2 * lead {
        assert(2 * v / 1 == 2 * v && 2 * v % 1 == 0);
    } else {
        assert(2 * v / 2 == v);
        let unit = pow2(excess(lead, v));
        lemma_pow2_pos(excess(lead, v));
        lemma_pow2_unfold(excess(lead, v) + 1);
        assert(pow2(excess(lead, 2 * v)) == 2 * unit);
        let q = v / unit;
        let r = v % unit;
        lemma_fundamental_div_mod(v as int, unit as int);
        assert(2 * v == q * (2 * unit) + 2 * r) by (nonlinear_arith)
            requires
                v == unit * q + r,
        ;
        lemma_fundamental_div_mod_converse(2 * v as int, 2 * unit as int, q as int, 2 * r as int);
        assert((q + 1) * (2 * unit) == 2 * ((q + 1) * unit)) by (nonlinear_arith);
        assert(q * (2 * unit) == 2 * (q * unit)) by (nonlinear_arith);
    }
}

/// Rounding commutes with scaling by a power of two.
proof fn lemma_nearest_scaled(lead: nat, v: nat, e: nat)
    requires
        lead > 0,
    ensures
        nearest(lead, v * pow2(e)) == nearest(lead, v) * pow2(e),
    decreases e,
{
    lemma2_to64();
    if e == 0 {
        lemma_mul_basics(v as int);
        lemma_mul_basics(nearest(lead, v) as int);
    } else {
        let f = (e - 1) as nat;
        lemma_nearest_scaled(lead, v, f);
        lemma_nearest_double(lead, v * pow2(f));
        lemma_pow2_unfold(e);
        assert(v * (2 * pow2(f)) == 2 * (v * pow2(f))) by (nonlinear_arith);
        let n = nearest(lead, v);
        assert(n * (2 * pow2(f)) == 2 * (n * pow2(f))) by (nonlinear_arith);
    }
}

/// A value that fits a significand is not changed by rounding.
pub proof fn nearest_keeps_short(lead: nat, v: nat, e: nat)
    requires
        v < 2 * lead,
    ensures
        nearest(lead, v * pow2(e)) == v * pow2(e),
        excess(lead, v) == 0,
{
    lemma2_to64();
    assert(v / 1 == v && v % 1 == 0);
    lemma_nearest_scaled(lead, v, e);
}

/// The excess of a value between two consecutive powers-of-two multiples of `lead`.
proof fn lemma_excess(lead: nat, v: nat, k: nat)
    requires
        lead > 0,
        v < 2 * lead * pow2(k),
        k > 0 ==> lead * pow2(k) <= v,
    ensures
        excess(lead, v) == k,
    decreases k,
{
    lemma2_to64();
    if k == 0 {
        lemma_mul_basics(2 * lead as int);
    } else {
        let j = (k - 1) as nat;
        lemma_pow2_unfold(k);
        lemma_pow2_pos(j);
        assert(lead * (2 * pow2(j)) == 2 * (lead * pow2(j))) by (nonlinear_arith);
        assert(2 * lead * (2 * pow2(j)) == 2 * (2 * lead * pow2(j))) by (nonlinear_arith);
        assert(lead * pow2(j) >= lead) by (nonlinear_arith)
            requires
                pow2(j) >= 1,
        ;
        lemma_excess(lead, v / 2, j);
    }
}

/// A value within an eighth of a unit of a full significand rounds to that significand.
proof fn lemma_nearest_close(lead: nat, m: nat, e: nat, delta: int)
    requires
        lead > 0,
        lead <= m < 2 * lead,
        e >= 3,
        -pow2((e - 3) as nat) < delta < pow2((e - 3) as nat),
    ensures
        m * pow2(e) + delta >= 0,
        nearest(lead, (m * pow2(e) + delta) as nat) == m * pow2(e),
{
    let unit = pow2(e);
    let half = pow2((e - 1) as nat);
    lemma_pow2_unfold(e);
    lemma_pow2_unfold((e - 1) as nat);
    lemma_pow2_unfold((e - 2) as nat);
    lemma_pow2_pos((e - 3) as nat);
    assert(m * unit >= unit) by (nonlinear_arith)
        requires
            m >= 1,
    ;
    let v = (m * unit + delta) as nat;
    assert(m * unit + unit <= 2 * lead * unit) by (nonlinear_arith)
        requires
            m + 1 <= 2 * lead,
    ;
    if delta >= 0 {
        assert(lead * unit <= m * unit) by (nonlinear_arith)
            requires
                lead <= m,
        ;
        lemma_excess(lead, v, e);
        lemma_fundamental_div_mod_converse(v as int, unit as int, m as int, delta);
    } else if m > lead {
        assert(lead * unit + unit <= m * unit) by (nonlinear_arith)
            requires
                lead + 1 <= m,
        ;
        lemma_excess(lead, v, e);
        assert(m * unit + delta == (m - 1) * unit + (unit + delta)) by (nonlinear_arith);
        lemma_fundamental_div_mod_converse(v as int, unit as int, m - 1, unit + delta);
    } else {
        assert(2 * lead * half == lead * unit) by (nonlinear_arith)
            requires
                unit == 2 * half,
        ;
        assert(lead * half + half <= 2 * lead * half) by (nonlinear_arith)
            requires
                lead >= 1,
        ;
        lemma_excess(lead, v, (e - 1) as nat);
        assert(m * unit + delta == (2 * lead - 1) * half + (half + delta)) by (nonlinear_arith)
            requires
                unit == 2 * half,
                m == lead,
        ;
        lemma_fundamental_div_mod_converse(v as int, half as int, 2 * lead - 1, half + delta);
        assert((2 * lead - 1 + 1) * half == m * unit);
    }
}

/// A value with excess bits lies between two consecutive doublings of the largest significand.
proof fn lemma_excess_bounds(lead: nat, v: nat)
    requires
        lead > 0,
    ensures
        v < 2 * lead * pow2(excess(lead, v)),
        excess(lead, v) > 0 ==> lead * pow2(excess(lead, v)) <= v,
    decreases v,
{
    lemma2_to64();
    if v < 2 * lead {
        lemma_mul_basics(2 * lead as int);
    } else {
        let k = excess(lead, v / 2);
        lemma_excess_bounds(lead, v / 2);
        lemma_pow2_unfold(k + 1);
        assert(2 * lead * (2 * pow2(k)) == 2 * (2 * lead * pow2(k))) by (nonlinear_arith);
        assert(lead * (2 * pow2(k)) == 2 * (lead * pow2(k))) by (nonlinear_arith);
        if k == 0 {
            lemma_mul_basics(lead as int);
        }
    }
}

/// A value below a doubling of the largest significand has no more excess bits than that.
pub proof fn excess_at_most(lead: nat, v: nat, j: nat)
    requires
        lead > 0,
        v < 2 * lead * pow2(j),
    ensures
        excess(lead, v) <= j,
{
    let k = excess(lead, v);
    lemma_excess_bounds(lead, v);
    if k > j {
        if j + 1 < k {
            lemma_pow2_strictly_increases(j + 1, k);
        }
        lemma_pow2_unfold(j + 1);
        assert(2 * lead * pow2(j) <= lead * pow2(k)) by (nonlinear_arith)
            requires
                2 * pow2(j) <= pow2(k),
        ;
    }
}

/// Bounds under which the arithmetic below stays within machine integers.
pub open spec fn is_lead(lead: u64) -> bool {
    0 < lead <= LEAD_64
}

/// The significand and exponent that a rank stands for.
pub(crate) fn parts(lead: u64, rank: u64) -> (r: (u64, u32))
    requires
        is_lead(lead),
        rank <= 2400 * lead,
    ensures
        magnitude(lead as nat, rank as nat) == r.0 * pow2(r.1 as nat),
        r.0 < 2 * lead,
        r.1 > 0 ==> r.0 >= lead,
        r.1 * lead <= rank,
        r.1 <= 2400,
{
    if rank < lead {
        proof {
            lemma2_to64();
            lemma_mul_basics(rank as int);
            lemma_mul_basics(lead as int);
        }
        (rank, 0)
    } else {
        let field: u64 = rank / lead;
        proof {
            lemma_fundamental_div_mod(rank as int, lead as int);
            assert(1 <= field <= 2400) by (nonlinear_arith)
                requires
                    field == rank / lead,
                    lead <= rank <= 2400 * lead,
                    lead > 0,
            ;
            assert((field - 1) * lead <= rank) by (nonlinear_arith)
                requires
                    rank == lead * field + rank % lead,
                    0 <= rank % lead,
                    lead > 0,
            ;
        }
        (rank % lead + lead, (field - 1) as u32)
    }
}

/// The power of two, as an integer.
pub(crate) fn power_of_two(k: u32) -> (r: u128)
    requires
        k <= 64,
    ensures
        r == pow2(k as nat),
        0 < r <= 0x1_0000_0000_0000_0000,
{
    let mut r: u128 = 1;
    let mut i: u32 = 0;
    proof {
        lemma2_to64();
    }
    while i < k
        invariant
            i <= k <= 64,
            r == pow2(i as nat),
            0 < r <= pow2(64),
            pow2(64) == 0x10000000000000000,
        decreases k - i,
    {
        proof {
            lemma_pow2_unfold((i + 1) as nat);
            if i + 1 < 64 {
                lemma_pow2_strictly_increases((i + 1) as nat, 64);
            }
        }
        r = r * 2;
        i = i + 1;
    }
    r
}

/// The rank of `m` times the `e`-th power of two, rounded.
pub(crate) fn rank_of(lead: u64, m: u128, e: u32) -> (rank: u64)
    requires
        is_lead(lead),
        m < 0x80_0000_0000_0000_0000_0000_0000_0000,
        e <= 2400,
    ensures
        magnitude(lead as nat, rank as nat) == nearest(lead as nat, m as nat * pow2(e as nat)),
        rank <= (e + excess(lead as nat, m as nat) + 2) * lead,
{
    let ghost l = lead as nat;
    let ghost v = m as nat;
    let top: u128 = 2 * (lead as u128);
    let mut k: u32 = 0;
    let mut unit: u128 = 1;
    let mut q: u128 = m;
    proof {
        lemma2_to64();
        lemma_div_basics(v as int);
    }
    while q >= top
        invariant
            top == 2 * lead,
            0 < lead,
            l == lead,
            v == m,
            m < 0x80_0000_0000_0000_0000_0000_0000_0000,
            unit == pow2(k as nat),
            unit > 0,
            q == v / (unit as nat),
            k + excess(l, q as nat) == excess(l, v),
            k > 0 ==> q >= lead,
            k <= 120,
            unit * q <= m,
        decreases q,
    {
        proof {
            lemma_pow2_unfold((k + 1) as nat);
            lemma_div_denominator(v as int, unit as int, 2);
            assert(2 * unit <= unit * q) by (nonlinear_arith)
                requires
                    q >= 2,
            ;
            assert((unit * 2) * (q / 2) <= unit * q) by (nonlinear_arith)
                requires
                    2 * (q / 2) <= q,
            ;
            if k >= 120 {
                lemma_pow2_strictly_increases(119, (k + 1) as nat);
                lemma_pow2_adds(64, 55);
                lemma2_to64_rest();
            }
        }
        unit = unit * 2;
        q = q / 2;
        k = k + 1;
    }
    if k == 0 {
        let mut f: u32 = e;
        proof {
            lemma_nearest_scaled(l, v, e as nat);
            lemma_mul_basics(v as int);
        }
        while q < lead as u128 && f > 0
            invariant
                f <= e,
                q < 2 * lead,
                q * pow2(f as nat) == v * pow2(e as nat),
            decreases f,
        {
            proof {
                lemma_pow2_unfold(f as nat);
                let g = pow2((f - 1) as nat);
                assert((q * 2) * g == q * (2 * g)) by (nonlinear_arith);
            }
            q = q * 2;
            f = f - 1;
        }
        proof {
            lemma_rank(l, q as nat, f as nat);
            assert(f * lead + q <= (e + 2) * lead && 0 <= f * lead && (e + 2) * lead <= 2600
                * LEAD_64) by (nonlinear_arith)
                requires
                    0 <= f <= e <= 2400,
                    q < 2 * lead,
                    0 < lead <= LEAD_64,
            ;
        }
        (f as u64) * lead + q as u64
    } else {
        let r: u128 = m % unit;
        assert(r < unit <= m) by (nonlinear_arith)
            requires
                unit * q <= m,
                q >= 1,
                unit > 0,
                r == m % unit,
        ;
        let up: bool = 2 * r > unit || (2 * r == unit && q % 2 == 1);
        let kept: u128 = if up {
            q + 1
        } else {
            q
        };
        proof {
            lemma_nearest_scaled(l, v, e as nat);
            lemma_pow2_adds(k as nat, e as nat);
            assert((kept * unit) * pow2(e as nat) == kept * (unit * pow2(e as nat)))
                by (nonlinear_arith);
            assert(nearest(l, v) == kept * unit);
            lemma_rank(l, kept as nat, (e + k) as nat);
            assert((e + k) * lead + kept <= (e + k + 2) * lead && 0 <= (e + k) * lead && (e + k + 2)
                * lead <= 2600 * LEAD_64) by (nonlinear_arith)
                requires
                    0 <= e <= 2400,
                    0 <= k <= 120,
                    kept <= 2 * lead,
                    0 < lead <= LEAD_64,
            ;
        }
        ((e + k) as u64) * lead + kept as u64
    }
}

/// The absolute value of a signed rank.
fn unsigned(rank: i128) -> (r: u64)
    requires
        -0x8000_0000_0000_0000 <= rank <= 0x8000_0000_0000_0000,
    ensures
        r == abs(rank as int),
{
    if rank < 0 {
        (-rank) as u64
    } else {
        rank as u64
    }
}

/// The sum of two signed ranks whose first has the larger exponent.
fn sum_aligned(lead: u64, a: i128, b: i128, pa: (u64, u32), pb: (u64, u32)) -> (r: i128)
    requires
        is_lead(lead),
        magnitude(lead as nat, abs(a as int)) == pa.0 * pow2(pa.1 as nat),
        magnitude(lead as nat, abs(b as int)) == pb.0 * pow2(pb.1 as nat),
        pa.0 < 2 * lead,
        pb.0 < 2 * lead,
        pa.1 > 0 ==> pa.0 >= lead,
        pb.1 <= pa.1 <= 2400,
    ensures
        signed_value(lead as nat, r as int) == round(
            lead as nat,
            signed_value(lead as nat, a as int) + signed_value(lead as nat, b as int),
        ),
        r == a || (pa.1 <= pb.1 + 64 && abs(r as int) <= (pb.1 + 67) * lead),
{
    let ghost l = lead as nat;
    let ghost va = signed_value(l, a as int);
    let ghost vb = signed_value(l, b as int);
    let d: u32 = pa.1 - pb.1;
    let ghost ea = pow2(pa.1 as nat);
    let ghost eb = pow2(pb.1 as nat);
    if d > 64 {
        proof {
            lemma_pow2_pos(pa.1 as nat);
            lemma_pow2_pos(pb.1 as nat);
            lemma_pow2_adds(53, pb.1 as nat);
            lemma_pow2_strictly_increases((53 + pb.1) as nat, (pa.1 - 3) as nat);
            lemma2_to64_rest();
            assert(0 <= pb.0 * eb < 0x20_0000_0000_0000 * eb) by (nonlinear_arith)
                requires
                    0 <= pb.0 < 0x20_0000_0000_0000,
                    eb > 0,
            ;
            lemma_nearest_close(l, pa.0 as nat, pa.1 as nat, if a < 0 { -vb } else { vb });
            assert(pa.0 * ea > 0) by (nonlinear_arith)
                requires
                    pa.0 > 0,
                    ea > 0,
            ;
            symmetric(l, va + vb);
            symmetric(l, a as int);
            assert(va == round(l, va + vb));
        }
        a
    } else {
        let scale: u128 = power_of_two(d);
        assert(0 <= pa.0 * scale <= 0x20_0000_0000_0000_0000_0000_0000_0000) by (nonlinear_arith)
            requires
                0 <= pa.0 <= 0x20_0000_0000_0000,
                0 < scale <= 0x1_0000_0000_0000_0000,
        ;
        let big: u128 = (pa.0 as u128) * scale;
        let x: i128 = if a < 0 {
            -(big as i128)
        } else {
            big as i128
        };
        let y: i128 = if b < 0 {
            -(pb.0 as i128)
        } else {
            pb.0 as i128
        };
        let s: i128 = x + y;
        let m: u128 = if s < 0 {
            (-s) as u128
        } else {
            s as u128
        };
        proof {
            lemma2_to64();
            lemma_pow2_unfold(65);
            assert(pa.0 * scale <= 2 * lead * scale && 2 * lead * scale <= 2 * lead
                * 0x1_0000_0000_0000_0000) by (nonlinear_arith)
                requires
                    0 <= pa.0 <= 2 * lead,
                    0 < scale <= 0x1_0000_0000_0000_0000,
                    lead > 0,
            ;
            assert(m < 2 * lead * pow2(65)) by (nonlinear_arith)
                requires
                    pow2(65) == 0x2_0000_0000_0000_0000,
                    m <= 2 * lead * 0x1_0000_0000_0000_0000 + 2 * lead,
                    lead > 0,
            ;
            excess_at_most(l, m as nat, 65);
        }
        let rank: u64 = rank_of(lead, m, pb.1);
        proof {
            assert((pb.1 + excess(l, m as nat) + 2) * lead <= (pb.1 + 67) * lead)
                by (nonlinear_arith)
                requires
                    excess(l, m as nat) <= 65,
                    lead > 0,
            ;
            lemma_pow2_adds(d as nat, pb.1 as nat);
            assert(pa.0 * ea == (pa.0 * scale) * eb) by (nonlinear_arith)
                requires
                    ea == scale * eb,
            ;
            assert(va == x * eb && vb == y * eb) by {
                assert((-(big as int)) * eb == -(big * eb)) by (nonlinear_arith);
                assert((-(pb.0 as int)) * eb == -(pb.0 * eb)) by (nonlinear_arith);
            }
            assert(va + vb == s * eb) by (nonlinear_arith)
                requires
                    va == x * eb,
                    vb == y * eb,
                    s == x + y,
            ;
            lemma_pow2_pos(pb.1 as nat);
            if s < 0 {
                assert(-(va + vb) == m * eb && m * eb > 0) by (nonlinear_arith)
                    requires
                        va + vb == s * eb,
                        m == -s,
                        m > 0,
                        eb > 0,
                ;
                symmetric(l, rank as int);
            } else {
                assert(m * eb >= 0) by (nonlinear_arith)
                    requires
                        m >= 0,
                        eb > 0,
                ;
            }
            symmetric(l, va + vb);
            assert(round(l, va + vb) == if s < 0 { -magnitude(l, rank as nat) } else {
                magnitude(l, rank as nat) as int
            });
        }
        if s < 0 {
            -(rank as i128)
        } else {
            rank as i128
        }
    }
}

/// The rounded sum of two signed ranks.
pub(crate) fn sum(lead: u64, a: i128, b: i128) -> (r: i128)
    requires
        is_lead(lead),
        abs(a as int) <= 2400 * lead,
        abs(b as int) <= 2400 * lead,
        abs(a as int) <= 0x8000_0000_0000_0000,
        abs(b as int) <= 0x8000_0000_0000_0000,
    ensures
        signed_value(lead as nat, r as int) == round(
            lead as nat,
            signed_value(lead as nat, a as int) + signed_value(lead as nat, b as int),
        ),
        r == a || r == b || abs(r as int) <= abs(a as int) + 67 * lead && abs(r as int) <= abs(
            b as int,
        ) + 67 * lead,
{
    let pa: (u64, u32) = parts(lead, unsigned(a));
    let pb: (u64, u32) = parts(lead, unsigned(b));
    proof {
        assert((pa.1 + 67) * lead == pa.1 * lead + 67 * lead) by (nonlinear_arith);
        assert((pb.1 + 67) * lead == pb.1 * lead + 67 * lead) by (nonlinear_arith);
        if pa.1 < pb.1 {
            assert(pa.1 * lead <= pb.1 * lead) by (nonlinear_arith)
                requires
                    pa.1 <= pb.1,
            ;
        } else {
            assert(pb.1 * lead <= pa.1 * lead) by (nonlinear_arith)
                requires
                    pb.1 <= pa.1,
            ;
        }
    }
    if pa.1 < pb.1 {
        sum_aligned(lead, b, a, pb, pa)
    } else {
        sum_aligned(lead, a, b, pa, pb)
    }
}

/// The rounded product of a signed rank and a small whole number.
pub(crate) fn times(lead: u64, a: i128, n: u32) -> (r: i128)
    requires
        is_lead(lead),
        abs(a as int) <= 2400 * lead,
        abs(a as int) <= 0xc000_0000_0000_0000,
    ensures
        signed_value(lead as nat, r as int) == round(
            lead as nat,
            n * signed_value(lead as nat, a as int),
        ),
        abs(r as int) <= abs(a as int) + 130 * lead,
        a >= 0 ==> r >= 0,
{
    let rank: u64 = if a < 0 {
        (-a) as u64
    } else {
        a as u64
    };
    let p: (u64, u32) = parts(lead, rank);
    assert(0 <= p.0 * n <= 0x20_0000_0000_0000 * 0xffff_ffff) by (nonlinear_arith)
        requires
            0 <= p.0 <= 0x20_0000_0000_0000,
            0 <= n <= 0xffff_ffff,
    ;
    let m: u128 = (p.0 as u128) * (n as u128);
    let r: u64 = rank_of(lead, m, p.1);
    proof {
        let e = pow2(p.1 as nat);
        assert((p.0 * n) * e == n * (p.0 * e)) by (nonlinear_arith);
        lemma2_to64();
        lemma2_to64_rest();
        lemma_pow2_adds(64, 56);
        assert(m < 2 * lead * pow2(120)) by (nonlinear_arith)
            requires
                m < pow2(120),
                lead > 0,
        ;
        excess_at_most(lead as nat, m as nat, 120);
        assert((p.1 + excess(lead as nat, m as nat) + 2) * lead <= p.1 * lead + 130 * lead)
            by (nonlinear_arith)
            requires
                excess(lead as nat, m as nat) <= 120,
                lead > 0,
        ;
        let v = magnitude(lead as nat, rank as nat);
        assert(n * (-v) == -(n * v) && n * v >= 0) by (nonlinear_arith)
            requires
                v >= 0,
                n >= 0,
        ;
        symmetric(lead as nat, r as int);
        symmetric(lead as nat, n * v);
    }
    if a < 0 {
        -(r as i128)
    } else {
        r as i128
    }
}

/// No representable value is closer to `v` than the one it is rounded to.
pub proof fn rounding_is_to_nearest(lead: nat, v: nat, rank: nat)
    requires
        lead > 0,
    ensures
        abs(nearest(lead, v) - v) <= abs(magnitude(lead, rank) - v),
{
    let k = excess(lead, v);
    let unit = pow2(k);
    let x = magnitude(lead, rank);
    lemma2_to64();
    lemma_pow2_pos(k);
    lemma_excess_bounds(lead, v);
    lemma_fundamental_div_mod(v as int, unit as int);
    let q = v / unit;
    let r = v % unit;
    if k > 0 {
        assert(q * unit + r == v && (q + 1) * unit == q * unit + unit) by (nonlinear_arith)
            requires
                v == unit * q + r,
        ;
        assert(q * unit >= lead * unit) by (nonlinear_arith)
            requires
                q * unit + r == v,
                0 <= r < unit,
                lead * unit <= v,
        ;
        if x >= lead * unit {
            let e = (rank / lead - 1) as nat;
            let s = rank % lead + lead;
            assert(lead * unit >= lead) by (nonlinear_arith)
                requires
                    unit >= 1,
            ;
            if e < k {
                if e + 1 < k {
                    lemma_pow2_strictly_increases(e + 1, k);
                }
                lemma_pow2_unfold(e + 1);
                lemma_pow2_pos(e);
                assert(s * pow2(e) < lead * unit) by (nonlinear_arith)
                    requires
                        s < 2 * lead,
                        2 * pow2(e) <= unit,
                        pow2(e) > 0,
                ;
            }
            lemma_pow2_adds((e - k) as nat, k);
            let t = s * pow2((e - k) as nat);
            assert(x == t * unit) by (nonlinear_arith)
                requires
                    x == s * (pow2((e - k) as nat) * unit),
                    t == s * pow2((e - k) as nat),
            ;
            if t <= q {
                assert(t * unit <= q * unit) by (nonlinear_arith)
                    requires
                        t <= q,
                ;
            } else {
                assert(t * unit >= q * unit + unit) by (nonlinear_arith)
                    requires
                        t >= q + 1,
                ;
            }
        }
    } else {
        assert(v / 1 == v && v % 1 == 0);
    }
}

/// A larger rank has a larger value.
pub proof fn ranks_are_ordered_like_values(lead: nat, a: nat, b: nat)
    requires
        lead > 0,
    ensures
        a < b <==> magnitude(lead, a) < magnitude(lead, b),
{
    if a < b {
        lemma_magnitude_increases(lead, a, b);
    } else if b < a {
        lemma_magnitude_increases(lead, b, a);
    }
}

/// Signed ranks are ordered like the values they stand for.
pub proof fn signed_ranks_are_ordered_like_values(lead: nat, a: int, b: int)
    requires
        lead > 0,
    ensures
        a < b <==> signed_value(lead, a) < signed_value(lead, b),
        a == b <==> signed_value(lead, a) == signed_value(lead, b),
{
    ranks_are_ordered_like_values(lead, abs(a), abs(b));
    ranks_are_ordered_like_values(lead, abs(b), abs(a));
    ranks_are_ordered_like_values(lead, 0, abs(a));
    ranks_are_ordered_like_values(lead, 0, abs(b));
}

proof fn lemma_magnitude_increases(lead: nat, a: nat, b: nat)
    requires
        lead > 0,
        a < b,
    ensures
        magnitude(lead, a) < magnitude(lead, b),
    decreases b - a,
{
    if a + 1 < b {
        lemma_magnitude_increases(lead, (a + 1) as nat, b);
    }
    lemma_magnitude_step(lead, a);
    lemma_pow2_pos(if a < lead { 0nat } else { (a / lead - 1) as nat });
}

/// Consecutive ranks differ by the weight of the last bit of the significand.
proof fn lemma_magnitude_step(lead: nat, a: nat)
    requires
        lead > 0,
    ensures
        magnitude(lead, a + 1) == magnitude(lead, a) + pow2(
            if a < lead { 0nat } else { (a / lead - 1) as nat },
        ),
{
    lemma2_to64();
    if a < lead {
        if a + 1 == lead {
            lemma_rank(lead, lead, 0);
            lemma_mul_basics(lead as int);
        }
    } else {
        let e = (a / lead - 1) as nat;
        let q = a % lead + lead;
        lemma_fundamental_div_mod(a as int, lead as int);
        assert(a / lead >= 1) by (nonlinear_arith)
            requires
                a >= lead,
                lead > 0,
        ;
        assert(a == e * lead + q) by (nonlinear_arith)
            requires
                a == lead * (a / lead) + a % lead,
                e == a / lead - 1,
                q == a % lead + lead,
        ;
        lemma_rank(lead, q, e);
        lemma_rank(lead, q + 1, e);
        assert((q + 1) * pow2(e) == q * pow2(e) + pow2(e)) by (nonlinear_arith);
    }
}

/// A value of the format needs no rounding.
pub proof fn values_need_no_rounding(lead: nat, rank: int)
    requires
        lead > 0,
    ensures
        round(lead, signed_value(lead, rank)) == signed_value(lead, rank),
{
    lemma2_to64();
    let size = abs(rank);
    if size < lead {
        nearest_keeps_short(lead, size, 0);
        lemma_mul_basics(size as int);
    } else {
        nearest_keeps_short(lead, size % lead + lead, (size / lead - 1) as nat);
    }
    symmetric(lead, signed_value(lead, rank));
}

/// Rounding a size keeps the order of sizes.
proof fn lemma_nearest_keeps_order(lead: nat, u: nat, v: nat)
    requires
        lead > 0,
        u <= v,
    ensures
        nearest(lead, u) <= nearest(lead, v),
{
    let j = excess(lead, u);
    let k = excess(lead, v);
    let small = pow2(j);
    let large = pow2(k);
    lemma_pow2_pos(j);
    lemma_pow2_pos(k);
    lemma_excess_bounds(lead, u);
    lemma_excess_bounds(lead, v);
    excess_at_most(lead, u, k);
    lemma_fundamental_div_mod(u as int, small as int);
    lemma_fundamental_div_mod(v as int, large as int);
    let p = u / small;
    let q = v / large;
    assert(p * small + small == (p + 1) * small && q * large + large == (q + 1) * large)
        by (nonlinear_arith);
    if j == k {
        lemma_div_is_ordered(u as int, v as int, small as int);
        if p < q {
            assert((p + 1) * small <= q * small) by (nonlinear_arith)
                requires
                    p + 1 <= q,
            ;
        }
    } else {
        assert(p + 1 <= 2 * lead) by (nonlinear_arith)
            requires
                u == small * p + u % small,
                u % small >= 0,
                u < 2 * lead * small,
                small > 0,
        ;
        assert(q >= lead) by (nonlinear_arith)
            requires
                v == large * q + v % large,
                v % large < large,
                v >= lead * large,
                large > 0,
        ;
        lemma_pow2_unfold(j + 1);
        if j + 1 < k {
            lemma_pow2_strictly_increases(j + 1, k);
        }
        assert((p + 1) * small <= lead * large && lead * large <= q * large) by (nonlinear_arith)
            requires
                p + 1 <= 2 * lead,
                2 * small <= large,
                lead <= q,
                small > 0,
        ;
    }
}

/// Rounding keeps the order of values.
pub proof fn rounding_keeps_order(lead: nat, u: int, v: int)
    requires
        lead > 0,
        u <= v,
    ensures
        round(lead, u) <= round(lead, v),
{
    if u >= 0 {
        lemma_nearest_keeps_order(lead, u as nat, v as nat);
    } else if v < 0 {
        lemma_nearest_keeps_order(lead, (-v) as nat, (-u) as nat);
    }
}

/// Rounding gives a value of the format.
pub proof fn rounding_gives_a_value(lead: nat, v: int) -> (rank: int)
    requires
        lead > 0,
    ensures
        round(lead, v) == signed_value(lead, rank),
{
    let size = abs(v);
    let k = excess(lead, size);
    let unit = pow2(k);
    lemma2_to64();
    lemma_pow2_pos(k);
    lemma_excess_bounds(lead, size);
    lemma_fundamental_div_mod(size as int, unit as int);
    let q = size / unit;
    assert(q < 2 * lead) by (nonlinear_arith)
        requires
            size == unit * q + size % unit,
            size % unit >= 0,
            size < 2 * lead * unit,
            unit > 0,
    ;
    if k > 0 {
        assert(q >= lead) by (nonlinear_arith)
            requires
                size == unit * q + size % unit,
                size % unit < unit,
                size >= lead * unit,
                unit > 0,
        ;
    } else {
        assert(size / 1 == size && size % 1 == 0);
    }
    let kept = if nearest(lead, size) == q * unit {
        q
    } else {
        q + 1
    };
    lemma_rank(lead, kept, k);
    let rank = (k * lead + kept) as int;
    assert(rank >= 0) by (nonlinear_arith)
        requires
            rank == k * lead + kept,
    ;
    assert(nearest(lead, size) == magnitude(lead, rank as nat));
    symmetric(lead, v);
    symmetric(lead, rank);
    if v < 0 {
        -rank
    } else {
        rank
    }
}

/// Rounding is to nearest on either side of zero: no value of the format is closer.
pub proof fn no_value_is_closer(lead: nat, v: int, rank: int)
    requires
        lead > 0,
    ensures
        abs(round(lead, v) - v) <= abs(signed_value(lead, rank) - v),
{
    let size = abs(v);
    rounding_is_to_nearest(lead, size, abs(rank));
    rounding_is_to_nearest(lead, size, 0);
    symmetric(lead, v);
}

/// A size halfway between two consecutive values goes to the one of even rank.
proof fn lemma_halfway(lead: nat, v: nat, rank: nat)
    requires
        lead > 0,
        lead % 2 == 0,
        v - magnitude(lead, rank) == magnitude(lead, rank + 1) - v,
    ensures
        nearest(lead, v) == magnitude(lead, if rank % 2 == 0 { rank } else { rank + 1 }),
{
    lemma2_to64();
    lemma_magnitude_step(lead, rank);
    let e = if rank < lead {
        0nat
    } else {
        (rank / lead - 1) as nat
    };
    assert(e > 0);
    let unit = pow2(e);
    let half = pow2((e - 1) as nat);
    lemma_pow2_unfold(e);
    lemma_pow2_pos((e - 1) as nat);
    let q = rank % lead + lead;
    lemma_fundamental_div_mod(rank as int, lead as int);
    assert(v == q * unit + half);
    assert(q % 2 == rank % 2) by {
        let h = lead / 2;
        let d = rank / lead;
        assert(lead * d == 2 * (h * d)) by (nonlinear_arith)
            requires
                lead == 2 * h,
        ;
    }
    assert(lead * unit <= q * unit && q * unit + unit <= 2 * lead * unit) by (nonlinear_arith)
        requires
            lead <= q,
            q + 1 <= 2 * lead,
    ;
    lemma_excess(lead, v, e);
    lemma_fundamental_div_mod_converse(v as int, unit as int, q as int, half as int);
    assert((q + 1) * unit == q * unit + unit) by (nonlinear_arith);
}

/// Halfway between two consecutive values, rounding goes to the one of even rank.
pub proof fn halfway_goes_to_the_even_rank(lead: nat, v: int, rank: nat)
    requires
        lead > 0,
        lead % 2 == 0,
        abs(v) - magnitude(lead, rank) == magnitude(lead, rank + 1) - abs(v),
    ensures
        abs(round(lead, v)) == magnitude(lead, if rank % 2 == 0 { rank } else { rank + 1 }),
        v >= 0 ==> round(lead, v) >= 0,
        v <= 0 ==> round(lead, v) <= 0,
{
    lemma_halfway(lead, abs(v), rank);
    symmetric(lead, v);
}

/// What a rank stands for, by the exponent and the fraction it is made of.
pub proof fn the_value_of_a_rank(lead: nat, exponent: nat, fraction: nat)
    requires
        fraction < lead,
    ensures
        exponent == 0 ==> signed_value(lead, fraction as int) == fraction,
        exponent > 0 ==> signed_value(lead, (exponent * lead + fraction) as int) == (lead
            + fraction) * pow2((exponent - 1) as nat),
        exponent > 0 && exponent * lead + fraction > 0 ==> signed_value(
            lead,
            -((exponent * lead + fraction) as int),
        ) == -((lead + fraction) * pow2((exponent - 1) as nat)),
{
    if exponent > 0 {
        let rank = exponent * lead + fraction;
        lemma_fundamental_div_mod_converse(
            rank as int,
            lead as int,
            exponent as int,
            fraction as int,
        );
        assert(rank >= lead) by (nonlinear_arith)
            requires
                rank == exponent * lead + fraction,
                exponent >= 1,
        ;
    }
}

} // verus!
