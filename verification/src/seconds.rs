//! Times in seconds, and their conversion to centiseconds.
use crate::binary;
use crate::binary::{abs, magnitude, round, signed_value, LEAD_64};
use crate::envelope::{speech_begins, speech_start_window, values, ENVELOPE_WINDOW_SECS};
use crate::level::Level;
use vstd::arithmetic::div_mod::*;
use vstd::arithmetic::mul::*;
use vstd::arithmetic::power2::*;
use vstd::prelude::*;

verus! {

/// Bit pattern of positive infinity.
pub const INFINITE_SECONDS: u64 = 0x7ff0_0000_0000_0000;

/// One second, counted in the smallest positive time.
pub open spec fn second() -> nat {
    pow2(1074)
}

/// A time in seconds: any 64-bit IEEE 754 pattern.
#[derive(Clone, Copy, Debug, PartialEq, Eq, Structural)]
pub struct Seconds {
    pub bits: u64,
}

impl Seconds {
    /// Whether the pattern is not a number.
    pub open spec fn is_nan(self) -> bool {
        self.bits % 0x8000_0000_0000_0000 > INFINITE_SECONDS
    }

    /// Whether the time is one of the infinities.
    pub open spec fn is_infinite(self) -> bool {
        self.bits % 0x8000_0000_0000_0000 == INFINITE_SECONDS
    }

    /// The signed rank of the pattern.
    pub open spec fn rank(self) -> int {
        if self.bits >= 0x8000_0000_0000_0000 {
            0x8000_0000_0000_0000 - self.bits
        } else {
            self.bits as int
        }
    }

    /// The time, counted in the smallest positive time. An infinite time counts as the first
    /// one too large for the format.
    pub open spec fn value(self) -> int {
        signed_value(LEAD_64 as nat, self.rank())
    }

    /// Whether this is the time at which an envelope window begins.
    pub open spec fn starts_window(self, window: int) -> bool {
        &&& self.bits < INFINITE_SECONDS
        &&& self.value() == window_start_of(window)
    }
}

/// The value of the time at which an envelope window begins.
pub open spec fn window_start_of(window: int) -> int {
    round(LEAD_64 as nat, ENVELOPE_WINDOW_SECS * round(LEAD_64 as nat, window * second()))
}

/// Division that drops the fraction, on either side of zero.
pub open spec fn toward_zero(x: int, d: nat) -> int {
    if x < 0 {
        -((-x) / (d as int))
    } else {
        x / (d as int)
    }
}

/// `x`, or the nearest 64-bit integer.
pub open spec fn saturated(x: int) -> int {
    if x < i64::MIN {
        i64::MIN as int
    } else if x > i64::MAX {
        i64::MAX as int
    } else {
        x
    }
}

/// What [`whole`] computes.
pub open spec fn whole_of(t: Seconds) -> int {
    if t.is_nan() || t.value() < 0 {
        0
    } else if t.value() / (second() as int) > u64::MAX {
        u64::MAX as int
    } else {
        t.value() / (second() as int)
    }
}

/// What [`centiseconds`] computes: the sum and its hundredfold are each rounded, then the
/// fraction is dropped.
pub open spec fn shifted_centiseconds(secs: Seconds, offset: Seconds) -> int {
    if secs.is_nan() || offset.is_nan() || (secs.is_infinite() && offset.is_infinite()
        && secs.bits != offset.bits) {
        0
    } else {
        let lead = LEAD_64 as nat;
        saturated(
            toward_zero(round(lead, 100 * round(lead, secs.value() + offset.value())), second()),
        )
    }
}

/// The signed rank of a time.
fn signed_rank(t: Seconds) -> (r: i128)
    ensures
        r == t.rank(),
{
    if t.bits >= 0x8000_0000_0000_0000 {
        0x8000_0000_0000_0000 - (t.bits as i128)
    } else {
        t.bits as i128
    }
}

/// Whole seconds in a rank, or one more than 64 bits hold.
fn whole_seconds(rank: u64) -> (r: u128)
    requires
        rank <= 2400 * LEAD_64,
    ensures
        r == magnitude(LEAD_64 as nat, rank as nat) / second() || (r == 0x1_0000_0000_0000_0000
            && magnitude(LEAD_64 as nat, rank as nat) / second() >= 0x1_0000_0000_0000_0000),
        r <= 0x1_0000_0000_0000_0000,
{
    let p: (u64, u32) = binary::parts(LEAD_64, rank);
    let ghost m = p.0 as nat;
    proof {
        lemma2_to64();
        lemma2_to64_rest();
        lemma_pow2_pos(1074);
    }
    if p.1 >= 1074 {
        let k: u32 = p.1 - 1074;
        proof {
            lemma_pow2_adds(k as nat, 1074);
            let t = m * pow2(k as nat);
            assert(m * (pow2(k as nat) * second()) == t * second()) by (nonlinear_arith)
                requires
                    t == m * pow2(k as nat),
            ;
            lemma_div_multiples_vanish(t as int, second() as int);
            assert(t * second() == second() * t) by (nonlinear_arith);
            if k > 12 {
                lemma_pow2_strictly_increases(12, k as nat);
            }
        }
        if k >= 12 {
            assert(m * pow2(k as nat) >= 0x1_0000_0000_0000_0000) by (nonlinear_arith)
                requires
                    m >= 0x10_0000_0000_0000,
                    pow2(k as nat) >= 0x1000,
            ;
            0x1_0000_0000_0000_0000
        } else {
            let scale: u128 = binary::power_of_two(k);
            proof {
                if k < 11 {
                    lemma_pow2_strictly_increases(k as nat, 11);
                }
                assert(0 <= m * scale < 0x1_0000_0000_0000_0000) by (nonlinear_arith)
                    requires
                        0 <= m < 0x20_0000_0000_0000,
                        0 < scale <= 0x800,
                ;
            }
            (p.0 as u128) * scale
        }
    } else {
        let k: u32 = 1074 - p.1;
        let ghost e = pow2(p.1 as nat);
        proof {
            lemma_pow2_adds(p.1 as nat, k as nat);
            lemma_pow2_pos(p.1 as nat);
            lemma_pow2_pos(k as nat);
            lemma_div_denominator((m * e) as int, e as int, pow2(k as nat) as int);
            lemma_div_multiples_vanish(m as int, e as int);
            assert(m * e == e * m) by (nonlinear_arith);
        }
        if k > 64 {
            proof {
                lemma_pow2_strictly_increases(64, k as nat);
                lemma_basic_div(m as int, pow2(k as nat) as int);
            }
            0
        } else {
            let scale: u128 = binary::power_of_two(k);
            let q: u128 = (p.0 as u128) / scale;
            assert(q <= m) by (nonlinear_arith)
                requires
                    q == m / scale as nat,
                    scale >= 1,
            ;
            q
        }
    }
}

/// A transcriber timestamp, in centiseconds, shifted back onto the original recording.
///
/// The transcriber sees only the trimmed file and counts from zero within it, so every timestamp
/// it reports is short by whatever was skipped.
pub fn centiseconds(secs: Seconds, offset: Seconds) -> (r: i64)
    ensures
        r == shifted_centiseconds(secs, offset),
{
    let a: u64 = secs.bits % 0x8000_0000_0000_0000;
    let b: u64 = offset.bits % 0x8000_0000_0000_0000;
    if a > INFINITE_SECONDS || b > INFINITE_SECONDS {
        return 0;
    }
    if a == INFINITE_SECONDS && b == INFINITE_SECONDS && secs.bits != offset.bits {
        return 0;
    }
    let total: i128 = binary::sum(LEAD_64, signed_rank(secs), signed_rank(offset));
    let hundredfold: i128 = binary::times(LEAD_64, total, 100);
    proof {
        binary::symmetric(LEAD_64 as nat, hundredfold as int);
        lemma2_to64();
        lemma_pow2_pos(1074);
    }
    if hundredfold < 0 {
        let w: u128 = whole_seconds((-hundredfold) as u64);
        if w >= 0x8000_0000_0000_0000 {
            i64::MIN
        } else {
            -(w as i64)
        }
    } else {
        let w: u128 = whole_seconds(hundredfold as u64);
        if w >= 0x8000_0000_0000_0000 {
            i64::MAX
        } else {
            w as i64
        }
    }
}

/// The whole seconds of a time, within what 64 bits hold; none of one that is not a number.
pub fn whole(t: Seconds) -> (r: u64)
    ensures
        r == whole_of(t),
{
    if t.bits > INFINITE_SECONDS {
        proof {
            lemma_pow2_pos(1074);
            if !t.is_nan() {
                let size = magnitude(LEAD_64 as nat, abs(t.rank()));
                lemma_div_pos_is_pos(size as int, second() as int);
            }
        }
        return 0;
    }
    let w: u128 = whole_seconds(t.bits);
    if w > 0xffff_ffff_ffff_ffff {
        u64::MAX
    } else {
        w as u64
    }
}

/// Where an envelope window begins.
pub fn window_start(window: usize) -> (r: Seconds)
    ensures
        r.starts_window(window as int),
{
    let rank: u64 = binary::rank_of(LEAD_64, window as u128, 1074);
    proof {
        lemma2_to64_rest();
        lemma2_to64();
        binary::excess_at_most(LEAD_64 as nat, window as nat, 11);
        lemma_pow2_pos(1074);
        assert(window * second() >= 0) by (nonlinear_arith)
            requires
                window >= 0,
                second() > 0,
        ;
    }
    assert(rank <= 1088 * LEAD_64) by (nonlinear_arith)
        requires
            rank <= (1074 + binary::excess(LEAD_64 as nat, window as nat) + 2) * LEAD_64,
            binary::excess(LEAD_64 as nat, window as nat) <= 11,
    ;
    let product: i128 = binary::times(LEAD_64, rank as i128, ENVELOPE_WINDOW_SECS);
    Seconds { bits: product as u64 }
}

/// Seconds of non-speech at the head of a recording with this envelope, or `None` when there is
/// none worth skipping.
pub fn speech_start_secs(levels: &[Level]) -> (r: Option<Seconds>)
    ensures
        r is None ==> forall|s: int| !#[trigger] speech_begins(values(levels@), s),
        r matches Some(t) ==> exists|s: int| #[trigger]
            speech_begins(values(levels@), s) && t.starts_window(s),
{
    match speech_start_window(levels) {
        Some(w) => {
            let t: Seconds = window_start(w);
            assert(speech_begins(values(levels@), w as int) && t.starts_window(w as int));
            Some(t)
        },
        None => None,
    }
}

/// A transcript of the whole recording keeps the transcriber's times: only the fraction of a
/// centisecond is dropped.
pub proof fn an_untrimmed_file_is_left_where_it_was(secs: Seconds)
    requires
        !secs.is_nan(),
    ensures
        shifted_centiseconds(secs, Seconds { bits: 0 }) == saturated(
            toward_zero(round(LEAD_64 as nat, 100 * secs.value()), second()),
        ),
{
    binary::values_need_no_rounding(LEAD_64 as nat, secs.rank());
}

/// Dropping the fraction keeps the order of values.
proof fn lemma_toward_zero_keeps_order(x: int, y: int, d: nat)
    requires
        d > 0,
        x <= y,
    ensures
        toward_zero(x, d) <= toward_zero(y, d),
{
    if x < 0 {
        lemma_div_pos_is_pos(-x, d as int);
        if y < 0 {
            lemma_div_is_ordered(-y, -x, d as int);
        } else {
            lemma_div_pos_is_pos(y, d as int);
        }
    } else {
        lemma_div_is_ordered(x, y, d as int);
    }
}

/// Shifting adds what was skipped: the more was skipped, the later in the recording a time is,
/// and a later time stays the later one.
pub proof fn shifting_keeps_order(a: Seconds, b: Seconds, skipped: Seconds, more: Seconds)
    requires
        !a.is_nan(),
        !b.is_nan(),
        !skipped.is_nan() && !skipped.is_infinite(),
        !more.is_nan() && !more.is_infinite(),
        a.value() <= b.value(),
        skipped.value() <= more.value(),
    ensures
        shifted_centiseconds(a, skipped) <= shifted_centiseconds(b, more),
{
    let lead = LEAD_64 as nat;
    let early = a.value() + skipped.value();
    let late = b.value() + more.value();
    binary::rounding_keeps_order(lead, early, late);
    binary::rounding_keeps_order(lead, 100 * round(lead, early), 100 * round(lead, late));
    lemma_pow2_pos(1074);
    lemma_toward_zero_keeps_order(
        round(lead, 100 * round(lead, early)),
        round(lead, 100 * round(lead, late)),
        second(),
    );
}

/// A whole number of seconds is a value of the format, as long as it has no more bits than a
/// significand.
proof fn lemma_whole_seconds_are_kept(n: int)
    requires
        abs(n) < 2 * LEAD_64,
    ensures
        round(LEAD_64 as nat, n * second()) == n * second(),
{
    binary::nearest_keeps_short(LEAD_64 as nat, abs(n), 1074);
    lemma_pow2_pos(1074);
    assert(n < 0 ==> n * second() < 0 && -(n * second()) == (-n) * second()) by (nonlinear_arith)
        requires
            second() > 0,
    ;
    assert(n >= 0 ==> n * second() >= 0) by (nonlinear_arith)
        requires
            second() > 0,
    ;
}

/// Whole seconds are shifted exactly.
pub proof fn whole_seconds_are_shifted_exactly(secs: Seconds, offset: Seconds, a: int, b: int)
    requires
        !secs.is_nan() && !secs.is_infinite(),
        !offset.is_nan() && !offset.is_infinite(),
        secs.value() == a * second(),
        offset.value() == b * second(),
        100 * abs(a + b) < 2 * LEAD_64,
    ensures
        shifted_centiseconds(secs, offset) == 100 * (a + b),
{
    let n = a + b;
    assert(a * second() + b * second() == n * second()) by (nonlinear_arith)
        requires
            n == a + b,
    ;
    lemma_whole_seconds_are_kept(n);
    assert(100 * (n * second()) == (100 * n) * second()) by (nonlinear_arith);
    lemma_whole_seconds_are_kept(100 * n);
    lemma_pow2_pos(1074);
    assert((100 * n) * second() == second() * (100 * n) && (-(100 * n)) * second() == -((100 * n)
        * second())) by (nonlinear_arith);
    lemma_div_multiples_vanish(100 * n, second() as int);
    lemma_div_multiples_vanish(-(100 * n), second() as int);
    assert(second() * (-(100 * n)) == -((100 * n) * second())) by (nonlinear_arith);
    assert(n < 0 <==> (100 * n) * second() < 0) by (nonlinear_arith)
        requires
            second() > 0,
    ;
}

/// An envelope window begins a whole number of window lengths into the recording.
pub proof fn windows_begin_on_whole_seconds(window: int)
    requires
        0 <= window,
        ENVELOPE_WINDOW_SECS * window < 2 * LEAD_64,
    ensures
        window_start_of(window) == ENVELOPE_WINDOW_SECS * window * second(),
{
    lemma_whole_seconds_are_kept(window);
    assert(ENVELOPE_WINDOW_SECS * (window * second()) == ENVELOPE_WINDOW_SECS * window * second())
        by (nonlinear_arith);
    lemma_whole_seconds_are_kept(ENVELOPE_WINDOW_SECS * window);
}

/// What the transcriber hears at the very start of a trimmed copy lies where speech begins in
/// the recording.
pub proof fn the_first_line_lands_where_speech_begins(skipped: Seconds, window: int)
    requires
        0 <= window,
        100 * (ENVELOPE_WINDOW_SECS * window) < 2 * LEAD_64,
        skipped.starts_window(window),
    ensures
        shifted_centiseconds(Seconds { bits: 0 }, skipped) == 100 * (ENVELOPE_WINDOW_SECS * window),
{
    windows_begin_on_whole_seconds(window);
    whole_seconds_are_shifted_exactly(
        Seconds { bits: 0 },
        skipped,
        0,
        ENVELOPE_WINDOW_SECS * window,
    );
}

/// What a bit pattern stands for: a sign, eleven bits of exponent and fifty-two of fraction.
pub proof fn the_value_of_a_time(t: Seconds, exponent: nat, fraction: nat)
    requires
        exponent == (t.bits / 0x10_0000_0000_0000) % 0x800,
        fraction == t.bits % 0x10_0000_0000_0000,
    ensures
        t.is_nan() <==> exponent == 0x7ff && fraction != 0,
        t.is_infinite() <==> exponent == 0x7ff && fraction == 0,
        abs(t.value()) == if exponent == 0 {
            fraction
        } else {
            (0x10_0000_0000_0000 + fraction) * pow2((exponent - 1) as nat)
        },
        t.bits < 0x8000_0000_0000_0000 ==> t.value() >= 0,
        t.bits >= 0x8000_0000_0000_0000 ==> t.value() <= 0,
{
    let size = t.bits % 0x8000_0000_0000_0000;
    assert(size / 0x10_0000_0000_0000 == exponent);
    assert(size % 0x10_0000_0000_0000 == fraction);
    assert(abs(t.rank()) == size);
}

/// A time in centiseconds is the largest whole number that does not lie beyond the hundredfold of
/// the sum, both rounded, seen from zero; or the last number that fits.
pub proof fn centiseconds_are_the_whole_part(
    secs: Seconds,
    offset: Seconds,
    sum: int,
    hundredfold: int,
    c: int,
)
    requires
        !secs.is_nan(),
        !offset.is_nan(),
        !(secs.is_infinite() && offset.is_infinite() && secs.bits != offset.bits),
        sum == round(0x10_0000_0000_0000, secs.value() + offset.value()),
        hundredfold == round(0x10_0000_0000_0000, 100 * sum),
        c == shifted_centiseconds(secs, offset),
    ensures
        i64::MIN <= c <= i64::MAX,
        hundredfold >= 0 ==> 0 <= c && c * pow2(1074) <= hundredfold,
        hundredfold >= 0 ==> c == i64::MAX || hundredfold < (c + 1) * pow2(1074),
        hundredfold <= 0 ==> c <= 0 && hundredfold <= c * pow2(1074),
        hundredfold <= 0 ==> c == i64::MIN || (c - 1) * pow2(1074) < hundredfold,
{
    let d = pow2(1074);
    let size = abs(hundredfold);
    let w = size as int / d as int;
    lemma_pow2_pos(1074);
    lemma_fundamental_div_mod(size as int, d as int);
    assert(w >= 0 && w * d <= size < (w + 1) * d) by (nonlinear_arith)
        requires
            size == d * w + size % d,
            0 <= size % d < d,
            d > 0,
            size >= 0,
    ;
    let m = abs(c);
    assert(m <= w);
    assert(m * d <= w * d) by (nonlinear_arith)
        requires
            m <= w,
            d > 0,
    ;
    assert((-(m as int)) * d == -(m * d) && (-(m as int) - 1) * d == -((m + 1) * d))
        by (nonlinear_arith);
}

/// Whatever is not a number, and opposite infinities, are put at the start.
pub proof fn no_number_is_put_at_the_start(secs: Seconds, offset: Seconds)
    requires
        secs.is_nan() || offset.is_nan() || (secs.is_infinite() && offset.is_infinite()
            && secs.bits != offset.bits),
    ensures
        shifted_centiseconds(secs, offset) == 0,
{
}

/// The whole seconds of a time are the largest whole number that does not exceed it, within what
/// fits.
pub proof fn whole_seconds_do_not_exceed_the_time(t: Seconds, w: int)
    requires
        w == whole_of(t),
    ensures
        0 <= w <= u64::MAX,
        t.is_nan() || t.value() < 0 ==> w == 0,
        !t.is_nan() && t.value() >= 0 ==> w * pow2(1074) <= t.value(),
        !t.is_nan() && t.value() >= 0 ==> w == u64::MAX || t.value() < (w + 1) * pow2(1074),
{
    let d = pow2(1074);
    lemma_pow2_pos(1074);
    if !t.is_nan() && t.value() >= 0 {
        let q = t.value() / (d as int);
        lemma_fundamental_div_mod(t.value(), d as int);
        assert(q >= 0 && q * d <= t.value() < (q + 1) * d) by (nonlinear_arith)
            requires
                t.value() == d * q + t.value() % (d as int),
                0 <= t.value() % (d as int) < d,
                d > 0,
                t.value() >= 0,
        ;
        assert(w * d <= q * d) by (nonlinear_arith)
            requires
                w <= q,
                d > 0,
        ;
    }
}

/// A window begins ten times its number of seconds into the recording, each product rounded.
pub proof fn windows_are_ten_seconds_apart(window: int)
    ensures
        window_start_of(window) == round(
            0x10_0000_0000_0000,
            10 * round(0x10_0000_0000_0000, window * pow2(1074)),
        ),
        0 <= window < 0x1_0000_0000_0000 ==> window_start_of(window) == 10 * window * pow2(1074),
{
    if 0 <= window < 0x1_0000_0000_0000 {
        windows_begin_on_whole_seconds(window);
        assert(ENVELOPE_WINDOW_SECS * window * second() == 10 * window * pow2(1074));
    }
}

/// A time that starts a window is a finite one, and has that window's value.
pub proof fn a_window_start_is_a_finite_time(t: Seconds, window: int)
    ensures
        t.starts_window(window) <==> t.bits < 0x7ff0_0000_0000_0000 && t.value()
            == window_start_of(window),
{
}

} // verus!
