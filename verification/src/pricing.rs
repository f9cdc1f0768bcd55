//! The LMSR pricing engine, in fixed-point integer arithmetic.
//!
//! The cost of a supply state `(yes, no)` is `B * ln(exp(yes/B) + exp(no/B))`.
//! It is computed in the numerically stable form
//! `max(yes, no) + B * ln(1 + exp(-|yes - no|/B))`: the exponential weight
//! `exp(-d/B)` lies in `[0, 1]` and is held at scale [`WSCALE`], as a product
//! of precomputed binary-exponent factors; the logarithm term lies in
//! `[0, B ln 2]` and is extracted digit by digit in base two.  Every function
//! returns exactly the value its spec-level mirror defines, so trades,
//! refunds and the buying-power inverse are reproducible integer values.

use vstd::prelude::*;

use vstd::arithmetic::div_mod::{
    lemma_div_by_multiple, lemma_div_denominator, lemma_div_is_ordered,
    lemma_div_is_ordered_by_denominator, lemma_div_pos_is_pos, lemma_fundamental_div_mod,
    lemma_mod_division_less_than_divisor,
};
use vstd::arithmetic::mul::{lemma_mul_inequality, lemma_mul_is_commutative, lemma_mul_upper_bound};
use vstd::arithmetic::power2::{lemma2_to64, lemma_pow2_adds, lemma_pow2_pos, pow2};

use crate::fixed::{BLN2_UNITS, EPS_UNITS, MAX_SHARES, SCALE};
use crate::types::{Market, MarketStatus, Share};

verus! {

/// Scale of the exponential weights: 10^18.
pub const WSCALE: u64 = 1_000_000_000_000_000_000;

/// Exponent arguments at or past 2^29 units have weight zero at `WSCALE`.
pub const EXP_CUT: u64 = 536_870_912;

/// Scale of the extracted logarithm fraction: 2^32, one part per binary
/// digit the extraction produces.
pub const LN_BITS: u64 = 4_294_967_296;

/// `exp(-2^k / B)` at scale `WSCALE`, for each binary digit of the exponent.
pub open spec fn cval(k: nat) -> int {
    if k == 0 {
        999_999_900_000_005_000
    } else if k == 1 {
        999_999_800_000_020_000
    } else if k == 2 {
        999_999_600_000_080_000
    } else if k == 3 {
        999_999_200_000_320_000
    } else if k == 4 {
        999_998_400_001_279_999
    } else if k == 5 {
        999_996_800_005_119_995
    } else if k == 6 {
        999_993_600_020_479_956
    } else if k == 7 {
        999_987_200_081_919_650
    } else if k == 8 {
        999_974_400_327_677_204
    } else if k == 9 {
        999_948_801_310_697_631
    } else if k == 10 {
        999_897_605_242_701_048
    } else if k == 11 {
        999_795_220_970_088_418
    } else if k == 12 {
        999_590_483_874_627_927
    } else if k == 13 {
        999_181_135_452_712_793
    } else if k == 14 {
        998_362_941_444_572_390
    } else if k == 15 {
        996_728_562_849_858_678
    } else if k == 16 {
        993_467_828_000_744_681
    } else if k == 17 {
        986_978_325_272_517_218
    } else if k == 18 {
        974_126_214_557_742_800
    } else if k == 19 {
        948_921_881_888_597_560
    } else if k == 20 {
        900_452_737_926_997_497
    } else if k == 21 {
        810_815_133_240_226_037
    } else if k == 22 {
        657_421_180_291_365_502
    } else if k == 23 {
        432_202_608_295_692_104
    } else if k == 24 {
        186_799_094_617_599_461
    } else if k == 25 {
        34_893_901_749_954_876
    } else if k == 26 {
        1_217_584_379_335_504
    } else if k == 27 {
        1_482_511_720_802
    } else if k == 28 {
        2_197_841
    } else {
        0
    }
}

fn cval_exec(k: usize) -> (r: u64)
    requires
        k < 29,
    ensures
        r == cval(k as nat),
{
    match k {
        0 => 999_999_900_000_005_000,
        1 => 999_999_800_000_020_000,
        2 => 999_999_600_000_080_000,
        3 => 999_999_200_000_320_000,
        4 => 999_998_400_001_279_999,
        5 => 999_996_800_005_119_995,
        6 => 999_993_600_020_479_956,
        7 => 999_987_200_081_919_650,
        8 => 999_974_400_327_677_204,
        9 => 999_948_801_310_697_631,
        10 => 999_897_605_242_701_048,
        11 => 999_795_220_970_088_418,
        12 => 999_590_483_874_627_927,
        13 => 999_181_135_452_712_793,
        14 => 998_362_941_444_572_390,
        15 => 996_728_562_849_858_678,
        16 => 993_467_828_000_744_681,
        17 => 986_978_325_272_517_218,
        18 => 974_126_214_557_742_800,
        19 => 948_921_881_888_597_560,
        20 => 900_452_737_926_997_497,
        21 => 810_815_133_240_226_037,
        22 => 657_421_180_291_365_502,
        23 => 432_202_608_295_692_104,
        24 => 186_799_094_617_599_461,
        25 => 34_893_901_749_954_876,
        26 => 1_217_584_379_335_504,
        27 => 1_482_511_720_802,
        28 => 2_197_841,
        _ => 0,
    }
}

proof fn lemma_cval_bounds(k: nat)
    requires
        k < 29,
    ensures
        0 < cval(k) <= WSCALE,
{
}

/// The weight accumulator after folding in the low `k` binary digits of `d`.
pub open spec fn en_acc(d: int, k: nat) -> int
    decreases k,
{
    if k == 0 {
        WSCALE as int
    } else {
        let prev = en_acc(d, (k - 1) as nat);
        if (d / pow2((k - 1) as nat) as int) % 2 == 1 {
            prev * cval((k - 1) as nat) / (WSCALE as int)
        } else {
            prev
        }
    }
}

/// `exp(-d / B)` at scale `WSCALE`, as the engine computes it.
pub open spec fn expneg_spec(d: int) -> int {
    if d >= EXP_CUT {
        0
    } else {
        en_acc(d, 29)
    }
}

pub proof fn lemma_en_acc_bounds(d: int, k: nat)
    requires
        k <= 29,
    ensures
        0 <= en_acc(d, k) <= WSCALE,
    decreases k,
{
    if k > 0 {
        lemma_en_acc_bounds(d, (k - 1) as nat);
        let prev = en_acc(d, (k - 1) as nat);
        if (d / pow2((k - 1) as nat) as int) % 2 == 1 {
            lemma_cval_bounds((k - 1) as nat);
            let c = cval((k - 1) as nat);
            lemma_mul_inequality(c, WSCALE as int, prev);
            lemma_mul_is_commutative(c, prev);
            lemma_mul_is_commutative(WSCALE as int, prev);
            lemma_div_is_ordered(prev * c, prev * (WSCALE as int), WSCALE as int);
            lemma_div_by_multiple(prev, WSCALE as int);
            vstd::arithmetic::mul::lemma_mul_nonnegative(prev, c);
            lemma_div_pos_is_pos(prev * c, WSCALE as int);
        }
    }
}

proof fn lemma_en_acc_zero(k: nat)
    ensures
        en_acc(0, k) == WSCALE,
    decreases k,
{
    if k > 0 {
        lemma_en_acc_zero((k - 1) as nat);
        lemma_pow2_pos((k - 1) as nat);
        assert(0int / (pow2((k - 1) as nat) as int) == 0);
    }
}

/// A zero exponent has the full weight: `exp(0) == 1`.
pub proof fn lemma_expneg_zero()
    ensures
        expneg_spec(0) == WSCALE,
{
    lemma_en_acc_zero(29);
}

pub proof fn lemma_expneg_bounds(d: int)
    ensures
        0 <= expneg_spec(d) <= WSCALE,
{
    if d < EXP_CUT {
        lemma_en_acc_bounds(d, 29);
    }
}

/// The exponential weight `exp(-d / B)` at scale `WSCALE`.
pub fn expneg(d: u64) -> (r: u64)
    ensures
        r == expneg_spec(d as int),
        r <= WSCALE,
{
    if d >= EXP_CUT {
        return 0;
    }
    let mut acc: u128 = WSCALE as u128;
    let mut rem: u64 = d;
    let mut k: usize = 0;
    proof {
        lemma2_to64();
        vstd::arithmetic::power2::lemma_pow2(0);
    }
    while k < 29
        invariant
            k <= 29,
            acc == en_acc(d as int, k as nat),
            acc <= WSCALE,
            rem == d as int / pow2(k as nat) as int,
        decreases 29 - k,
    {
        proof {
            lemma_pow2_pos(k as nat);
        }
        if rem % 2 == 1 {
            let c = cval_exec(k);
            proof {
                lemma_cval_bounds(k as nat);
                lemma_mul_upper_bound(acc as int, WSCALE as int, c as int, WSCALE as int);
                lemma_mul_inequality(c as int, WSCALE as int, acc as int);
                lemma_mul_is_commutative(c as int, acc as int);
                lemma_mul_is_commutative(WSCALE as int, acc as int);
                lemma_div_is_ordered(
                    acc as int * c as int,
                    acc as int * WSCALE as int,
                    WSCALE as int,
                );
                lemma_div_by_multiple(acc as int, WSCALE as int);
            }
            acc = acc * (c as u128) / (WSCALE as u128);
        }
        proof {
            lemma2_to64();
            lemma_pow2_adds(k as nat, 1);
            lemma_pow2_pos(k as nat);
            lemma_div_denominator(d as int, pow2(k as nat) as int, 2);
        }
        rem = rem / 2;
        k = k + 1;
    }
    acc as u64
}

/// One squaring step per binary digit: the pair is the running mantissa in
/// `[WSCALE, 2 * WSCALE)` and the digits extracted so far.
pub open spec fn ln_iter(t0: int, n: nat) -> (int, int)
    decreases n,
{
    if n == 0 {
        (t0, 0)
    } else {
        let prev = ln_iter(t0, (n - 1) as nat);
        let tsq = prev.0 * prev.0 / (WSCALE as int);
        if tsq >= 2 * WSCALE {
            (tsq / 2, 2 * prev.1 + 1)
        } else {
            (tsq, 2 * prev.1)
        }
    }
}

/// `B * ln(1 + w / WSCALE)` in units, as the engine computes it: thirty-two
/// binary digits of `log2(1 + w / WSCALE)`, scaled by `B * ln 2`.
pub open spec fn lnb1p_spec(w: int) -> int {
    if w >= WSCALE {
        BLN2_UNITS as int
    } else {
        BLN2_UNITS * ln_iter(WSCALE + w, 32).1 / (LN_BITS as int)
    }
}

proof fn lemma_ln_iter_bits(t0: int, n: nat)
    ensures
        0 <= ln_iter(t0, n).1 < pow2(n),
    decreases n,
{
    lemma_pow2_pos(n);
    if n > 0 {
        lemma_ln_iter_bits(t0, (n - 1) as nat);
        lemma_pow2_adds((n - 1) as nat, 1);
        lemma2_to64();
    }
}

pub proof fn lemma_lnb1p_bounds(w: int)
    ensures
        0 <= lnb1p_spec(w) <= BLN2_UNITS,
{
    if w < WSCALE {
        lemma_ln_iter_bits(WSCALE + w, 32);
        let bits = ln_iter(WSCALE + w, 32).1;
        lemma2_to64();
        assert(pow2(32) == LN_BITS);
        vstd::arithmetic::mul::lemma_mul_nonnegative(BLN2_UNITS as int, bits);
        lemma_div_pos_is_pos(BLN2_UNITS * bits, LN_BITS as int);
        lemma_mul_inequality(bits, LN_BITS as int, BLN2_UNITS as int);
        lemma_mul_is_commutative(bits, BLN2_UNITS as int);
        lemma_mul_is_commutative(LN_BITS as int, BLN2_UNITS as int);
        lemma_div_is_ordered(
            BLN2_UNITS * bits,
            (BLN2_UNITS as int) * (LN_BITS as int),
            LN_BITS as int,
        );
        lemma_div_by_multiple(BLN2_UNITS as int, LN_BITS as int);
    }
}

/// The curvature term `B * ln(1 + w / WSCALE)` in units, for a weight
/// `w <= WSCALE`.
pub fn lnb1p(w: u64) -> (r: u64)
    requires
        w <= WSCALE,
    ensures
        r == lnb1p_spec(w as int),
        r <= BLN2_UNITS,
{
    if w == WSCALE {
        return BLN2_UNITS;
    }
    let mut t: u128 = (WSCALE as u128) + (w as u128);
    let mut bits: u64 = 0;
    let mut i: usize = 0;
    proof {
        lemma2_to64();
        vstd::arithmetic::power2::lemma_pow2(0);
    }
    while i < 32
        invariant
            i <= 32,
            WSCALE <= t < 2 * WSCALE,
            t == ln_iter((WSCALE + w) as int, i as nat).0,
            bits == ln_iter((WSCALE + w) as int, i as nat).1,
            bits < pow2(i as nat),
        decreases 32 - i,
    {
        proof {
            let ti = t as int;
            let ws = WSCALE as int;
            assert(ws * ws <= ti * ti && ti * ti < ws * (4 * ws) && ti * ti <= (2 * ws) * (2
                * ws)) by (nonlinear_arith)
                requires
                    ws <= ti,
                    ti < 2 * ws,
                    ws > 2,
            ;
            lemma_div_is_ordered(ws * ws, ti * ti, ws);
            lemma_div_by_multiple(ws, ws);
            vstd::arithmetic::div_mod::lemma_multiply_divide_lt(ti * ti, ws, 4 * ws);
            lemma_pow2_adds(i as nat, 1);
            lemma2_to64();
            if (i as nat) < 31 {
                vstd::arithmetic::power2::lemma_pow2_strictly_increases(i as nat, 31);
            }
        }
        t = t * t / (WSCALE as u128);
        if t >= 2 * (WSCALE as u128) {
            proof {
                let ws = WSCALE as int;
                lemma_div_is_ordered(2 * ws, t as int, 2);
                lemma_div_by_multiple(ws, 2);
                vstd::arithmetic::div_mod::lemma_multiply_divide_lt(t as int, 2, 2 * ws);
            }
            t = t / 2;
            bits = bits * 2 + 1;
        } else {
            bits = bits * 2;
        }
        i = i + 1;
    }
    proof {
        lemma2_to64();
        assert(pow2(32) == LN_BITS);
        lemma_mul_upper_bound(BLN2_UNITS as int, BLN2_UNITS as int, bits as int, LN_BITS as int);
        lemma_mul_inequality(bits as int, LN_BITS as int, BLN2_UNITS as int);
        lemma_mul_is_commutative(bits as int, BLN2_UNITS as int);
        lemma_mul_is_commutative(LN_BITS as int, BLN2_UNITS as int);
        lemma_div_is_ordered(
            (BLN2_UNITS as int) * (bits as int),
            (BLN2_UNITS as int) * (LN_BITS as int),
            LN_BITS as int,
        );
        lemma_div_by_multiple(BLN2_UNITS as int, LN_BITS as int);
    }
    (BLN2_UNITS * bits) / LN_BITS
}

/// The LMSR cost of a supply state, in units:
/// `B * ln(exp(yes/B) + exp(no/B))`, computed stably as
/// `max(yes, no) + B * ln(1 + exp(-|yes - no|/B))`.
pub open spec fn cost_spec(yes: int, no: int) -> int {
    let hi = if yes >= no { yes } else { no };
    let lo = if yes >= no { no } else { yes };
    hi + lnb1p_spec(expneg_spec(hi - lo))
}

pub proof fn lemma_cost_bounds(yes: int, no: int)
    ensures
        (if yes >= no { yes } else { no }) <= cost_spec(yes, no),
        cost_spec(yes, no) <= (if yes >= no { yes } else { no }) + BLN2_UNITS,
{
    let hi = if yes >= no { yes } else { no };
    let lo = if yes >= no { no } else { yes };
    lemma_lnb1p_bounds(expneg_spec(hi - lo));
}

/// The LMSR cost of a supply state.
pub fn cost(yes_shares: u64, no_shares: u64) -> (r: u64)
    requires
        yes_shares <= MAX_SHARES,
        no_shares <= MAX_SHARES,
    ensures
        r == cost_spec(yes_shares as int, no_shares as int),
        (if yes_shares >= no_shares { yes_shares } else { no_shares }) <= r,
        r <= (if yes_shares >= no_shares { yes_shares } else { no_shares }) + BLN2_UNITS,
{
    let hi: u64;
    let lo: u64;
    if yes_shares >= no_shares {
        hi = yes_shares;
        lo = no_shares;
    } else {
        hi = no_shares;
        lo = yes_shares;
    }
    let w = expneg(hi - lo);
    let f = lnb1p(w);
    hi + f
}

/// Marginal cost of moving `share`'s supply by `amount` (a negative amount
/// models a sell), in units: `cost(after) - cost(before)`.
pub open spec fn trade_cost_spec(market: Market, share: Share, amount: int) -> int {
    let yes2 = if share == Share::Yes {
        market.yes_shares + amount
    } else {
        market.yes_shares as int
    };
    let no2 = if share == Share::No {
        market.no_shares + amount
    } else {
        market.no_shares as int
    };
    cost_spec(yes2, no2) - cost_spec(market.yes_shares as int, market.no_shares as int)
}

/// Marginal cost of a hypothetical trade of `amount` on `share`.
pub fn trade_cost(market: &Market, share: Share, amount: i64) -> (r: i64)
    requires
        market.valid(),
        0 <= market.supply(share) + amount,
        market.supply(share) + amount <= MAX_SHARES,
    ensures
        r == trade_cost_spec(*market, share, amount as int),
        amount >= 0 ==> -(BLN2_UNITS as int) <= r <= amount + BLN2_UNITS,
        amount < 0 ==> amount - BLN2_UNITS <= r <= BLN2_UNITS,
{
    let before = cost(market.yes_shares, market.no_shares);
    let yes2: u64;
    let no2: u64;
    match share {
        Share::Yes => {
            yes2 = if amount >= 0 {
                market.yes_shares + (amount as u64)
            } else {
                market.yes_shares - ((-amount) as u64)
            };
            no2 = market.no_shares;
        },
        Share::No => {
            yes2 = market.yes_shares;
            no2 = if amount >= 0 {
                market.no_shares + (amount as u64)
            } else {
                market.no_shares - ((-amount) as u64)
            };
        },
    }
    let after = cost(yes2, no2);
    ((after as i128) - (before as i128)) as i64
}

/// Instantaneous price of the yes side, in units of `SCALE` per share:
/// `wy / (wy + wn)` with both weights relative to the leading side.
pub open spec fn yes_price_spec(yes: int, no: int) -> int {
    if yes >= no {
        WSCALE * SCALE / (WSCALE + expneg_spec(yes - no))
    } else {
        expneg_spec(no - yes) * SCALE / (WSCALE + expneg_spec(no - yes))
    }
}

/// Instantaneous price of the no side: the yes price of the mirrored state.
pub open spec fn no_price_spec(yes: int, no: int) -> int {
    yes_price_spec(no, yes)
}

/// Splitting `s` pro rata by the weights `a` and `b` with floor division
/// loses less than one unit in total.
proof fn lemma_floor_pair(a: int, b: int, s: int)
    requires
        a > 0,
        b >= 0,
        s > 0,
    ensures
        s - 1 <= a * s / (a + b) + b * s / (a + b) <= s,
{
    let t = a + b;
    lemma_fundamental_div_mod(a * s, t);
    lemma_fundamental_div_mod(b * s, t);
    lemma_mod_division_less_than_divisor(a * s, t);
    lemma_mod_division_less_than_divisor(b * s, t);
    let q1 = a * s / t;
    let r1 = (a * s) % t;
    let q2 = b * s / t;
    let r2 = (b * s) % t;
    let k = s - q1 - q2;
    assert(t * k == r1 + r2) by (nonlinear_arith)
        requires
            a * s == t * q1 + r1,
            b * s == t * q2 + r2,
            k == s - q1 - q2,
            t == a + b,
    ;
    assert(0 <= k && k < 2) by (nonlinear_arith)
        requires
            t * k == r1 + r2,
            0 <= r1 < t,
            0 <= r2 < t,
            t > 0,
    ;
}

/// The two instantaneous prices sum to one token per share, up to the one
/// unit the floor division may withhold.
pub proof fn lemma_price_sum(yes: int, no: int)
    ensures
        SCALE - 1 <= yes_price_spec(yes, no) + no_price_spec(yes, no) <= SCALE,
        0 <= yes_price_spec(yes, no) <= SCALE,
        0 <= no_price_spec(yes, no) <= SCALE,
{
    let d = if yes >= no { yes - no } else { no - yes };
    let w = expneg_spec(d);
    lemma_expneg_bounds(d);
    lemma_floor_pair(WSCALE as int, w, SCALE as int);
    lemma_div_pos_is_pos(WSCALE * SCALE, WSCALE + w);
    lemma_div_pos_is_pos(w * (SCALE as int), WSCALE + w);
    if yes >= no {
        assert(yes_price_spec(yes, no) == WSCALE * SCALE / (WSCALE + w));
        if no >= yes {
            // tie: both sides read the same quotient and the weight is full
            lemma_expneg_zero();
            assert(no_price_spec(yes, no) == WSCALE * SCALE / (WSCALE + w));
            lemma_floor_tie(WSCALE as int, SCALE as int);
        } else {
            assert(no_price_spec(yes, no) == w * SCALE / (WSCALE + w));
        }
    } else {
        assert(yes_price_spec(yes, no) == w * SCALE / (WSCALE + w));
        assert(no_price_spec(yes, no) == WSCALE * SCALE / (WSCALE + w));
    }
}

/// At a tied supply both prices are exactly half a token.
proof fn lemma_floor_tie(a: int, s: int)
    requires
        a > 0,
        s > 0,
        s % 2 == 0,
    ensures
        a * s / (a + a) == s / 2,
{
    assert(a * s == (a + a) * (s / 2)) by (nonlinear_arith)
        requires
            s % 2 == 0,
    ;
    lemma_div_by_multiple(s / 2, a + a);
    vstd::arithmetic::mul::lemma_mul_is_commutative(a + a, s / 2);
}

/// A market snapshot with both instantaneous prices.
pub fn market_status(market: Market) -> (r: MarketStatus)
    requires
        market.valid(),
    ensures
        r.market == market,
        r.yes_price == yes_price_spec(market.yes_shares as int, market.no_shares as int),
        r.no_price == no_price_spec(market.yes_shares as int, market.no_shares as int),
        SCALE - 1 <= r.yes_price + r.no_price <= SCALE,
{
    let yes = market.yes_shares;
    let no = market.no_shares;
    let hi_is_yes = yes >= no;
    let d = if hi_is_yes { yes - no } else { no - yes };
    let w = expneg(d);
    let total: u128 = (WSCALE as u128) + (w as u128);
    proof {
        lemma_price_sum(yes as int, no as int);
        if yes == no {
            lemma_expneg_zero();
        }
        let ws = WSCALE as int;
        let s = SCALE as int;
        let t = ws + w;
        lemma_div_is_ordered_by_denominator(ws * s, ws, t);
        lemma_div_by_multiple(s, ws);
        lemma_mul_is_commutative(ws, s);
        lemma_mul_inequality(w as int, ws, s);
        lemma_mul_is_commutative(w as int, s);
        lemma_div_is_ordered(w * s, ws * s, t);
        vstd::arithmetic::mul::lemma_mul_nonnegative(w as int, s);
        lemma_div_pos_is_pos(w * s, t);
        lemma_div_pos_is_pos(ws * s, t);
    }
    let hp = ((WSCALE as u128) * (SCALE as u128) / total) as u64;
    let lp = ((w as u128) * (SCALE as u128) / total) as u64;
    if hi_is_yes {
        MarketStatus { market, yes_price: hp, no_price: lp }
    } else {
        MarketStatus { market, yes_price: lp, no_price: hp }
    }
}

/// The greatest amount purchasable on `share` with a budget of `tokens`:
/// the unique bracket point `r` with
/// `trade_cost(r) <= tokens < trade_cost(r + 1)`, found by bisection on the
/// cost curve itself, so spending the result can never overdraw the budget.
pub fn buying_power_(market: &Market, share: Share, tokens: u64) -> (r: u64)
    requires
        market.valid(),
        tokens > EPS_UNITS,
        market.yes_shares + market.no_shares + tokens + BLN2_UNITS + 1 <= MAX_SHARES,
    ensures
        trade_cost_spec(*market, share, r as int) <= tokens,
        trade_cost_spec(*market, share, r + 1) > tokens,
        market.supply(share) + r + 1 <= MAX_SHARES,
{
    let mine = match share {
        Share::Yes => market.yes_shares,
        Share::No => market.no_shares,
    };
    let other = match share {
        Share::Yes => market.no_shares,
        Share::No => market.yes_shares,
    };
    let gap = if other > mine { other - mine } else { 0 };
    let mut lo: u64 = 0;
    let mut hi: u64 = gap + tokens + BLN2_UNITS + 1;
    proof {
        let y = market.yes_shares as int;
        let n = market.no_shares as int;
        lemma_cost_bounds(y, n);
        match share {
            Share::Yes => {
                lemma_cost_bounds(y + hi, n);
                lemma_cost_bounds(y, n);
            },
            Share::No => {
                lemma_cost_bounds(y, n + hi);
            },
        }
    }
    while lo + 1 < hi
        invariant
            market.valid(),
            lo < hi,
            tokens <= MAX_SHARES,
            market.supply(share) + hi <= MAX_SHARES,
            trade_cost_spec(*market, share, lo as int) <= tokens,
            trade_cost_spec(*market, share, hi as int) > tokens,
        decreases hi - lo,
    {
        let mid = lo + (hi - lo) / 2;
        let c = trade_cost(market, share, mid as i64);
        if c <= tokens as i64 {
            lo = mid;
        } else {
            hi = mid;
        }
    }
    lo
}

} // verus!
