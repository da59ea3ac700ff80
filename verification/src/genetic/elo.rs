//! The rating of a match: an Elo update on the scale of two games.
//!
//! The expected score has a real exponent, `10^(d/400)`. Nothing here
//! computes that number: whether `a * 10^(d/400)` lies below `b` is decided
//! exactly, by raising both sides to the power of 400.

use super::limbs::{
    lemma_power_adds, lemma_power_below_tens, lemma_power_grows, lemma_power_grows_strictly,
    lemma_power_keeps_order, lemma_power_of_power, lemma_power_of_product, lemma_power_positive,
    limbs_value, one, order, order_of, power, times_power,
};
use vstd::prelude::*;

verus! {

/// The rating that every slot starts a generation with.
pub const ELO_START: i16 = 1000;

/// The rating points that a match is played for.
pub const ELO_ADJUSTMENT: i16 = 30;

/// The order of `a * 10^(d/400)` and `b`, for `a` and `b` that are not
/// negative: -1 where the first is the smaller, 0 where they are equal, 1
/// where it is the greater. Both are raised to the power of 400, which
/// keeps their order and makes them whole. Smaller powers do where the
/// gap and 400 have a common divisor: see [`lemma_scaled_order_reduced`].
pub open spec fn scaled_order(d: int, a: int, b: int) -> int {
    if d >= 0 {
        order_of(power(10, d as nat) * power(a, 400), power(b, 400))
    } else {
        order_of(power(a, 400), power(b, 400) * power(10, (-d) as nat))
    }
}

/// Whether `m * (1 + 10^(d/400)) <= total`, that is, whether `m` is at
/// most `total / (1 + 10^(d/400))`.
pub open spec fn share_fits(d: int, total: int, m: int) -> bool {
    scaled_order(d, m, total - m) <= 0
}

/// The largest whole number up to `m` that is at most
/// `total / (1 + 10^(d/400))`.
pub open spec fn share_floor_upto(d: int, total: int, m: int) -> int
    decreases m,
{
    if m <= 0 {
        0
    } else if share_fits(d, total, m) {
        m
    } else {
        share_floor_upto(d, total, m - 1)
    }
}

/// `total / (1 + 10^(d/400))`, rounded down.
pub open spec fn share_floor(d: int, total: int) -> int {
    share_floor_upto(d, total, total)
}

/// `total / (1 + 10^(d/400))`, rounded up.
pub open spec fn share_ceil(d: int, total: int) -> int {
    let below = share_floor(d, total);
    if scaled_order(d, below, total - below) == 0 {
        below
    } else {
        below + 1
    }
}

/// The points that A gains and B loses by a match in which A won `wins`
/// games: `factor * (wins - 2 / (1 + 10^((rating_b - rating_a) / 400)))`,
/// rounded towards zero. The product of the factor and the expected score
/// is `2 * factor / (1 + 10^(d/400))`; what is left after taking it from
/// `factor * wins` is rounded down where it is positive and up where it
/// is negative. [`lemma_share_between`] gives the rounded share from the
/// two whole numbers around it.
pub open spec fn elo_adjustment(rating_a: int, rating_b: int, wins: int, factor: int) -> int {
    let d = rating_b - rating_a;
    let won = factor * wins;
    if factor >= 0 {
        if share_ceil(d, 2 * factor) <= won {
            won - share_ceil(d, 2 * factor)
        } else {
            won - share_floor(d, 2 * factor)
        }
    } else {
        if share_floor(d, -2 * factor) >= -won {
            won + share_floor(d, -2 * factor)
        } else {
            won + share_ceil(d, -2 * factor)
        }
    }
}

/// Whether a rating fits the rating type.
pub open spec fn is_rating(r: int) -> bool {
    i16::MIN <= r <= i16::MAX
}

/// The ratings after a match between the slots `a` and `b`: A gains the
/// adjustment and B loses it. Where the two are one slot, or a new rating
/// would not fit, the ratings stay as they are.
pub open spec fn ratings_after(elos: Seq<i16>, a: int, b: int, wins: int, factor: int) -> Seq<i16> {
    let delta = elo_adjustment(elos[a] as int, elos[b] as int, wins, factor);
    if a != b && is_rating(elos[a] + delta) && is_rating(elos[b] - delta) {
        elos.update(a, (elos[a] + delta) as i16).update(b, (elos[b] - delta) as i16)
    } else {
        elos
    }
}

/// The points that slot `i` gained from `before` to `after`.
pub open spec fn rating_change(before: Seq<i16>, after: Seq<i16>, i: int) -> int {
    after[i] - before[i]
}

/// Nothing fits every share.
pub proof fn lemma_nothing_fits(d: int, total: int)
    requires
        0 <= total,
    ensures
        share_fits(d, total, 0),
{
    lemma_power_grows(0, total, 400);
    assert(power(0, 400) == 0 * power(0, 399));
    if d >= 0 {
        let p = power(10, d as nat);
        assert(p * 0 == 0) by (nonlinear_arith);
    } else {
        lemma_power_positive(10, 0, (-d) as nat);
        let p = power(10, (-d) as nat);
        let q = power(total, 400);
        assert(0 <= q * p) by (nonlinear_arith)
            requires
                0 <= q,
                1 <= p,
        ;
    }
}

/// Where `a * 10^(d/400)` is above `b`, it stays above with more on the
/// left and less on the right.
pub proof fn lemma_scaled_order_grows(d: int, a: int, b: int, more: int, less: int)
    requires
        0 <= a <= more,
        0 <= less <= b,
        scaled_order(d, a, b) > 0,
    ensures
        scaled_order(d, more, less) > 0,
{
    lemma_power_grows(a, more, 400);
    lemma_power_grows(less, b, 400);
    let pa = power(a, 400);
    let pm = power(more, 400);
    let pb = power(b, 400);
    let pl = power(less, 400);
    if d >= 0 {
        lemma_power_positive(10, 0, d as nat);
        let p = power(10, d as nat);
        assert(p * pm > pl) by (nonlinear_arith)
            requires
                1 <= p,
                0 <= pa <= pm,
                0 <= pl <= pb,
                p * pa > pb,
        ;
    } else {
        lemma_power_positive(10, 0, (-d) as nat);
        let p = power(10, (-d) as nat);
        assert(pm > pl * p) by (nonlinear_arith)
            requires
                1 <= p,
                0 <= pa <= pm,
                0 <= pl <= pb,
                pa > pb * p,
        ;
    }
}

/// A number that fits, with none above it up to `top` that fits, is the
/// largest up to `top` that fits.
pub proof fn lemma_share_floor(d: int, total: int, m: int, top: int)
    requires
        0 <= m <= top,
        share_fits(d, total, m),
        forall|j: int| m < j <= top ==> !#[trigger] share_fits(d, total, j),
    ensures
        share_floor_upto(d, total, top) == m,
    decreases top - m,
{
    if top > m {
        assert(!share_fits(d, total, top));
        lemma_share_floor(d, total, m, top - 1);
    }
}

/// Where the gap and 400 have a common divisor `r`, smaller powers give
/// the same order: with `d = p * r` and `400 = q * r`, that of
/// `10^p * a^q` and `b^q`; for a negative gap, with `-d = p * r`, that of
/// `a^q` and `b^q * 10^p`.
pub proof fn lemma_scaled_order_reduced(d: int, a: int, b: int, p: nat, q: nat, r: nat)
    requires
        0 <= a,
        0 <= b,
        q * r == 400,
        d >= 0 ==> p * r == d,
        d < 0 ==> p * r == -d,
    ensures
        scaled_order(d, a, b) == if d >= 0 {
            order_of(power(10, p) * power(a, q), power(b, q))
        } else {
            order_of(power(a, q), power(b, q) * power(10, p))
        },
{
    assert(r > 0 && q > 0) by (nonlinear_arith)
        requires
            q * r == 400,
    ;
    let tens = power(10, p);
    let left = power(a, q);
    let right = power(b, q);
    lemma_power_positive(10, 0, p);
    lemma_power_grows(0, a, q);
    lemma_power_grows(0, b, q);
    lemma_power_of_power(10, p, r);
    lemma_power_of_power(a, q, r);
    lemma_power_of_power(b, q, r);
    if d >= 0 {
        lemma_power_of_product(tens, left, r);
        assert(0 <= tens * left) by (nonlinear_arith)
            requires
                1 <= tens,
                0 <= left,
        ;
        lemma_power_keeps_order(tens * left, right, r);
    } else {
        lemma_power_of_product(right, tens, r);
        assert(0 <= right * tens) by (nonlinear_arith)
            requires
                1 <= tens,
                0 <= right,
        ;
        lemma_power_keeps_order(left, right * tens, r);
    }
}

/// A number that fits, while the next does not, is the share rounded
/// down; rounded up the share is the same where it is whole, and one more
/// where it is not.
pub proof fn lemma_share_between(d: int, total: int, m: int)
    requires
        0 <= m <= total,
        share_fits(d, total, m),
        m < total ==> !share_fits(d, total, m + 1),
    ensures
        share_floor(d, total) == m,
        share_ceil(d, total) == if scaled_order(d, m, total - m) == 0 {
            m
        } else {
            m + 1
        },
{
    assert forall|j: int| m < j <= total implies !#[trigger] share_fits(d, total, j) by {
        lemma_scaled_order_grows(d, m + 1, total - (m + 1), j, total - j);
    }
    lemma_share_floor(d, total, m, total);
}

/// The largest number up to `top` that fits is at least every number up
/// to `top` that fits, it fits itself, and it lies between 0 and `top`.
pub proof fn lemma_share_floor_upto(d: int, total: int, m: int, top: int)
    requires
        0 <= m <= top <= total,
        share_fits(d, total, m),
    ensures
        m <= share_floor_upto(d, total, top) <= top,
        share_fits(d, total, share_floor_upto(d, total, top)),
    decreases top,
{
    if top > 0 && !share_fits(d, total, top) {
        lemma_share_floor_upto(d, total, m, top - 1);
    }
}

/// The share rounded down and rounded up lie between nothing and all, at
/// most one apart, and the share lies between them.
pub proof fn lemma_share_range(d: int, total: int)
    requires
        0 <= total,
    ensures
        0 <= share_floor(d, total) <= share_ceil(d, total) <= total,
        share_ceil(d, total) <= share_floor(d, total) + 1,
        share_fits(d, total, share_floor(d, total)),
        scaled_order(d, share_ceil(d, total), total - share_ceil(d, total)) >= 0,
{
    lemma_nothing_fits(d, total);
    lemma_share_floor_upto(d, total, 0, total);
    let below = share_floor(d, total);
    if below == total && total > 0 {
        lemma_all_is_too_much(d, total);
    }
    if scaled_order(d, below, total - below) != 0 {
        if below + 1 <= total && share_fits(d, total, below + 1) {
            lemma_share_floor_upto(d, total, below + 1, total);
        }
    }
}

/// All of a positive total is more than the share.
pub proof fn lemma_all_is_too_much(d: int, total: int)
    requires
        0 < total,
    ensures
        scaled_order(d, total, 0) > 0,
{
    assert(power(0, 400) == 0 * power(0, 399));
    lemma_power_positive(total, 0, 400);
    if d >= 0 {
        lemma_power_positive(10, 0, d as nat);
        let p = power(10, d as nat);
        let q = power(total, 400);
        assert(p * q > 0) by (nonlinear_arith)
            requires
                1 <= p,
                1 <= q,
        ;
    } else {
        let p = power(10, (-d) as nat);
        assert(0 * p == 0) by (nonlinear_arith);
    }
}

/// A number that reaches the share is at least the share rounded up.
pub proof fn lemma_share_ceil_at_most(d: int, total: int, m: int)
    requires
        0 <= m <= total,
        scaled_order(d, m, total - m) >= 0,
    ensures
        share_ceil(d, total) <= m,
{
    lemma_share_range(d, total);
    let below = share_floor(d, total);
    if below > m {
        if total - m >= 1 {
            lemma_scaled_order_rises(d, m, total - m, below, total - below);
        }
    }
}

/// With more on the left and less on the right, `a * 10^(d/400)` rises
/// against `b`: from equal or above to above.
pub proof fn lemma_scaled_order_rises(d: int, a: int, b: int, more: int, less: int)
    requires
        0 <= a < more,
        0 <= less < b,
        scaled_order(d, a, b) >= 0,
    ensures
        scaled_order(d, more, less) > 0,
{
    lemma_power_grows(a, more, 400);
    lemma_power_grows_strictly(less, b, 400);
    let pa = power(a, 400);
    let pm = power(more, 400);
    let pb = power(b, 400);
    let pl = power(less, 400);
    if d >= 0 {
        lemma_power_positive(10, 0, d as nat);
        let p = power(10, d as nat);
        assert(p * pm > pl) by (nonlinear_arith)
            requires
                1 <= p,
                0 <= pa <= pm,
                0 <= pl < pb,
                p * pa >= pb,
        ;
    } else {
        lemma_power_positive(10, 0, (-d) as nat);
        let p = power(10, (-d) as nat);
        assert(pm > pl * p) by (nonlinear_arith)
            requires
                1 <= p,
                0 <= pa <= pm,
                0 <= pl < pb,
                pa >= pb * p,
        ;
    }
}

/// A number that fits is at most the share rounded down.
pub proof fn lemma_share_floor_at_least(d: int, total: int, m: int)
    requires
        0 <= m <= total,
        share_fits(d, total, m),
    ensures
        m <= share_floor(d, total),
{
    lemma_share_floor_upto(d, total, m, total);
}

/// A number that does not fit is above the share rounded down.
pub proof fn lemma_share_floor_below(d: int, total: int, m: int)
    requires
        0 <= m <= total,
        !share_fits(d, total, m),
    ensures
        share_floor(d, total) < m,
{
    lemma_share_range(d, total);
    let below = share_floor(d, total);
    if below >= m {
        lemma_scaled_order_grows(d, m, total - m, below, total - below);
    }
}

/// A number that stays below the share is below the share rounded up.
pub proof fn lemma_share_ceil_above(d: int, total: int, m: int)
    requires
        0 <= m <= total,
        scaled_order(d, m, total - m) < 0,
    ensures
        m < share_ceil(d, total),
{
    lemma_share_range(d, total);
    let above = share_ceil(d, total);
    if above <= m {
        if above < m {
            lemma_scaled_order_rises(d, above, total - above, m, total - m);
        }
    }
}

/// The points of a match lie between what the loser of both games loses
/// and what the winner of both games wins: the winner of both loses
/// nothing, the loser of both wins nothing, and a draw moves no more than
/// `factor` points.
pub proof fn lemma_adjustment_range(rating_a: int, rating_b: int, wins: int, factor: int)
    requires
        0 <= factor,
        0 <= wins <= 2,
    ensures
        wins == 2 ==> 0 <= elo_adjustment(rating_a, rating_b, wins, factor) <= 2 * factor,
        wins == 1 ==> -factor <= elo_adjustment(rating_a, rating_b, wins, factor) <= factor,
        wins == 0 ==> -2 * factor <= elo_adjustment(rating_a, rating_b, wins, factor) <= 0,
{
    lemma_share_range(rating_b - rating_a, 2 * factor);
    assert(factor * 2 == 2 * factor && factor * 1 == factor && factor * 0 == 0) by (nonlinear_arith);
}

/// Between equal ratings a match moves `factor` points for every game
/// won beyond one.
pub proof fn lemma_even_match(rating: int, wins: int, factor: int)
    requires
        0 <= factor,
    ensures
        elo_adjustment(rating, rating, wins, factor) == factor * (wins - 1),
{
    let total = 2 * factor;
    assert(power(10, 0) == 1);
    let p = power(factor, 400);
    assert(1 * p == p) by (nonlinear_arith);
    assert(scaled_order(0, factor, total - factor) == 0);
    if factor > 0 {
        lemma_power_grows_strictly(factor - 1, factor + 1, 400);
        let q = power(factor + 1, 400);
        assert(1 * q == q) by (nonlinear_arith);
        assert(scaled_order(0, factor + 1, total - (factor + 1)) > 0);
    }
    lemma_share_between(0, total, factor);
    assert(factor * wins - factor == factor * (wins - 1)) by (nonlinear_arith);
}

/// A gap of `g` rating points counts for more than `g` of the 30 points
/// of a drawn match: `10^(g/400)` is below `(31 + g) / (29 - g)`.
pub proof fn lemma_gap_outweighs(g: int)
    requires
        0 <= g <= 29,
    ensures
        power(10, g as nat) * power(29 - g, 400) < power(31 + g, 400),
{
    let tens = power(10, g as nat);
    let low = power(29 - g, 400);
    let high = power(31 + g, 400);
    lemma_power_positive(10, 0, g as nat);
    lemma_power_grows(0, 29 - g, 400);
    lemma_power_positive(31 + g, 0, 400);
    if g == 0 {
        lemma_power_grows_strictly(29, 31, 400);
        assert(power(10, 0) == 1);
        assert(1 * low == low) by (nonlinear_arith);
    } else if g <= 14 {
        // 10 * 28^18 <= 32^18, so 10^14 * 28^252 <= 32^252.
        let p = power(28, 18);
        let q = power(32, 18);
        assert(10 * p <= q) by {
            reveal_with_fuel(power, 19);
        }
        lemma_power_positive(28, 0, 18);
        lemma_power_grows(10 * p, q, 14);
        lemma_power_of_product(10, p, 14);
        lemma_power_of_power(28, 18, 14);
        lemma_power_of_power(32, 18, 14);
        lemma_power_grows_strictly(28, 32, 148);
        lemma_power_adds(28, 252, 148);
        lemma_power_adds(32, 252, 148);
        lemma_power_positive(28, 0, 252);
        lemma_power_positive(10, g as nat, 14);
        lemma_power_grows(29 - g, 28, 400);
        lemma_power_grows(32, 31 + g, 400);
        let t14 = power(10, 14);
        let a = power(28, 252);
        let b = power(28, 148);
        let c = power(32, 252);
        let e = power(32, 148);
        assert(t14 * (a * b) < c * e) by (nonlinear_arith)
            requires
                t14 * a <= c,
                0 <= b < e,
                1 <= a,
                1 <= t14,
        ;
        let mid = power(28, 400);
        assert(tens * low <= t14 * mid) by (nonlinear_arith)
            requires
                1 <= tens <= t14,
                0 <= low <= mid,
        ;
    } else {
        // 10 * (29 - g)^2 <= (31 + g)^2, so 10^200 * (29 - g)^400 <= (31 + g)^400.
        let x = 29 - g;
        let y = 31 + g;
        assert(power(x, 2) == x * x && power(y, 2) == y * y) by {
            reveal_with_fuel(power, 3);
            assert(x * (x * 1) == x * x && y * (y * 1) == y * y) by (nonlinear_arith);
        }
        assert(0 <= 10 * (x * x) <= y * y) by (nonlinear_arith)
            requires
                x == 29 - g,
                y == 31 + g,
                15 <= g <= 29,
        ;
        lemma_power_grows(10 * power(x, 2), power(y, 2), 200);
        lemma_power_of_product(10, power(x, 2), 200);
        lemma_power_of_power(x, 2, 200);
        lemma_power_of_power(y, 2, 200);
        lemma_power_positive(10, (g + 1) as nat, 200);
        assert(power(10, (g + 1) as nat) == 10 * tens);
        let t200 = power(10, 200);
        assert(10 * (tens * low) <= t200 * low) by (nonlinear_arith)
            requires
                10 * tens <= t200,
                0 <= low,
        ;
        assert(tens * low >= 0) by (nonlinear_arith)
            requires
                1 <= tens,
                0 <= low,
        ;
    }
}

/// A drawn match for 30 points brings two ratings closer and does not
/// carry one past the other: the lower rated side gains, and no more
/// than the gap.
pub proof fn lemma_draw_closes_gap(rating_a: int, rating_b: int)
    ensures
        rating_a <= rating_b ==> 0 <= elo_adjustment(rating_a, rating_b, 1, 30) <= rating_b
            - rating_a,
        rating_a >= rating_b ==> rating_b - rating_a <= elo_adjustment(rating_a, rating_b, 1, 30)
            <= 0,
{
    let d = rating_b - rating_a;
    lemma_share_range(d, 60);
    lemma_adjustment_range(rating_a, rating_b, 1, 30);
    if d == 0 {
        lemma_even_match(rating_a, 1, 30);
    } else if d > 0 {
        lemma_power_positive(10, 0, d as nat);
        lemma_power_positive(30, 0, 400);
        let p = power(10, d as nat);
        let q = power(30, 400);
        assert(p * q >= q) by (nonlinear_arith)
            requires
                1 <= p,
                1 <= q,
        ;
        lemma_share_ceil_at_most(d, 60, 30);
        if d <= 29 {
            lemma_gap_outweighs(d);
            lemma_share_ceil_above(d, 60, 29 - d);
        }
    } else {
        let g = -d;
        lemma_power_positive(10, 0, g as nat);
        lemma_power_grows_strictly(29, 31, 400);
        let p = power(10, g as nat);
        let q = power(31, 400);
        assert(q * p >= q) by (nonlinear_arith)
            requires
                1 <= p,
                1 <= q,
        ;
        lemma_share_ceil_above(d, 60, 29);
        if g <= 29 {
            lemma_gap_outweighs(g);
            let low = power(29 - g, 400);
            assert(p * low == low * p) by (nonlinear_arith);
            lemma_share_floor_below(d, 60, 31 + g);
        }
    }
}

/// The order of `10^e * a^400` and `b^400`.
fn power_order(e: u32, a: u32, b: u32) -> (sign: i8)
    requires
        e <= 65535,
        a <= 65536,
        b <= 65536,
    ensures
        sign == order_of(power(10, e as nat) * power(a as int, 400), power(b as int, 400)),
{
    if a == 0 {
        proof {
            assert(power(0, 400) == 0 * power(0, 399));
            let p = power(10, e as nat);
            assert(p * 0 == 0) by (nonlinear_arith);
            if b > 0 {
                lemma_power_positive(b as int, 0, 400);
            }
        }
        if b == 0 {
            0
        } else {
            -1
        }
    } else if e > 2000 {
        proof {
            lemma_power_below_tens(b as int, 400);
            lemma_power_positive(10, 2001, e as nat);
            lemma_power_positive(10, 0, 2000);
            assert(power(10, 2001) == 10 * power(10, 2000));
            lemma_power_positive(a as int, 0, 400);
            let p = power(10, e as nat);
            let q = power(a as int, 400);
            assert(p * q >= p) by (nonlinear_arith)
                requires
                    1 <= p,
                    1 <= q,
            ;
        }
        1
    } else {
        let tens = times_power(one(), 10, e);
        let left = times_power(tens, a, 400);
        let right = times_power(one(), b, 400);
        proof {
            let p = power(10, e as nat);
            let q = power(a as int, 400);
            assert(1 * p * q == p * q) by (nonlinear_arith);
            let r = power(b as int, 400);
            assert(1 * r == r) by (nonlinear_arith);
            assert(limbs_value(left@) == p * q);
            assert(limbs_value(right@) == r);
        }
        order(left, right)
    }
}

/// The order of `a * 10^(d/400)` and `b`.
fn scaled_sign(d: i32, a: u32, b: u32) -> (sign: i8)
    requires
        -65535 <= d <= 65535,
        a <= 65536,
        b <= 65536,
    ensures
        sign == scaled_order(d as int, a as int, b as int),
{
    if d >= 0 {
        power_order(d as u32, a, b)
    } else {
        let swapped = power_order((-d) as u32, b, a);
        proof {
            let p = power(10, (-d) as nat);
            let q = power(b as int, 400);
            assert(p * q == q * p) by (nonlinear_arith);
        }
        -swapped
    }
}

/// `total / (1 + 10^(d/400))`, rounded down and rounded up.
pub fn expected_share(d: i32, total: u32) -> (share: (u32, u32))
    requires
        -65535 <= d <= 65535,
        total <= 65536,
    ensures
        share.0 == share_floor(d as int, total as int),
        share.1 == share_ceil(d as int, total as int),
        share.0 <= total,
        share.0 <= share.1 <= share.0 + 1,
{
    let mut low: u32 = 0;
    let mut high: u32 = total;
    proof {
        lemma_nothing_fits(d as int, total as int);
    }
    while low < high
        invariant
            low <= high <= total <= 65536,
            -65535 <= d <= 65535,
            share_fits(d as int, total as int, low as int),
            forall|j: int| high < j <= total ==> !#[trigger] share_fits(d as int, total as int, j),
        decreases high - low,
    {
        let middle: u32 = low + (high - low + 1) / 2;
        if scaled_sign(d, middle, total - middle) <= 0 {
            low = middle;
        } else {
            proof {
                assert forall|j: int| middle <= j <= total implies !#[trigger] share_fits(
                    d as int,
                    total as int,
                    j,
                ) by {
                    lemma_scaled_order_grows(
                        d as int,
                        middle as int,
                        total - middle,
                        j,
                        total - j,
                    );
                }
            }
            high = middle - 1;
        }
    }
    proof {
        lemma_share_floor(d as int, total as int, low as int, total as int);
    }
    if scaled_sign(d, low, total - low) == 0 {
        (low, low)
    } else {
        (low, low + 1)
    }
}

/// The points that A gains and B loses by a match.
pub fn adjustment(rating_a: i16, rating_b: i16, agent_one_wins: i16, adj_factor: i16) -> (delta:
    i128)
    ensures
        delta == elo_adjustment(
            rating_a as int,
            rating_b as int,
            agent_one_wins as int,
            adj_factor as int,
        ),
        -1_100_000_000 <= delta <= 1_100_000_000,
{
    let d: i32 = rating_b as i32 - rating_a as i32;
    let factor: i64 = adj_factor as i64;
    let wins: i64 = agent_one_wins as i64;
    assert(-1_073_741_824 <= factor * wins <= 1_073_741_824) by (nonlinear_arith)
        requires
            -32768 <= factor <= 32767,
            -32768 <= wins <= 32767,
    ;
    let won: i64 = factor * wins;
    let size: i64 = if factor >= 0 {
        factor
    } else {
        0 - factor
    };
    let (below, above) = expected_share(d, (2 * size) as u32);
    let delta: i64 = if factor >= 0 {
        if above as i64 <= won {
            won - above as i64
        } else {
            won - below as i64
        }
    } else {
        if below as i64 >= 0 - won {
            won + below as i64
        } else {
            won + above as i64
        }
    };
    delta as i128
}

/// Rates a match between the slots `agent_one_idx` and `agent_two_idx` in
/// which the first won `agent_one_wins` games: the first gains the
/// adjustment and the second loses it. Says whether the ratings changed.
pub fn update_elo(
    elos: &mut Vec<i16>,
    agent_one_idx: &usize,
    agent_two_idx: &usize,
    agent_one_wins: i16,
    adj_factor: i16,
) -> (applied: bool)
    requires
        *agent_one_idx < old(elos)@.len(),
        *agent_two_idx < old(elos)@.len(),
    ensures
        final(elos)@ == ratings_after(
            old(elos)@,
            *agent_one_idx as int,
            *agent_two_idx as int,
            agent_one_wins as int,
            adj_factor as int,
        ),
        applied == (final(elos)@ != old(elos)@),
        final(elos)@.len() == old(elos)@.len(),
        rating_change(old(elos)@, final(elos)@, *agent_one_idx as int) == -rating_change(
            old(elos)@,
            final(elos)@,
            *agent_two_idx as int,
        ),
        forall|i: int|
            0 <= i < old(elos)@.len() && i != *agent_one_idx && i != *agent_two_idx
                ==> #[trigger] final(elos)@[i] == old(elos)@[i],
{
    let a = *agent_one_idx;
    let b = *agent_two_idx;
    if a == b {
        return false;
    }
    let agent_one_elo = elos[a];
    let agent_two_elo = elos[b];
    let elo_adjustment_amt = adjustment(agent_one_elo, agent_two_elo, agent_one_wins, adj_factor);
    let raised: i128 = agent_one_elo as i128 + elo_adjustment_amt;
    let lowered: i128 = agent_two_elo as i128 - elo_adjustment_amt;
    if raised < i16::MIN as i128 || raised > i16::MAX as i128 || lowered < i16::MIN as i128
        || lowered > i16::MAX as i128 {
        return false;
    }
    let ghost before = elos@;
    elos.set(a, raised as i16);
    elos.set(b, lowered as i16);
    proof {
        assert(elos@ =~= ratings_after(
            before,
            a as int,
            b as int,
            agent_one_wins as int,
            adj_factor as int,
        ));
        if elo_adjustment_amt == 0 {
            assert(elos@ =~= before);
        } else {
            assert(elos@[a as int] != before[a as int]);
        }
    }
    elo_adjustment_amt != 0
}

} // verus!
