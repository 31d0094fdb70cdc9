use vstd::prelude::*;

use crate::sbox::{sbox_lookup, spec_sbox};

verus! {

/// Parity of a 16-bit word: the XOR of all sixteen bits, as 0 or 1.
pub open spec fn spec_parity(x: u16) -> u16 {
    (x ^ (x >> 1) ^ (x >> 2) ^ (x >> 3) ^ (x >> 4) ^ (x >> 5) ^ (x >> 6) ^ (x >> 7) ^ (x >> 8) ^ (x
        >> 9) ^ (x >> 10) ^ (x >> 11) ^ (x >> 12) ^ (x >> 13) ^ (x >> 14) ^ (x >> 15)) & 1
}

/// Computes the parity of a word by folding its halves together.
pub fn parity(x: u16) -> (r: u16)
    ensures
        r == spec_parity(x),
        r <= 1,
{
    let f8 = x ^ (x >> 8);
    let f4 = f8 ^ (f8 >> 4);
    let f2 = f4 ^ (f4 >> 2);
    let f1 = f2 ^ (f2 >> 1);
    let r = f1 & 1;
    proof {
        assert(r == spec_parity(x) && r <= 1) by (bit_vector)
            requires
                f8 == x ^ (x >> 8),
                f4 == f8 ^ (f8 >> 4),
                f2 == f4 ^ (f4 >> 2),
                f1 == f2 ^ (f2 >> 1),
                r == f1 & 1,
        ;
    }
    r
}

/// Among the inputs 0..n, how many agree between the parity of
/// `a & x` and the parity of `b & sbox(x)`. Over all 16 inputs this
/// count determines the linear bias of the mask pair: bias =
/// count/16 - 1/2.
pub open spec fn spec_lin_agreements(a: u16, b: u16, n: int) -> int
    decreases n,
{
    if n <= 0 {
        0
    } else {
        spec_lin_agreements(a, b, n - 1) + if spec_parity(a & ((n - 1) as u16)) == spec_parity(
            b & spec_sbox((n - 1) as u16),
        ) {
            1int
        } else {
            0int
        }
    }
}

/// The linear bias of the substitution box for input mask `a` and output
/// mask `b`, scaled by 16 to stay exact: the result is
/// `agreements - 8`, so the bias itself is the result divided by 16 and
/// always lies in [-1/2, 1/2].
pub fn linear_bias_sbox(a: u8, b: u8) -> (bias16: i8)
    ensures
        bias16 as int == spec_lin_agreements(a as u16, b as u16, 16) - 8,
        -8 <= bias16 <= 8,
{
    let aa = a as u16;
    let bb = b as u16;
    let mut count: u8 = 0;
    let mut x: u16 = 0;
    while x < 16
        invariant
            x <= 16,
            aa == a as u16,
            bb == b as u16,
            count <= x,
            count as int == spec_lin_agreements(aa, bb, x as int),
        decreases 16 - x,
    {
        let s = sbox_lookup(x);
        let pa = parity(aa & x);
        let pb = parity(bb & s);
        if pa == pb {
            count = count + 1;
        }
        x = x + 1;
    }
    (count as i8) - 8
}

/// Among the inputs 0..n, how many satisfy
/// `sbox(x) ^ sbox(x ^ din) == dout`. Over all 16 inputs this count
/// determines the differential probability: probability = count/16.
pub open spec fn spec_diff_matches(din: u16, dout: u16, n: int) -> int
    decreases n,
{
    if n <= 0 {
        0
    } else {
        spec_diff_matches(din, dout, n - 1) + if spec_sbox((n - 1) as u16) ^ spec_sbox(
            ((n - 1) as u16) ^ din,
        ) == dout {
            1int
        } else {
            0int
        }
    }
}

/// The differential match count lies between 0 and n.
pub proof fn lemma_diff_matches_bounds(din: u16, dout: u16, n: int)
    requires
        n >= 0,
    ensures
        0 <= spec_diff_matches(din, dout, n) <= n,
    decreases n,
{
    if n > 0 {
        lemma_diff_matches_bounds(din, dout, n - 1);
    }
}

/// The differential probability of the substitution box for input
/// difference `din` and output difference `dout`, scaled by 16 to stay
/// exact: the probability itself is the returned count divided by 16 and
/// always lies in [0, 1].
pub fn diff_prob_sbox(delta_in: u8, delta_out: u8) -> (count: u8)
    ensures
        count as int == spec_diff_matches(delta_in as u16, delta_out as u16, 16),
        count <= 16,
{
    let din = delta_in as u16;
    let dout = delta_out as u16;
    let mut count: u8 = 0;
    let mut x: u16 = 0;
    while x < 16
        invariant
            x <= 16,
            din == delta_in as u16,
            dout == delta_out as u16,
            count <= x,
            count as int == spec_diff_matches(din, dout, x as int),
        decreases 16 - x,
    {
        let s1 = sbox_lookup(x);
        let s2 = sbox_lookup(x ^ din);
        if s1 ^ s2 == dout {
            count = count + 1;
        }
        x = x + 1;
    }
    count
}

/// The magnitude of the scaled linear bias of a mask pair: the absolute
/// deviation of the agreement count from 8, in sixteenths.
pub open spec fn spec_lin_deviation(a: u16, b: u16) -> int {
    let d = spec_lin_agreements(a, b, 16) - 8;
    if d < 0 {
        -d
    } else {
        d
    }
}

/// Strict lexicographic order on mask (or difference) pairs: the scan
/// order of the exhaustive searches.
pub open spec fn spec_lex_before(a1: u16, b1: u16, a2: u16, b2: u16) -> bool {
    a1 < a2 || (a1 == a2 && b1 < b2)
}

/// The running best of the linear search once the scan has reached pair
/// (na, nb): the recorded pair was already scanned, nothing scanned
/// beats it, and everything scanned before it is strictly worse.
spec fn lin_best_of_prefix(ba: u16, bb: u16, bd: int, na: u16, nb: u16) -> bool {
    &&& 1 <= ba < 16
    &&& 1 <= bb < 16
    &&& spec_lex_before(ba, bb, na, nb)
    &&& bd == spec_lin_deviation(ba, bb)
    &&& forall|x: u16, y: u16|
        1 <= x < 16 && 1 <= y < 16 && spec_lex_before(x, y, na, nb) ==> #[trigger] spec_lin_deviation(
            x,
            y,
        ) <= bd
    &&& forall|x: u16, y: u16|
        1 <= x < 16 && 1 <= y < 16 && spec_lex_before(x, y, ba, bb) ==> #[trigger] spec_lin_deviation(
            x,
            y,
        ) < bd
}

/// One step of the linear scan: examining pair (a, b) either replaces
/// the running best (on a strictly greater deviation) or leaves it, and
/// either way the running best covers the prefix extended by (a, b).
proof fn lemma_lin_search_step(ba: u16, bb: u16, bd: int, a: u16, b: u16)
    requires
        1 <= a < 16,
        1 <= b < 16,
        (a == 1 && b == 1 && bd == -1) || lin_best_of_prefix(ba, bb, bd, a, b),
    ensures
        spec_lin_deviation(a, b) > bd ==> lin_best_of_prefix(
            a,
            b,
            spec_lin_deviation(a, b),
            a,
            (b + 1) as u16,
        ),
        spec_lin_deviation(a, b) <= bd ==> lin_best_of_prefix(ba, bb, bd, a, (b + 1) as u16),
{
    let d = spec_lin_deviation(a, b);
    if d > bd {
        assert forall|x: u16, y: u16|
            1 <= x < 16 && 1 <= y < 16 && spec_lex_before(x, y, a, (b + 1) as u16) implies #[trigger] spec_lin_deviation(
            x,
            y,
        ) <= d by {
            if !(x == a && y == b) {
                assert(spec_lex_before(x, y, a, b));
                assert(spec_lin_deviation(x, y) <= bd);
            }
        };
        assert forall|x: u16, y: u16|
            1 <= x < 16 && 1 <= y < 16 && spec_lex_before(x, y, a, b) implies #[trigger] spec_lin_deviation(
            x,
            y,
        ) < d by {
            assert(spec_lin_deviation(x, y) <= bd);
        };
    } else {
        // a deviation is never negative, so the sentinel best cannot
        // survive a comparison: a real best pair is already recorded
        assert(bd != -1);
        assert forall|x: u16, y: u16|
            1 <= x < 16 && 1 <= y < 16 && spec_lex_before(x, y, a, (b + 1) as u16) implies #[trigger] spec_lin_deviation(
            x,
            y,
        ) <= bd by {
            if !(x == a && y == b) {
                assert(spec_lex_before(x, y, a, b));
            }
        };
    }
}

/// Finishing a row of the linear scan: the prefix reached at (a, 16) is
/// exactly the prefix at (a + 1, 1).
proof fn lemma_lin_search_row_end(ba: u16, bb: u16, bd: int, a: u16)
    requires
        1 <= a < 16,
        lin_best_of_prefix(ba, bb, bd, a, 16),
    ensures
        lin_best_of_prefix(ba, bb, bd, (a + 1) as u16, 1),
{
    assert forall|x: u16, y: u16|
        1 <= x < 16 && 1 <= y < 16 && spec_lex_before(x, y, (a + 1) as u16, 1) implies #[trigger] spec_lin_deviation(
        x,
        y,
    ) <= bd by {
        assert(spec_lex_before(x, y, a, 16));
    };
}

/// Exhaustively scans input masks 1..16 and output masks 1..16 in
/// ascending order and returns the pair with the strictly greatest
/// absolute scaled bias, together with that deviation (in sixteenths;
/// the bias magnitude is the third component divided by 16). A later
/// pair replaces the best only when strictly greater, so ties keep the
/// earliest pair in scan order.
pub fn find_best_linear_approximation() -> (r: (u8, u8, u8))
    ensures
        1 <= r.0 < 16 && 1 <= r.1 < 16,
        r.2 as int == spec_lin_deviation(r.0 as u16, r.1 as u16),
        0 < r.2 <= 8,
        forall|x: u16, y: u16|
            1 <= x < 16 && 1 <= y < 16 ==> spec_lin_deviation(x, y) <= r.2 as int,
        forall|x: u16, y: u16|
            1 <= x < 16 && 1 <= y < 16 && spec_lex_before(x, y, r.0 as u16, r.1 as u16)
                ==> spec_lin_deviation(x, y) < r.2 as int,
{
    let mut best_a: u8 = 0;
    let mut best_b: u8 = 0;
    let mut best_d: i16 = -1;
    let mut a: u8 = 1;
    while a < 16
        invariant
            1 <= a <= 16,
            best_d <= 8,
            if a == 1 {
                best_d == -1
            } else {
                lin_best_of_prefix(best_a as u16, best_b as u16, best_d as int, a as u16, 1)
            },
        decreases 16 - a,
    {
        let mut b: u8 = 1;
        while b < 16
            invariant
                1 <= a < 16,
                1 <= b <= 16,
                best_d <= 8,
                if a == 1 && b == 1 {
                    best_d == -1
                } else {
                    lin_best_of_prefix(best_a as u16, best_b as u16, best_d as int, a as u16, b as u16)
                },
            decreases 16 - b,
        {
            let bias = linear_bias_sbox(a, b);
            let d: i16 = if bias < 0 {
                -(bias as i16)
            } else {
                bias as i16
            };
            proof {
                assert(d as int == spec_lin_deviation(a as u16, b as u16));
                lemma_lin_search_step(
                    best_a as u16,
                    best_b as u16,
                    best_d as int,
                    a as u16,
                    b as u16,
                );
            }
            if d > best_d {
                best_a = a;
                best_b = b;
                best_d = d;
            }
            b = b + 1;
        }
        proof {
            lemma_lin_search_row_end(best_a as u16, best_b as u16, best_d as int, a as u16);
        }
        a = a + 1;
    }
    proof {
        // the maximum is positive: mask pair (1, 5) is a witness with
        // agreement count 4, hence deviation |4 - 8| = 4
        assert(spec_lin_agreements(1u16, 5u16, 16) == 4) by (bit_vector);
        assert(spec_lin_deviation(1u16, 5u16) == 4);
        assert(spec_lin_deviation(1u16, 5u16) <= best_d as int);
    }
    (best_a, best_b, best_d as u8)
}

/// The running best of the differential search once the scan has reached
/// pair (na, nb); output differences start at 0.
spec fn diff_best_of_prefix(ba: u16, bb: u16, bd: int, na: u16, nb: u16) -> bool {
    &&& 1 <= ba < 16
    &&& bb < 16
    &&& spec_lex_before(ba, bb, na, nb)
    &&& bd == spec_diff_matches(ba, bb, 16)
    &&& forall|x: u16, y: u16|
        1 <= x < 16 && y < 16 && spec_lex_before(x, y, na, nb) ==> #[trigger] spec_diff_matches(
            x,
            y,
            16,
        ) <= bd
    &&& forall|x: u16, y: u16|
        1 <= x < 16 && y < 16 && spec_lex_before(x, y, ba, bb) ==> #[trigger] spec_diff_matches(
            x,
            y,
            16,
        ) < bd
}

/// One step of the differential scan: examining pair (a, b) either
/// replaces the running best (on a strictly greater match count) or
/// leaves it, and either way the running best covers the prefix extended
/// by (a, b).
proof fn lemma_diff_search_step(ba: u16, bb: u16, bd: int, a: u16, b: u16)
    requires
        1 <= a < 16,
        b < 16,
        (a == 1 && b == 0 && bd == -1) || diff_best_of_prefix(ba, bb, bd, a, b),
    ensures
        spec_diff_matches(a, b, 16) > bd ==> diff_best_of_prefix(
            a,
            b,
            spec_diff_matches(a, b, 16),
            a,
            (b + 1) as u16,
        ),
        spec_diff_matches(a, b, 16) <= bd ==> diff_best_of_prefix(ba, bb, bd, a, (b + 1) as u16),
{
    let d = spec_diff_matches(a, b, 16);
    lemma_diff_matches_bounds(a, b, 16);
    if d > bd {
        assert forall|x: u16, y: u16|
            1 <= x < 16 && y < 16 && spec_lex_before(x, y, a, (b + 1) as u16) implies #[trigger] spec_diff_matches(
            x,
            y,
            16,
        ) <= d by {
            if !(x == a && y == b) {
                assert(spec_lex_before(x, y, a, b));
                assert(spec_diff_matches(x, y, 16) <= bd);
            }
        };
        assert forall|x: u16, y: u16|
            1 <= x < 16 && y < 16 && spec_lex_before(x, y, a, b) implies #[trigger] spec_diff_matches(
            x,
            y,
            16,
        ) < d by {
            assert(spec_diff_matches(x, y, 16) <= bd);
        };
    } else {
        // a match count is never negative, so the sentinel best cannot
        // survive a comparison: a real best pair is already recorded
        assert(bd != -1);
        assert forall|x: u16, y: u16|
            1 <= x < 16 && y < 16 && spec_lex_before(x, y, a, (b + 1) as u16) implies #[trigger] spec_diff_matches(
            x,
            y,
            16,
        ) <= bd by {
            if !(x == a && y == b) {
                assert(spec_lex_before(x, y, a, b));
            }
        };
    }
}

/// Finishing a row of the differential scan: the prefix reached at
/// (a, 16) is exactly the prefix at (a + 1, 0).
proof fn lemma_diff_search_row_end(ba: u16, bb: u16, bd: int, a: u16)
    requires
        1 <= a < 16,
        diff_best_of_prefix(ba, bb, bd, a, 16),
    ensures
        diff_best_of_prefix(ba, bb, bd, (a + 1) as u16, 0),
{
    assert forall|x: u16, y: u16|
        1 <= x < 16 && y < 16 && spec_lex_before(x, y, (a + 1) as u16, 0) implies #[trigger] spec_diff_matches(
        x,
        y,
        16,
    ) <= bd by {
        assert(spec_lex_before(x, y, a, 16));
    };
}

/// Exhaustively scans input differences 1..16 (the trivial zero
/// difference is excluded) and output differences 0..16 in ascending
/// order and returns the pair with the strictly greatest match count,
/// together with that count (the probability is the third component
/// divided by 16). Ties keep the earliest pair in scan order.
pub fn find_best_differential() -> (r: (u8, u8, u8))
    ensures
        1 <= r.0 < 16 && r.1 < 16,
        r.2 as int == spec_diff_matches(r.0 as u16, r.1 as u16, 16),
        r.2 <= 16,
        forall|x: u16, y: u16| 1 <= x < 16 && y < 16 ==> spec_diff_matches(x, y, 16) <= r.2 as int,
        forall|x: u16, y: u16|
            1 <= x < 16 && y < 16 && spec_lex_before(x, y, r.0 as u16, r.1 as u16)
                ==> spec_diff_matches(x, y, 16) < r.2 as int,
{
    let mut best_a: u8 = 0;
    let mut best_b: u8 = 0;
    let mut best_d: i16 = -1;
    let mut a: u8 = 1;
    while a < 16
        invariant
            1 <= a <= 16,
            best_d <= 16,
            if a == 1 {
                best_d == -1
            } else {
                diff_best_of_prefix(best_a as u16, best_b as u16, best_d as int, a as u16, 0)
            },
        decreases 16 - a,
    {
        let mut b: u8 = 0;
        while b < 16
            invariant
                1 <= a < 16,
                b <= 16,
                best_d <= 16,
                if a == 1 && b == 0 {
                    best_d == -1
                } else {
                    diff_best_of_prefix(best_a as u16, best_b as u16, best_d as int, a as u16, b as u16)
                },
            decreases 16 - b,
        {
            let count = diff_prob_sbox(a, b);
            let d: i16 = count as i16;
            proof {
                lemma_diff_search_step(
                    best_a as u16,
                    best_b as u16,
                    best_d as int,
                    a as u16,
                    b as u16,
                );
            }
            if d > best_d {
                best_a = a;
                best_b = b;
                best_d = d;
            }
            b = b + 1;
        }
        proof {
            lemma_diff_search_row_end(best_a as u16, best_b as u16, best_d as int, a as u16);
        }
        a = a + 1;
    }
    proof {
        lemma_diff_matches_bounds(best_a as u16, best_b as u16, 16);
    }
    (best_a, best_b, best_d as u8)
}

} // verus!
