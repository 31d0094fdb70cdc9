use vstd::prelude::*;

use crate::analysis::{parity, spec_parity};
use crate::errors::SpnError;
use crate::sbox::{sbox_inv_lookup, spec_sbox_inv};

verus! {

/// The 4-bit chunk of a word at nibble position `idx` (0 is the least
/// significant nibble).
pub open spec fn spec_nibble(x: u16, idx: int) -> u16
    recommends
        0 <= idx < 4,
{
    if idx == 0 {
        x & 0xF
    } else if idx == 1 {
        (x >> 4) & 0xF
    } else if idx == 2 {
        (x >> 8) & 0xF
    } else {
        (x >> 12) & 0xF
    }
}

/// Masking to the low four bits leaves a nibble.
proof fn lemma_nibble_range(x: u16, idx: int)
    ensures
        spec_nibble(x, idx) < 16,
{
    assert(x & 0xF < 16 && (x >> 4) & 0xF < 16 && (x >> 8) & 0xF < 16 && (x >> 12) & 0xF < 16)
        by (bit_vector);
}

/// Extracts the nibble of a word at the given position.
pub fn nibble_of(x: u16, idx: usize) -> (r: u16)
    requires
        idx < 4,
    ensures
        r == spec_nibble(x, idx as int),
        r < 16,
{
    proof {
        lemma_nibble_range(x, idx as int);
    }
    match idx {
        0 => x & 0xF,
        1 => (x >> 4) & 0xF,
        2 => (x >> 8) & 0xF,
        _ => (x >> 12) & 0xF,
    }
}

/// Whether one plaintext/ciphertext pair votes for a candidate key
/// nibble in the linear attack: the parity of `alpha & plaintext` agrees
/// with the parity of `beta_nib & v`, where v is the target ciphertext
/// nibble with the candidate XORed in (undoing the presumed final round
/// key) and pushed back through the inverse substitution box.
pub open spec fn spec_lin_pair_matches(
    pr: (u16, u16),
    alpha: u16,
    beta_nib: u16,
    idx: int,
    cand: u16,
) -> bool {
    spec_parity(alpha & pr.0) == spec_parity(
        beta_nib & spec_sbox_inv(spec_nibble(pr.1, idx) ^ cand),
    )
}

/// How many pairs vote for a candidate key nibble.
pub open spec fn spec_lin_count(
    pairs: Seq<(u16, u16)>,
    alpha: u16,
    beta_nib: u16,
    idx: int,
    cand: u16,
) -> int
    decreases pairs.len(),
{
    if pairs.len() == 0 {
        0
    } else {
        spec_lin_count(pairs.drop_last(), alpha, beta_nib, idx, cand) + if spec_lin_pair_matches(
            pairs.last(),
            alpha,
            beta_nib,
            idx,
            cand,
        ) {
            1int
        } else {
            0int
        }
    }
}

/// A candidate's vote count lies between 0 and the number of pairs.
pub proof fn lemma_lin_count_bounds(
    pairs: Seq<(u16, u16)>,
    alpha: u16,
    beta_nib: u16,
    idx: int,
    cand: u16,
)
    ensures
        0 <= spec_lin_count(pairs, alpha, beta_nib, idx, cand) <= pairs.len(),
    decreases pairs.len(),
{
    if pairs.len() > 0 {
        lemma_lin_count_bounds(pairs.drop_last(), alpha, beta_nib, idx, cand);
    }
}

/// A candidate's empirical deviation from chance, scaled by twice the
/// pair count to stay exact: |2 * count - total|, which orders the
/// candidates exactly as |count/total - 1/2| does.
pub open spec fn spec_lin_deviation_of(
    pairs: Seq<(u16, u16)>,
    alpha: u16,
    beta_nib: u16,
    idx: int,
    cand: u16,
) -> int {
    let d = 2 * spec_lin_count(pairs, alpha, beta_nib, idx, cand) - pairs.len();
    if d < 0 {
        -d
    } else {
        d
    }
}

/// What the linear attack returns on a non-empty pair collection: the
/// candidate key nibble with the greatest empirical deviation, ties
/// broken by the lowest candidate value.
pub open spec fn spec_lin_best_candidate(
    pairs: Seq<(u16, u16)>,
    alpha: u16,
    beta: u16,
    idx: int,
    r: u16,
) -> bool {
    let bn = spec_nibble(beta, idx);
    &&& r < 16
    &&& forall|c: u16|
        c < 16 ==> #[trigger] spec_lin_deviation_of(pairs, alpha, bn, idx, c)
            <= spec_lin_deviation_of(pairs, alpha, bn, idx, r)
    &&& forall|c: u16|
        c < r ==> #[trigger] spec_lin_deviation_of(pairs, alpha, bn, idx, c)
            < spec_lin_deviation_of(pairs, alpha, bn, idx, r)
}

/// Matsui-style single-nibble key recovery. For each candidate value of
/// the targeted nibble of the final round key, counts the pairs whose
/// plaintext parity under `alpha` agrees with the parity, under the
/// target nibble of `beta`, of the inverse-substituted candidate-decrypted
/// ciphertext nibble; returns the candidate whose count deviates most
/// from half the total, ties broken by the lowest candidate. An empty
/// collection is an error; too small a sample merely degrades the answer
/// and is not one.
pub fn linear_attack(pairs: &[(u16, u16)], alpha: u16, beta: u16, nibble_idx: usize) -> (r: Result<
    u8,
    SpnError,
>)
    requires
        nibble_idx < 4,
    ensures
        pairs@.len() == 0 ==> r == Err::<u8, SpnError>(SpnError::EmptyPairSet),
        pairs@.len() > 0 ==> r is Ok && spec_lin_best_candidate(
            pairs@,
            alpha,
            beta,
            nibble_idx as int,
            (r->Ok_0) as u16,
        ),
{
    let n = pairs.len();
    if n == 0 {
        return Err(SpnError::EmptyPairSet);
    }
    let beta_nib = nibble_of(beta, nibble_idx);
    let ghost gidx: int = nibble_idx as int;

    let mut counts: Vec<usize> = Vec::new();
    let mut ci: usize = 0;
    while ci < 16
        invariant
            ci <= 16,
            counts@.len() == ci,
            forall|j: int| 0 <= j < ci ==> counts@[j] == 0,
        decreases 16 - ci,
    {
        counts.push(0);
        ci = ci + 1;
    }

    let mut k: usize = 0;
    while k < n
        invariant
            n == pairs@.len(),
            k <= n,
            counts@.len() == 16,
            nibble_idx < 4,
            gidx == nibble_idx as int,
            beta_nib == spec_nibble(beta, gidx),
            forall|j: int|
                0 <= j < 16 ==> (#[trigger] counts@[j]) as int == spec_lin_count(
                    pairs@.take(k as int),
                    alpha,
                    beta_nib,
                    gidx,
                    j as u16,
                ),
            forall|j: int| 0 <= j < 16 ==> #[trigger] counts@[j] <= k,
        decreases n - k,
    {
        let pr = pairs[k];
        let ad = parity(alpha & pr.0);
        let cn = nibble_of(pr.1, nibble_idx);
        proof {
            assert(pairs@.take(k as int + 1).drop_last() =~= pairs@.take(k as int));
            assert(pairs@.take(k as int + 1).last() == pairs@[k as int]);
        }
        let mut cand: usize = 0;
        while cand < 16
            invariant
                n == pairs@.len(),
                k < n,
                cand <= 16,
                counts@.len() == 16,
                nibble_idx < 4,
                gidx == nibble_idx as int,
                beta_nib == spec_nibble(beta, gidx),
                pr == pairs@[k as int],
                ad == spec_parity(alpha & pr.0),
                cn == spec_nibble(pr.1, gidx),
                pairs@.take(k as int + 1).drop_last() =~= pairs@.take(k as int),
                pairs@.take(k as int + 1).last() == pairs@[k as int],
                forall|j: int|
                    0 <= j < cand ==> (#[trigger] counts@[j]) as int == spec_lin_count(
                        pairs@.take(k as int + 1),
                        alpha,
                        beta_nib,
                        gidx,
                        j as u16,
                    ),
                forall|j: int|
                    cand <= j < 16 ==> (#[trigger] counts@[j]) as int == spec_lin_count(
                        pairs@.take(k as int),
                        alpha,
                        beta_nib,
                        gidx,
                        j as u16,
                    ),
                forall|j: int| 0 <= j < cand ==> #[trigger] counts@[j] <= k + 1,
                forall|j: int| cand <= j < 16 ==> #[trigger] counts@[j] <= k,
            decreases 16 - cand,
        {
            let v = sbox_inv_lookup(cn ^ (cand as u16));
            let bd = parity(beta_nib & v);
            if ad == bd {
                counts[cand] = counts[cand] + 1;
            }
            cand = cand + 1;
        }
        k = k + 1;
    }
    proof {
        assert(pairs@.take(n as int) =~= pairs@);
    }

    let total = n;
    let c0 = counts[0];
    proof {
        lemma_lin_count_bounds(pairs@, alpha, beta_nib, gidx, 0);
    }
    let r0 = total - c0;
    let mut best: usize = 0;
    let mut best_dev: usize = if c0 >= r0 {
        c0 - r0
    } else {
        r0 - c0
    };
    let mut cand: usize = 1;
    while cand < 16
        invariant
            n == pairs@.len(),
            n > 0,
            total == n,
            counts@.len() == 16,
            gidx == nibble_idx as int,
            beta_nib == spec_nibble(beta, gidx),
            1 <= cand <= 16,
            best < cand,
            forall|j: int|
                0 <= j < 16 ==> (#[trigger] counts@[j]) as int == spec_lin_count(
                    pairs@,
                    alpha,
                    beta_nib,
                    gidx,
                    j as u16,
                ),
            best_dev as int == spec_lin_deviation_of(pairs@, alpha, beta_nib, gidx, best as u16),
            forall|c: u16|
                c < cand ==> #[trigger] spec_lin_deviation_of(pairs@, alpha, beta_nib, gidx, c)
                    <= best_dev as int,
            forall|c: u16|
                c < best ==> #[trigger] spec_lin_deviation_of(pairs@, alpha, beta_nib, gidx, c)
                    < best_dev as int,
        decreases 16 - cand,
    {
        let cc = counts[cand];
        proof {
            lemma_lin_count_bounds(pairs@, alpha, beta_nib, gidx, cand as u16);
        }
        let rr = total - cc;
        let d = if cc >= rr {
            cc - rr
        } else {
            rr - cc
        };
        if d > best_dev {
            best = cand;
            best_dev = d;
        }
        cand = cand + 1;
    }
    Ok(best as u8)
}

/// Whether a quadruple passes the right-pair filter: its plaintexts
/// differ by exactly the chosen input difference.
pub open spec fn spec_right_pair(q: (u16, u16, u16, u16), delta_p: u16) -> bool {
    q.0 ^ q.1 == delta_p
}

/// How many quadruples pass the right-pair filter.
pub open spec fn spec_surviving_count(pairs: Seq<(u16, u16, u16, u16)>, delta_p: u16) -> int
    decreases pairs.len(),
{
    if pairs.len() == 0 {
        0
    } else {
        spec_surviving_count(pairs.drop_last(), delta_p) + if spec_right_pair(
            pairs.last(),
            delta_p,
        ) {
            1int
        } else {
            0int
        }
    }
}

/// Whether a surviving quadruple votes for a candidate key nibble in the
/// differential attack: XORing the candidate into both target ciphertext
/// nibbles and pushing each through the inverse substitution box yields
/// values whose difference is the expected nibble of `delta_u`.
pub open spec fn spec_diff_pair_matches(
    q: (u16, u16, u16, u16),
    delta_u_nib: u16,
    idx: int,
    cand: u16,
) -> bool {
    spec_sbox_inv(spec_nibble(q.2, idx) ^ cand) ^ spec_sbox_inv(spec_nibble(q.3, idx) ^ cand)
        == delta_u_nib
}

/// How many quadruples both pass the right-pair filter and vote for a
/// candidate key nibble.
pub open spec fn spec_diff_count(
    pairs: Seq<(u16, u16, u16, u16)>,
    delta_p: u16,
    delta_u_nib: u16,
    idx: int,
    cand: u16,
) -> int
    decreases pairs.len(),
{
    if pairs.len() == 0 {
        0
    } else {
        spec_diff_count(pairs.drop_last(), delta_p, delta_u_nib, idx, cand) + if spec_right_pair(
            pairs.last(),
            delta_p,
        ) && spec_diff_pair_matches(pairs.last(), delta_u_nib, idx, cand) {
            1int
        } else {
            0int
        }
    }
}

/// What the differential attack returns when at least one quadruple
/// survives the filter: the candidate key nibble with the strictly
/// greatest vote count, ties broken by the lowest candidate value.
pub open spec fn spec_diff_best_candidate(
    pairs: Seq<(u16, u16, u16, u16)>,
    delta_p: u16,
    delta_u: u16,
    idx: int,
    r: u16,
) -> bool {
    let dun = spec_nibble(delta_u, idx);
    &&& r < 16
    &&& forall|c: u16|
        c < 16 ==> #[trigger] spec_diff_count(pairs, delta_p, dun, idx, c) <= spec_diff_count(
            pairs,
            delta_p,
            dun,
            idx,
            r,
        )
    &&& forall|c: u16|
        c < r ==> #[trigger] spec_diff_count(pairs, delta_p, dun, idx, c) < spec_diff_count(
            pairs,
            delta_p,
            dun,
            idx,
            r,
        )
}

/// Differential single-nibble key recovery. Quadruples whose plaintexts
/// do not differ by `delta_p` are discarded; for each candidate value of
/// the targeted nibble of the final round key, counts the survivors
/// whose candidate-decrypted, inverse-substituted ciphertext nibbles
/// differ by the target nibble of `delta_u`; returns the candidate with
/// the greatest count (an outright majority under a correct
/// characteristic), ties broken by the lowest candidate. An empty
/// collection and a filter that discards everything are distinguished
/// errors, so callers can tell "no data" from "no matching data".
pub fn differential_attack(
    pairs: &[(u16, u16, u16, u16)],
    delta_p: u16,
    delta_u: u16,
    nibble_idx: usize,
) -> (r: Result<u8, SpnError>)
    requires
        nibble_idx < 4,
    ensures
        pairs@.len() == 0 ==> r == Err::<u8, SpnError>(SpnError::EmptyPairSet),
        pairs@.len() > 0 && spec_surviving_count(pairs@, delta_p) == 0 ==> r == Err::<
            u8,
            SpnError,
        >(SpnError::NoSurvivingPairs),
        pairs@.len() > 0 && spec_surviving_count(pairs@, delta_p) > 0 ==> r is Ok
            && spec_diff_best_candidate(
            pairs@,
            delta_p,
            delta_u,
            nibble_idx as int,
            (r->Ok_0) as u16,
        ),
{
    let n = pairs.len();
    if n == 0 {
        return Err(SpnError::EmptyPairSet);
    }
    let du_nib = nibble_of(delta_u, nibble_idx);
    let ghost gidx: int = nibble_idx as int;

    let mut counts: Vec<usize> = Vec::new();
    let mut ci: usize = 0;
    while ci < 16
        invariant
            ci <= 16,
            counts@.len() == ci,
            forall|j: int| 0 <= j < ci ==> counts@[j] == 0,
        decreases 16 - ci,
    {
        counts.push(0);
        ci = ci + 1;
    }

    let mut survivors: usize = 0;
    let mut k: usize = 0;
    while k < n
        invariant
            n == pairs@.len(),
            k <= n,
            counts@.len() == 16,
            nibble_idx < 4,
            gidx == nibble_idx as int,
            du_nib == spec_nibble(delta_u, gidx),
            survivors as int == spec_surviving_count(pairs@.take(k as int), delta_p),
            survivors <= k,
            forall|j: int|
                0 <= j < 16 ==> (#[trigger] counts@[j]) as int == spec_diff_count(
                    pairs@.take(k as int),
                    delta_p,
                    du_nib,
                    gidx,
                    j as u16,
                ),
            forall|j: int| 0 <= j < 16 ==> #[trigger] counts@[j] <= k,
        decreases n - k,
    {
        let q = pairs[k];
        proof {
            assert(pairs@.take(k as int + 1).drop_last() =~= pairs@.take(k as int));
            assert(pairs@.take(k as int + 1).last() == pairs@[k as int]);
        }
        if q.0 ^ q.1 == delta_p {
            survivors = survivors + 1;
            let c1n = nibble_of(q.2, nibble_idx);
            let c2n = nibble_of(q.3, nibble_idx);
            let mut cand: usize = 0;
            while cand < 16
                invariant
                    n == pairs@.len(),
                    k < n,
                    cand <= 16,
                    counts@.len() == 16,
                    nibble_idx < 4,
                    gidx == nibble_idx as int,
                    du_nib == spec_nibble(delta_u, gidx),
                    q == pairs@[k as int],
                    spec_right_pair(q, delta_p),
                    c1n == spec_nibble(q.2, gidx),
                    c2n == spec_nibble(q.3, gidx),
                    pairs@.take(k as int + 1).drop_last() =~= pairs@.take(k as int),
                    pairs@.take(k as int + 1).last() == pairs@[k as int],
                    forall|j: int|
                        0 <= j < cand ==> (#[trigger] counts@[j]) as int == spec_diff_count(
                            pairs@.take(k as int + 1),
                            delta_p,
                            du_nib,
                            gidx,
                            j as u16,
                        ),
                    forall|j: int|
                        cand <= j < 16 ==> (#[trigger] counts@[j]) as int == spec_diff_count(
                            pairs@.take(k as int),
                            delta_p,
                            du_nib,
                            gidx,
                            j as u16,
                        ),
                    forall|j: int| 0 <= j < cand ==> #[trigger] counts@[j] <= k + 1,
                    forall|j: int| cand <= j < 16 ==> #[trigger] counts@[j] <= k,
                decreases 16 - cand,
            {
                let v1 = sbox_inv_lookup(c1n ^ (cand as u16));
                let v2 = sbox_inv_lookup(c2n ^ (cand as u16));
                if v1 ^ v2 == du_nib {
                    counts[cand] = counts[cand] + 1;
                }
                cand = cand + 1;
            }
        }
        k = k + 1;
    }
    proof {
        assert(pairs@.take(n as int) =~= pairs@);
    }
    if survivors == 0 {
        return Err(SpnError::NoSurvivingPairs);
    }

    let c0 = counts[0];
    let mut best: usize = 0;
    let mut best_count: usize = c0;
    let mut cand: usize = 1;
    while cand < 16
        invariant
            n == pairs@.len(),
            counts@.len() == 16,
            gidx == nibble_idx as int,
            du_nib == spec_nibble(delta_u, gidx),
            1 <= cand <= 16,
            best < cand,
            forall|j: int|
                0 <= j < 16 ==> (#[trigger] counts@[j]) as int == spec_diff_count(
                    pairs@,
                    delta_p,
                    du_nib,
                    gidx,
                    j as u16,
                ),
            best_count as int == spec_diff_count(pairs@, delta_p, du_nib, gidx, best as u16),
            forall|c: u16|
                c < cand ==> #[trigger] spec_diff_count(pairs@, delta_p, du_nib, gidx, c)
                    <= best_count as int,
            forall|c: u16|
                c < best ==> #[trigger] spec_diff_count(pairs@, delta_p, du_nib, gidx, c)
                    < best_count as int,
        decreases 16 - cand,
    {
        let cc = counts[cand];
        if cc > best_count {
            best = cand;
            best_count = cc;
        }
        cand = cand + 1;
    }
    Ok(best as u8)
}

} // verus!
