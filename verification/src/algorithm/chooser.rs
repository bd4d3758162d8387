//! Move selectors: turning a list of candidates with weights into one chosen
//! candidate. The greedy selector takes the best weight deterministically;
//! the stochastic selector samples with probability growing exponentially in
//! the weight (base 10 per weight unit), so that a weight of negative
//! infinity is never viable. When every weight is negative infinity the
//! distribution would be undefined; that case is resolved explicitly as a
//! uniform choice among the candidates.

use vstd::prelude::*;

use crate::board::Mv;
use rand::distributions::Distribution;

verus! {

/// The weight standing in for negative infinity: a candidate so weighted
/// gets sampling mass zero.
pub const NEG_INF_WEIGHT: i64 = i64::MIN;

/// How many weight units of distance from the best weight keep a positive
/// sampling mass: the mass spans ten powers of ten.
pub const MASS_EXP_LIMIT: i64 = 9;

// ---------------------------------------------------------------------------
// Greedy selection
// ---------------------------------------------------------------------------

/// The index of the greatest weight, ties going to the earliest occurrence.
pub open spec fn first_argmax(ws: Seq<i64>) -> int
    decreases ws.len(),
{
    if ws.len() <= 1 {
        0
    } else {
        let p = first_argmax(ws.drop_last());
        if ws.last() > ws[p] {
            ws.len() - 1
        } else {
            p
        }
    }
}

/// Greedy determinism: `first_argmax` names an index whose weight no other
/// index exceeds, and every earlier index is strictly worse — so a uniquely
/// greatest weight is always the one picked.
pub proof fn lemma_first_argmax(ws: Seq<i64>)
    requires
        ws.len() > 0,
    ensures
        0 <= first_argmax(ws) < ws.len(),
        forall|j: int| 0 <= j < ws.len() ==> #[trigger] ws[j] <= ws[first_argmax(ws)],
        forall|j: int| 0 <= j < first_argmax(ws) ==> #[trigger] ws[j] < ws[first_argmax(ws)],
    decreases ws.len(),
{
    if ws.len() > 1 {
        let dl = ws.drop_last();
        lemma_first_argmax(dl);
        let p = first_argmax(dl);
        assert(dl[p] == ws[p]);
        assert forall|j: int| 0 <= j < ws.len() implies #[trigger] ws[j] <= ws[first_argmax(ws)] by {
            if j < ws.len() - 1 {
                assert(dl[j] == ws[j]);
            }
        }
        assert forall|j: int| 0 <= j < first_argmax(ws) implies #[trigger] ws[j] < ws[first_argmax(ws)] by {
            if j < ws.len() - 1 {
                assert(dl[j] == ws[j]);
            }
        }
    }
}

/// The deterministic selector: the best weight wins, first occurrence on
/// ties.
#[derive(Clone, Copy, Debug, Default)]
pub struct GreedyChooser;

impl GreedyChooser {
    /// Pick the candidate paired with the greatest weight; ties are broken
    /// by first occurrence in input order. Returns `None` only for an empty
    /// candidate list.
    pub fn pick(&self, choices: &Vec<Mv>, weights: &Vec<i64>) -> (r: Option<Mv>)
        requires
            choices@.len() == weights@.len(),
        ensures
            r is None <==> choices@.len() == 0,
            choices@.len() > 0 ==> r == Some(choices@[first_argmax(weights@)]),
    {
        if choices.len() == 0 {
            return None;
        }
        proof {
            assert(first_argmax(weights@.subrange(0, 1)) == 0);
        }
        let mut best_i: usize = 0;
        let mut i: usize = 1;
        while i < weights.len()
            invariant
                choices@.len() == weights@.len(),
                weights@.len() > 0,
                1 <= i <= weights@.len(),
                best_i < i,
                best_i as int == first_argmax(weights@.subrange(0, i as int)),
            decreases weights@.len() - i,
        {
            proof {
                assert(weights@.subrange(0, i + 1).drop_last() =~= weights@.subrange(0, i as int));
                assert(weights@.subrange(0, i + 1).last() == weights@[i as int]);
                lemma_first_argmax(weights@.subrange(0, i as int));
            }
            if weights[i] > weights[best_i] {
                best_i = i;
            }
            i = i + 1;
        }
        proof {
            assert(weights@.subrange(0, weights@.len() as int) =~= weights@);
        }
        Some(choices[best_i])
    }
}

// ---------------------------------------------------------------------------
// Stochastic selection
// ---------------------------------------------------------------------------

pub open spec fn pow10(e: nat) -> int
    decreases e,
{
    if e == 0 {
        1
    } else {
        10 * pow10((e - 1) as nat)
    }
}

pub proof fn lemma_pow10_le(e: nat, f: nat)
    requires
        e <= f,
    ensures
        1 <= pow10(e) <= pow10(f),
    decreases f,
{
    if f > 0 {
        if e == f {
            lemma_pow10_le((e - 1) as nat, (f - 1) as nat);
        } else {
            lemma_pow10_le(e, (f - 1) as nat);
        }
    }
}

pub proof fn lemma_pow10_bounds(e: nat)
    ensures
        1 <= pow10(e),
        e <= 9 ==> pow10(e) <= 1000000000,
    decreases e,
{
    lemma_pow10_le(0, e);
    if e <= 9 {
        lemma_pow10_le(e, 9);
        assert(pow10(9) == 1000000000) by {
            reveal_with_fuel(pow10, 11);
        }
    }
}

/// The unnormalised sampling mass of candidate `i`: zero for a weight of
/// negative infinity or for one further than `MASS_EXP_LIMIT` units below
/// the best weight, else ten to the limit minus that distance.
pub open spec fn mass_of(ws: Seq<i64>, i: int) -> int {
    if ws[i] == NEG_INF_WEIGHT {
        0
    } else {
        let d = ws[first_argmax(ws)] - ws[i];
        if d > MASS_EXP_LIMIT {
            0
        } else {
            pow10((MASS_EXP_LIMIT - d) as nat)
        }
    }
}

/// The total sampling mass of the first `n` candidates.
pub open spec fn mass_sum(ws: Seq<i64>, n: int) -> int
    decreases n,
{
    if n <= 0 {
        0
    } else {
        mass_sum(ws, n - 1) + mass_of(ws, n - 1)
    }
}

/// Exactly the candidate at `k` has a weight above negative infinity.
pub open spec fn sole_viable(ws: Seq<i64>, k: int) -> bool {
    &&& 0 <= k < ws.len()
    &&& ws[k] != NEG_INF_WEIGHT
    &&& forall|j: int| 0 <= j < ws.len() && j != k ==> ws[j] == NEG_INF_WEIGHT
}

/// When every mass but `k`'s is zero, the total is `k`'s mass.
proof fn lemma_mass_sum_single(ws: Seq<i64>, n: int, k: int)
    requires
        0 <= k,
        k < n,
        forall|j: int| 0 <= j < n && j != k ==> mass_of(ws, j) == 0,
    ensures
        mass_sum(ws, n) == mass_of(ws, k),
    decreases n,
{
    if n - 1 == k {
        lemma_mass_sum_zero(ws, n - 1, k);
    } else {
        lemma_mass_sum_single(ws, n - 1, k);
    }
}

/// When every mass below `n` is zero (a hole at `k` outside the range is
/// allowed), the total below `n` is zero.
proof fn lemma_mass_sum_zero(ws: Seq<i64>, n: int, k: int)
    requires
        forall|j: int| 0 <= j < n && j != k ==> mass_of(ws, j) == 0,
        k >= n,
    ensures
        mass_sum(ws, n) == 0,
    decreases n,
{
    if n > 0 {
        lemma_mass_sum_zero(ws, n - 1, k);
    }
}

/// The total over the first `n` elements of a mass vector that matches
/// `mass_of` elementwise.
pub open spec fn sum_u64(v: Seq<u64>) -> int
    decreases v.len(),
{
    if v.len() == 0 {
        0
    } else {
        sum_u64(v.drop_last()) + v.last()
    }
}

proof fn lemma_sum_bridge(v: Seq<u64>, ws: Seq<i64>)
    requires
        forall|i: int| 0 <= i < v.len() ==> v[i] as int == mass_of(ws, i),
    ensures
        sum_u64(v) == mass_sum(ws, v.len() as int),
    decreases v.len(),
{
    if v.len() > 0 {
        let dl = v.drop_last();
        assert(forall|i: int| 0 <= i < dl.len() ==> dl[i] == v[i]);
        lemma_sum_bridge(dl, ws);
        assert(mass_sum(ws, v.len() as int) == mass_sum(ws, v.len() - 1) + mass_of(
            ws,
            v.len() - 1,
        ));
    }
}

/// Ten to a small power.
fn pow10_u64(e: u64) -> (r: u64)
    requires
        e <= 9,
    ensures
        r as int == pow10(e as nat),
        1 <= r <= 1000000000,
{
    proof {
        reveal_with_fuel(pow10, 11);
    }
    if e == 0 {
        1
    } else if e == 1 {
        10
    } else if e == 2 {
        100
    } else if e == 3 {
        1000
    } else if e == 4 {
        10000
    } else if e == 5 {
        100000
    } else if e == 6 {
        1000000
    } else if e == 7 {
        10000000
    } else if e == 8 {
        100000000
    } else {
        1000000000
    }
}

/// The index of the greatest weight, by a forward scan.
fn argmax_index(weights: &Vec<i64>) -> (r: usize)
    requires
        weights@.len() > 0,
    ensures
        r < weights@.len(),
        r as int == first_argmax(weights@),
{
    proof {
        assert(first_argmax(weights@.subrange(0, 1)) == 0);
    }
    let mut best_i: usize = 0;
    let mut i: usize = 1;
    while i < weights.len()
        invariant
            weights@.len() > 0,
            1 <= i <= weights@.len(),
            best_i < i,
            best_i as int == first_argmax(weights@.subrange(0, i as int)),
        decreases weights@.len() - i,
    {
        proof {
            assert(weights@.subrange(0, i + 1).drop_last() =~= weights@.subrange(0, i as int));
            assert(weights@.subrange(0, i + 1).last() == weights@[i as int]);
            lemma_first_argmax(weights@.subrange(0, i as int));
        }
        if weights[i] > weights[best_i] {
            best_i = i;
        }
        i = i + 1;
    }
    proof {
        assert(weights@.subrange(0, weights@.len() as int) =~= weights@);
    }
    best_i
}

/// The sampling masses of all candidates.
fn masses(weights: &Vec<i64>) -> (r: Vec<u64>)
    requires
        weights@.len() > 0,
    ensures
        r@.len() == weights@.len(),
        forall|i: int| 0 <= i < r@.len() ==> (#[trigger] r@[i]) as int == mass_of(weights@, i),
{
    let top_i = argmax_index(weights);
    let top = weights[top_i];
    proof {
        lemma_first_argmax(weights@);
    }
    let mut out: Vec<u64> = Vec::new();
    let mut i: usize = 0;
    while i < weights.len()
        invariant
            i <= weights@.len(),
            weights@.len() > 0,
            top_i as int == first_argmax(weights@),
            top == weights@[top_i as int],
            forall|j: int| 0 <= j < weights@.len() ==> weights@[j] <= top,
            out@.len() == i,
            forall|j: int| 0 <= j < i ==> (#[trigger] out@[j]) as int == mass_of(weights@, j),
        decreases weights@.len() - i,
    {
        let w = weights[i];
        if w == NEG_INF_WEIGHT {
            out.push(0);
        } else {
            let d: i128 = top as i128 - w as i128;
            if d > MASS_EXP_LIMIT as i128 {
                out.push(0);
            } else {
                let e = (MASS_EXP_LIMIT as i128 - d) as u64;
                out.push(pow10_u64(e));
            }
        }
        i = i + 1;
    }
    out
}

/// The total mass, summed without overflow.
fn total_mass(v: &Vec<u64>) -> (r: u128)
    ensures
        r as int == sum_u64(v@),
{
    let mut acc: u128 = 0;
    let mut i: usize = 0;
    let n = v.len();
    proof {
        assert(usize::MAX as int <= u64::MAX as int);
    }
    while i < n
        invariant
            i <= n,
            n == v@.len(),
            acc as int == sum_u64(v@.subrange(0, i as int)),
            acc as int <= i * (u64::MAX as int),
        decreases n - i,
    {
        proof {
            assert(v@.subrange(0, i + 1).drop_last() =~= v@.subrange(0, i as int));
            assert(v@.subrange(0, i + 1).last() == v@[i as int]);
        }
        acc = acc + v[i] as u128;
        i = i + 1;
    }
    proof {
        assert(v@.subrange(0, v@.len() as int) =~= v@);
    }
    acc
}

/// Relies on `rand::distributions::WeightedIndex` with `thread_rng`: with a
/// positive total weight that fits the weight type, construction succeeds
/// and sampling returns an index whose weight is positive.
#[verifier::external_body]
fn sample_weighted(weights: &Vec<u64>) -> (r: usize)
    requires
        sum_u64(weights@) > 0,
        sum_u64(weights@) <= u64::MAX,
    ensures
        r < weights@.len(),
        weights@[r as int] > 0,
{
    let dist = rand::distributions::WeightedIndex::new(weights.iter()).unwrap();
    dist.sample(&mut rand::thread_rng())
}

/// Relies on `rand::Rng::gen_range`, which panics only on an empty range
/// and returns a value within the range.
#[verifier::external_body]
fn random_below(n: usize) -> (r: usize)
    requires
        n > 0,
    ensures
        r < n,
{
    rand::Rng::gen_range(&mut rand::thread_rng(), 0..n)
}

/// The probabilistic selector: weights are reweighted exponentially
/// (base 10) and one candidate is sampled in proportion.
#[derive(Clone, Copy, Debug, Default)]
pub struct StochasticChooser;

impl StochasticChooser {
    /// Sample a candidate with probability proportional to its mass. Returns
    /// `None` only for an empty candidate list. When the total mass is
    /// positive (and representable) the sampled candidate always has
    /// positive mass; in particular, when exactly one candidate is above
    /// negative infinity, that candidate is returned with certainty. When
    /// every candidate is at negative infinity the choice is uniform.
    pub fn pick(&self, choices: &Vec<Mv>, weights: &Vec<i64>) -> (r: Option<Mv>)
        requires
            choices@.len() == weights@.len(),
        ensures
            r is None <==> choices@.len() == 0,
            choices@.len() > 0 ==> exists|k: int| 0 <= k < choices@.len() && r == Some(choices@[k]),
            0 < mass_sum(weights@, weights@.len() as int) <= u64::MAX ==> exists|k: int|
                0 <= k < choices@.len() && r == Some(choices@[k]) && mass_of(weights@, k) > 0,
            forall|k: int| sole_viable(weights@, k) ==> r == Some(choices@[k]),
    {
        if choices.len() == 0 {
            return None;
        }
        let ghost ws = weights@;
        let m = masses(weights);
        let total = total_mass(&m);
        proof {
            lemma_sum_bridge(m@, ws);
            if exists|k: int| sole_viable(ws, k) {
                let k = choose|k: int| sole_viable(ws, k);
                lemma_sole_viable_mass(ws, k);
                lemma_mass_sum_single(ws, ws.len() as int, k);
            }
        }
        if 0 < total && total <= u64::MAX as u128 {
            let idx = sample_weighted(&m);
            proof {
                if exists|k: int| sole_viable(ws, k) {
                    let k = choose|k: int| sole_viable(ws, k);
                    lemma_sole_viable_mass(ws, k);
                    assert(mass_of(ws, idx as int) > 0);
                    assert(idx as int == k);
                }
            }
            Some(choices[idx])
        } else {
            proof {
                if exists|k: int| sole_viable(ws, k) {
                    let k = choose|k: int| sole_viable(ws, k);
                    lemma_sole_viable_mass(ws, k);
                    lemma_mass_sum_single(ws, ws.len() as int, k);
                    assert(false);
                }
            }
            let idx = random_below(choices.len());
            Some(choices[idx])
        }
    }
}

/// A sole viable candidate holds the whole mass: ten to the exponent limit,
/// positive and within range; every other candidate's mass is zero.
proof fn lemma_sole_viable_mass(ws: Seq<i64>, k: int)
    requires
        sole_viable(ws, k),
    ensures
        mass_of(ws, k) == pow10(MASS_EXP_LIMIT as nat),
        1 <= mass_of(ws, k) <= 1000000000,
        forall|j: int| 0 <= j < ws.len() && j != k ==> mass_of(ws, j) == 0,
{
    lemma_first_argmax(ws);
    let fa = first_argmax(ws);
    if fa != k {
        assert(ws[fa] == NEG_INF_WEIGHT);
        assert(ws[k] <= ws[fa]);
        assert(false);
    }
    assert(ws[fa] - ws[k] == 0);
    lemma_pow10_bounds(MASS_EXP_LIMIT as nat);
}

} // verus!

