//! The period detector: iterate the stepper until the pattern returns to its
//! initial state, and fail on runs that exceed the ceiling or re-enter the
//! run anywhere but at the seed.

use vstd::prelude::*;
use crate::life::{Pattern, step_pat, step_rel, bounded};
use crate::Error;

verus! {

/// Coordinates of seed cells must stay within this limit so that a run of
/// steps can never leave the machine integer range.
pub const SEED_LIMIT: i64 = 0x1000_0000;

/// Coordinates of any phase stay within this limit: a seed within
/// `SEED_LIMIT` grows by at most one cell per step for at most 1000 steps.
pub const PHASE_LIMIT: i64 = 0x1000_0000 + 1000;

/// The most steps the detector takes before it gives up.
pub const PERIOD_CEILING: usize = 1000;

/// A run of B3/S23 generations starting at `s`, pairwise distinct in
/// canonical form.
pub open spec fn distinct_run(chain: Seq<Seq<(i64, i64)>>, s: Seq<(i64, i64)>) -> bool {
    &&& chain.len() >= 1
    &&& chain[0] == s
    &&& forall|i: int| 0 <= i < chain.len() - 1 ==> step_rel(#[trigger] chain[i], chain[i + 1])
    &&& forall|i: int, j: int|
        0 <= i < j < chain.len() ==> #[trigger] chain[i] != #[trigger] chain[j]
}

/// A run whose next generation re-enters the run at `t`, past the seed: the
/// seed lies on a tail, not on the cycle.
pub open spec fn rho_witness(chain: Seq<Seq<(i64, i64)>>, t: int, s: Seq<(i64, i64)>) -> bool {
    &&& distinct_run(chain, s)
    &&& 1 <= t < chain.len()
    &&& step_rel(chain[chain.len() - 1], chain[t])
}

/// The phase sequence of an oscillating seed: it starts at the seed, each
/// pattern steps to the next, the last steps back to the seed, and all
/// phases are pairwise distinct in canonical form.
pub open spec fn phases_of(pats: Seq<Pattern>, seed: Seq<(i64, i64)>) -> bool {
    &&& 1 <= pats.len() <= PERIOD_CEILING as int
    &&& pats[0].cells@ == seed
    &&& forall|i: int| 0 <= i < pats.len() ==> (#[trigger] pats[i]).wf()
    &&& forall|i: int|
        0 <= i < pats.len() - 1 ==> step_rel((#[trigger] pats[i]).cells@, pats[i + 1].cells@)
    &&& step_rel(pats[pats.len() - 1].cells@, pats[0].cells@)
    &&& forall|i: int, j: int|
        0 <= i < j < pats.len() ==> (#[trigger] pats[i]).cells@ != (#[trigger] pats[j]).cells@
}

/// A run that re-enters itself past its start yields a rho witness.
proof fn lemma_rho_witness(pats: Seq<Pattern>, cur: Seq<(i64, i64)>, t: int, seed: Seq<(i64, i64)>)
    requires
        1 <= t < pats.len(),
        pats[0].cells@ == seed,
        forall|i: int|
            0 <= i < pats.len() - 1 ==> step_rel((#[trigger] pats[i]).cells@, pats[i + 1].cells@),
        step_rel(pats[pats.len() - 1].cells@, cur),
        forall|i: int, j: int|
            0 <= i < j < pats.len() ==> (#[trigger] pats[i]).cells@ != (#[trigger] pats[j]).cells@,
        pats[t].cells@ == cur,
    ensures
        exists|chain: Seq<Seq<(i64, i64)>>, tt: int| #[trigger] rho_witness(chain, tt, seed),
{
    let chain = pats.map_values(|p: Pattern| p.cells@);
    assert forall|i: int|
        0 <= i < chain.len() - 1 implies step_rel(#[trigger] chain[i], chain[i + 1]) by {
        assert(chain[i] == pats[i].cells@ && chain[i + 1] == pats[i + 1].cells@);
        assert(step_rel(pats[i].cells@, pats[i + 1].cells@));
    }
    assert forall|i: int, j: int|
        0 <= i < j < chain.len() implies #[trigger] chain[i] != #[trigger] chain[j] by {
        assert(chain[i] == pats[i].cells@ && chain[j] == pats[j].cells@);
    }
    assert(chain[0] == pats[0].cells@);
    assert(distinct_run(chain, seed));
    assert(chain[chain.len() - 1] == pats[pats.len() - 1].cells@);
    assert(chain[t] == pats[t].cells@);
    assert(step_rel(chain[chain.len() - 1], chain[t]));
    assert(rho_witness(chain, t, seed));
}

/// A distinct run one longer than the ceiling yields an overflow witness.
proof fn lemma_ceiling_witness(pats: Seq<Pattern>, cur: Seq<(i64, i64)>, seed: Seq<(i64, i64)>)
    requires
        pats.len() == PERIOD_CEILING,
        pats[0].cells@ == seed,
        forall|i: int|
            0 <= i < pats.len() - 1 ==> step_rel((#[trigger] pats[i]).cells@, pats[i + 1].cells@),
        step_rel(pats[pats.len() - 1].cells@, cur),
        forall|i: int, j: int|
            0 <= i < j < pats.len() ==> (#[trigger] pats[i]).cells@ != (#[trigger] pats[j]).cells@,
        forall|m: int| 0 <= m < pats.len() ==> (#[trigger] pats[m]).cells@ != cur,
    ensures
        exists|chain: Seq<Seq<(i64, i64)>>|
            #[trigger] distinct_run(chain, seed) && chain.len() > PERIOD_CEILING as int,
{
    let chain = pats.map_values(|p: Pattern| p.cells@).push(cur);
    assert forall|i: int|
        0 <= i < chain.len() - 1 implies step_rel(#[trigger] chain[i], chain[i + 1]) by {
        if i < pats.len() - 1 {
            assert(chain[i] == pats[i].cells@ && chain[i + 1] == pats[i + 1].cells@);
            assert(step_rel(pats[i].cells@, pats[i + 1].cells@));
        } else {
            assert(chain[i] == pats[pats.len() - 1].cells@ && chain[i + 1] == cur);
        }
    }
    assert forall|i: int, j: int|
        0 <= i < j < chain.len() implies #[trigger] chain[i] != #[trigger] chain[j] by {
        if j < pats.len() {
            assert(chain[i] == pats[i].cells@ && chain[j] == pats[j].cells@);
        } else {
            assert(chain[j] == cur);
            assert(chain[i] == pats[i].cells@);
            assert(pats[i].cells@ != cur);
        }
    }
    assert(chain[0] == pats[0].cells@);
    assert(distinct_run(chain, seed));
}

/// Whether two patterns hold the same cell list.
pub fn cells_eq(a: &Pattern, b: &Pattern) -> (r: bool)
    ensures
        r == (a.cells@ == b.cells@),
{
    if a.cells.len() != b.cells.len() {
        return false;
    }
    let mut k: usize = 0;
    while k < a.cells.len()
        invariant
            a.cells@.len() == b.cells@.len(),
            k <= a.cells@.len(),
            forall|m: int| 0 <= m < k ==> a.cells@[m] == b.cells@[m],
        decreases a.cells@.len() - k,
    {
        let ca = a.cells[k];
        let cb = b.cells[k];
        if !(ca.0 == cb.0 && ca.1 == cb.1) {
            return false;
        }
        k += 1;
    }
    proof {
        assert(a.cells@ =~= b.cells@);
    }
    true
}

/// Iterate the stepper from the seed until a generation recurs. The run must
/// re-enter at the seed itself within the ceiling; the result is the phase
/// sequence `pats[0..P)` with `step(pats[i]) = pats[(i+1) % P]`, all phases
/// pairwise distinct in canonical form.
#[verifier::rlimit(100)]
#[verifier::spinoff_prover]
pub fn detect_period(seed: &Pattern) -> (r: Result<Vec<Pattern>, Error>)
    requires
        seed.wf(),
        bounded(seed.cells@, SEED_LIMIT as int),
    ensures
        match r {
            Ok(pats) => {
                &&& 1 <= pats@.len() <= PERIOD_CEILING as int
                &&& pats@[0].cells@ == seed.cells@
                &&& forall|i: int| 0 <= i < pats@.len() ==> (#[trigger] pats@[i]).wf()
                &&& forall|i: int|
                    0 <= i < pats@.len() ==> bounded(
                        (#[trigger] pats@[i]).cells@,
                        PHASE_LIMIT as int,
                    )
                &&& forall|i: int|
                    0 <= i < pats@.len() - 1 ==> step_rel(
                        (#[trigger] pats@[i]).cells@,
                        pats@[i + 1].cells@,
                    )
                &&& step_rel(pats@[pats@.len() - 1].cells@, pats@[0].cells@)
                &&& forall|i: int, j: int|
                    0 <= i < j < pats@.len() ==> (#[trigger] pats@[i]).cells@ != (
                    #[trigger] pats@[j]).cells@
            },
            Err(e) => {
                &&& (e == Error::PeriodBoundExceeded || e == Error::NonCyclingSeed)
                &&& (e == Error::PeriodBoundExceeded ==> exists|chain: Seq<Seq<(i64, i64)>>|
                    #[trigger] distinct_run(chain, seed.cells@) && chain.len() > PERIOD_CEILING
                        as int)
                &&& (e == Error::NonCyclingSeed ==> exists|chain: Seq<Seq<(i64, i64)>>, t: int|
                    #[trigger] rho_witness(chain, t, seed.cells@))
            },
        },
{
    let mut pats: Vec<Pattern> = Vec::new();
    let mut pat: Pattern = seed.duplicate();
    loop
        invariant
            seed.wf(),
            bounded(seed.cells@, SEED_LIMIT as int),
            pat.wf(),
            pats@.len() <= PERIOD_CEILING,
            bounded(pat.cells@, SEED_LIMIT + pats@.len()),
            pats@.len() == 0 ==> pat.cells@ == seed.cells@,
            pats@.len() > 0 ==> pats@[0].cells@ == seed.cells@,
            forall|i: int| 0 <= i < pats@.len() ==> (#[trigger] pats@[i]).wf(),
            forall|i: int|
                0 <= i < pats@.len() ==> bounded((#[trigger] pats@[i]).cells@, SEED_LIMIT + i),
            forall|i: int|
                0 <= i < pats@.len() - 1 ==> step_rel(
                    (#[trigger] pats@[i]).cells@,
                    pats@[i + 1].cells@,
                ),
            pats@.len() > 0 ==> step_rel(pats@[pats@.len() - 1].cells@, pat.cells@),
            forall|i: int, j: int|
                0 <= i < j < pats@.len() ==> (#[trigger] pats@[i]).cells@ != (
                #[trigger] pats@[j]).cells@,
        decreases PERIOD_CEILING + 1 - pats@.len(),
    {
        // look for the current generation among the earlier ones
        let mut t: usize = 0;
        while t < pats.len()
            invariant
                t <= pats@.len(),
                forall|m: int| 0 <= m < t ==> (#[trigger] pats@[m]).cells@ != pat.cells@,
                seed.wf(),
                bounded(seed.cells@, SEED_LIMIT as int),
                pat.wf(),
                pats@.len() <= PERIOD_CEILING,
                bounded(pat.cells@, SEED_LIMIT + pats@.len()),
                pats@.len() == 0 ==> pat.cells@ == seed.cells@,
                pats@.len() > 0 ==> pats@[0].cells@ == seed.cells@,
                forall|i: int| 0 <= i < pats@.len() ==> (#[trigger] pats@[i]).wf(),
                forall|i: int|
                    0 <= i < pats@.len() ==> bounded((#[trigger] pats@[i]).cells@, SEED_LIMIT + i),
                forall|i: int|
                    0 <= i < pats@.len() - 1 ==> step_rel(
                        (#[trigger] pats@[i]).cells@,
                        pats@[i + 1].cells@,
                    ),
                pats@.len() > 0 ==> step_rel(pats@[pats@.len() - 1].cells@, pat.cells@),
                forall|i: int, j: int|
                    0 <= i < j < pats@.len() ==> (#[trigger] pats@[i]).cells@ != (
                    #[trigger] pats@[j]).cells@,
            decreases pats@.len() - t,
        {
            if cells_eq(&pats[t], &pat) {
                if t == 0 {
                    proof {
                        assert(step_rel(pats@[pats@.len() - 1].cells@, pats@[0].cells@));
                    }
                    return Ok(pats);
                } else {
                    proof {
                        lemma_rho_witness(pats@, pat.cells@, t as int, seed.cells@);
                    }
                    return Err(Error::NonCyclingSeed);
                }
            }
            t += 1;
        }
        if pats.len() >= PERIOD_CEILING {
            proof {
                lemma_ceiling_witness(pats@, pat.cells@, seed.cells@);
            }
            return Err(Error::PeriodBoundExceeded);
        }
        let next = step_pat(&pat);
        let ghost old_pats = pats@;
        pats.push(pat);
        proof {
            assert(bounded(pats@[pats@.len() - 1].cells@, SEED_LIMIT + pats@.len() - 1));
            assert(bounded(next.cells@, SEED_LIMIT + pats@.len()));
        }
        pat = next;
    }
}

} // verus!
