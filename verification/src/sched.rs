//! The strip-improvement scheduler: enumerate the strips, keep a
//! deduplicating work queue, run the strip search on each popped strip, and
//! adopt a result only when it strictly lowers the live-cell count while
//! keeping every phase transition and the dead margin intact. Strips whose
//! band saw a changed cell are re-enqueued, and the loop ends when the queue
//! drains.

use vstd::prelude::*;
use crate::frame::{Frame, Grid, grid_count, grid_from_pattern, lemma_grid_count_le,
    lemma_count_equal, margins_dead, normalize_post, normalize, PAD_LIMIT};
use crate::allowed::{AllowedTable, compile_allowed};
use crate::check::{consistent, rotor_agrees, check_consistent, check_margins};
use crate::queue::Queue;
use crate::strip::Strip;
use crate::support::shuffle_strips;
use crate::life::{Pattern, bounded};
use crate::period::{detect_period, phases_of, distinct_run, rho_witness, SEED_LIMIT,
    PERIOD_CEILING};
use crate::Error;

verus! {

broadcast use vstd::seq_lib::lemma_seq_contains_after_push;

/// The horizontal strip candidates for a frame of height `h` and mutable
/// thickness `len - 4`: every translation that fits, or one full-axis strip.
pub open spec fn horiz_strips(h: int, len: int) -> Seq<Strip> {
    if len <= h {
        Seq::new((h - len + 1) as nat, |i: int| Strip::Horizontal(i as usize, (i + len) as usize))
    } else {
        seq![Strip::Horizontal(0, h as usize)]
    }
}

/// The vertical strip candidates for a frame of width `w`.
pub open spec fn vert_strips(w: int, len: int) -> Seq<Strip> {
    if len <= w {
        Seq::new((w - len + 1) as nat, |i: int| Strip::Vertical(i as usize, (i + len) as usize))
    } else {
        seq![Strip::Vertical(0, w as usize)]
    }
}

/// Enumerate the strip candidates of both axes.
pub fn enumerate_strips(w: usize, h: usize, search_max: usize) -> (r: Vec<Strip>)
    requires
        5 <= w <= 2048,
        5 <= h <= 2048,
        1 <= search_max <= 2048,
    ensures
        r@ == horiz_strips(h as int, search_max + 4) + vert_strips(w as int, search_max + 4),
        forall|k: int| 0 <= k < r@.len() ==> (#[trigger] r@[k]).valid(w as int, h as int),
{
    let len = search_max + 4;
    let mut r: Vec<Strip> = Vec::new();
    if len <= h {
        let mut i: usize = 0;
        while i <= h - len
            invariant
                len <= h,
                i <= h - len + 1,
                len == search_max + 4,
                r@.len() == i,
                forall|k: int| 0 <= k < i ==> #[trigger] r@[k] == Strip::Horizontal(
                    k as usize,
                    (k + len) as usize,
                ),
            decreases h - len + 1 - i,
        {
            r.push(Strip::Horizontal(i, i + len));
            i += 1;
        }
    } else {
        r.push(Strip::Horizontal(0, h));
    }
    proof {
        let hs = horiz_strips(h as int, len as int);
        assert forall|k: int| 0 <= k < r@.len() implies r@[k] == hs[k] by {}
        assert(r@ =~= hs);
    }
    let ghost nh = r@.len();
    if len <= w {
        let mut i: usize = 0;
        while i <= w - len
            invariant
                len <= w,
                i <= w - len + 1,
                len == search_max + 4,
                r@.len() == nh + i,
                forall|k: int| 0 <= k < nh ==> r@[k] == horiz_strips(h as int, len as int)[k],
                forall|k: int| 0 <= k < i ==> #[trigger] r@[nh + k] == Strip::Vertical(
                    k as usize,
                    (k + len) as usize,
                ),
            decreases w - len + 1 - i,
        {
            r.push(Strip::Vertical(i, i + len));
            i += 1;
        }
    } else {
        r.push(Strip::Vertical(0, w));
    }
    proof {
        let hs = horiz_strips(h as int, len as int);
        let vs = vert_strips(w as int, len as int);
        assert forall|k: int| 0 <= k < r@.len() implies r@[k] == (hs + vs)[k] by {
            if k < nh {
                assert(r@[k] == hs[k]);
            } else {
                if len <= w {
                    assert(r@[nh + (k - nh)] == Strip::Vertical(
                        (k - nh) as usize,
                        ((k - nh) + len) as usize,
                    ));
                }
                assert(r@[k] == vs[k - nh]);
            }
        }
        assert(r@ =~= hs + vs);
        assert forall|k: int| 0 <= k < r@.len() implies (#[trigger] r@[k]).valid(
            w as int,
            h as int,
        ) by {}
    }
    r
}

/// An element-wise copy of a strip list.
pub fn clone_strips(v: &Vec<Strip>) -> (r: Vec<Strip>)
    ensures
        r@ == v@,
{
    let mut r: Vec<Strip> = Vec::new();
    let mut k: usize = 0;
    while k < v.len()
        invariant
            k <= v@.len(),
            r@ == v@.subrange(0, k as int),
        decreases v@.len() - k,
    {
        r.push(v[k]);
        proof {
            assert(r@ =~= v@.subrange(0, k + 1 as int));
        }
        k += 1;
    }
    proof {
        assert(r@ =~= v@);
    }
    r
}

/// Run the scheduler to quiescence. The result keeps every phase transition
/// and the dead margin, agrees with phase 0 on every rotor cell, and never
/// holds more live cells than the starting pattern: the live-cell count is
/// non-increasing across every iteration of the loop.
#[verifier::loop_isolation(false)]
#[verifier::rlimit(100)]
pub fn run_scheduler(f: &Frame, tbl: &AllowedTable, all_strips: &Vec<Strip>, pat1: Grid) -> (r:
    Result<Grid, Error>)
    requires
        f.wf(),
        tbl.wf(),
        tbl.w == f.w,
        tbl.h == f.h,
        pat1.wf(),
        pat1.w == f.w,
        pat1.h == f.h,
        margins_dead(pat1),
        consistent(*f, pat1),
        rotor_agrees(*f, pat1),
        forall|k: int|
            0 <= k < all_strips@.len() ==> (#[trigger] all_strips@[k]).valid(
                f.w as int,
                f.h as int,
            ),
    ensures
        match r {
            Ok(g) => {
                &&& g.wf()
                &&& g.w == f.w
                &&& g.h == f.h
                &&& margins_dead(g)
                &&& consistent(*f, g)
                &&& rotor_agrees(*f, g)
                &&& grid_count(g) <= grid_count(pat1)
            },
            Err(e) => e == Error::Infeasible || e == Error::ResourceCeiling,
        },
{
    proof {
        assert forall|s: Strip| all_strips@.contains(s) implies s.valid(f.w as int, f.h as int) by {
            let k = choose|k: int| 0 <= k < all_strips@.len() && all_strips@[k] == s;
        }
    }
    let mut init = clone_strips(all_strips);
    shuffle_strips(&mut init);
    let mut queue = Queue::new();
    let mut qi: usize = 0;
    while qi < init.len()
        invariant
            qi <= init@.len(),
            forall|s: Strip| init@.contains(s) ==> s.valid(f.w as int, f.h as int),
            forall|k: int|
                0 <= k < queue.items@.len() ==> (#[trigger] queue.items@[k]).valid(
                    f.w as int,
                    f.h as int,
                ),
        decreases init@.len() - qi,
    {
        proof {
            assert(init@.contains(init@[qi as int]));
        }
        queue.add(init[qi]);
        qi += 1;
    }
    let ghost orig = pat1;
    let mut cur = pat1;
    proof {
        lemma_grid_count_le(cur, cur.w as int);
    }
    loop
        invariant
            cur.wf(),
            cur.w == f.w,
            cur.h == f.h,
            margins_dead(cur),
            consistent(*f, cur),
            rotor_agrees(*f, cur),
            grid_count(cur) <= grid_count(orig),
            grid_count(cur) >= 0,
            forall|k: int|
                0 <= k < queue.items@.len() ==> (#[trigger] queue.items@[k]).valid(
                    f.w as int,
                    f.h as int,
                ),
        decreases grid_count(cur), queue.items@.len(),
    {
        let popped = queue.pop();
        let s: Strip = match popped {
            Option::None => { break ; },
            Option::Some(s) => s,
        };
        let p2 = match s.run(f, tbl, &cur) {
            Ok(p2) => p2,
            Err(e) => {
                return Err(e);
            },
        };
        let c2 = p2.count();
        let c1 = cur.count();
        if c2 < c1 && check_margins(&p2) && check_consistent(f, &p2) {
            proof {
                lemma_grid_count_le(p2, p2.w as int);
                // the searched pattern keeps every rotor cell of `cur`, so
                // it still agrees with phase 0 there
                assert forall|x: int, y: int|
                    0 <= x < f.w && 0 <= y < f.h && f.rotor.at(x, y) implies (#[trigger] p2.at(
                    x,
                    y,
                )) == f.pats@[0].at(x, y) by {
                    assert(p2.at(x, y) == cur.at(x, y));
                }
            }
            // re-enqueue every strip whose band saw a changed cell
            let mut cands: Vec<Strip> = Vec::new();
            let mut si: usize = 0;
            while si < all_strips.len()
                invariant
                    si <= all_strips@.len(),
                    forall|s2: Strip| cands@.contains(s2) ==> s2.valid(f.w as int, f.h as int),
                decreases all_strips@.len() - si,
            {
                let st = all_strips[si];
                let mut hit: bool = false;
                let mut xx: usize = 0;
                while xx < f.w
                    invariant
                        xx <= f.w,
                    decreases f.w - xx,
                {
                    let mut yy: usize = 0;
                    while yy < f.h
                        invariant
                            yy <= f.h,
                            xx < f.w,
                        decreases f.h - yy,
                    {
                        if cur.get(xx as i64, yy as i64) != p2.get(xx as i64, yy as i64)
                            && st.sees(xx, yy) {
                            hit = true;
                        }
                        yy += 1;
                    }
                    xx += 1;
                }
                if hit {
                    cands.push(st);
                }
                si += 1;
            }
            shuffle_strips(&mut cands);
            let mut ci: usize = 0;
            while ci < cands.len()
                invariant
                    ci <= cands@.len(),
                    forall|s2: Strip| cands@.contains(s2) ==> s2.valid(f.w as int, f.h as int),
                    forall|k: int|
                        0 <= k < queue.items@.len() ==> (#[trigger] queue.items@[k]).valid(
                            f.w as int,
                            f.h as int,
                        ),
                decreases cands@.len() - ci,
            {
                proof {
                    assert(cands@.contains(cands@[ci as int]));
                }
                queue.add(cands[ci]);
                ci += 1;
            }
            cur = p2;
        }
    }
    Ok(cur)
}

/// Phase 0 of the chain, read through the frame offsets, is the frame's own
/// phase-0 grid: same cells, same count, and it agrees with itself on the
/// rotor.
proof fn lemma_initial_grid(
    f: Frame,
    chain: Seq<Pattern>,
    forced: Seq<(i64, i64)>,
    pad: int,
    pat1: Grid,
)
    requires
        normalize_post(f, chain, forced, pad),
        f.wf(),
        f.pats@.len() == chain.len(),
        chain.len() >= 1,
        pat1.wf(),
        pat1.w == f.w,
        pat1.h == f.h,
        forall|x: int, y: int|
            0 <= x < f.w && 0 <= y < f.h ==> (#[trigger] pat1.at(x, y)) == chain[0].has(
                f.offx + x,
                f.offy + y,
            ),
    ensures
        forall|x: int, y: int|
            0 <= x < f.w && 0 <= y < f.h ==> (#[trigger] pat1.at(x, y)) == f.pats@[0].at(x, y),
        grid_count(pat1) == grid_count(f.pats@[0]),
        rotor_agrees(f, pat1),
        margins_dead(pat1),
{
    reveal(normalize_post);
    assert forall|x: int, y: int|
        0 <= x < f.w && 0 <= y < f.h implies (#[trigger] pat1.at(x, y)) == f.pats@[0].at(x, y) by {
        assert(f.pats@[0].at(x, y) == chain[0].has(f.offx + x, f.offy + y));
    }
    lemma_count_equal(pat1, f.pats@[0]);
    assert(margins_dead(f.pats@[0]));
    assert forall|x: int, y: int|
        0 <= x < pat1.w && 0 <= y < pat1.h && (x < 2 || x >= pat1.w - 2 || y < 2 || y >= pat1.h
            - 2) implies !#[trigger] pat1.at(x, y) by {
        assert(pat1.at(x, y) == f.pats@[0].at(x, y));
    }
}

/// The result of the whole pipeline: the frame (phases and rotor mask) and
/// the final working pattern.
pub struct Outcome {
    pub frame: Frame,
    pub pat1: Grid,
    pub period: usize,
}

/// Detect the period and normalize the phases into a frame.
#[verifier::rlimit(100)]
#[verifier::spinoff_prover]
fn detect_and_normalize(seed: &Pattern, forced: &Pattern, pad: usize) -> (r: Result<
    (Vec<Pattern>, Frame),
    Error,
>)
    requires
        seed.wf(),
        forced.wf(),
        bounded(seed.cells@, SEED_LIMIT as int),
        seed.cells@.len() >= 1,
        pad <= PAD_LIMIT,
    ensures
        match r {
            Ok(parts) => {
                &&& phases_of(parts.0@, seed.cells@)
                &&& normalize_post(parts.1, parts.0@, forced.cells@, pad as int)
                &&& parts.1.wf()
                &&& parts.1.pats@.len() == parts.0@.len()
            },
            Err(e) => {
                &&& (e == Error::PeriodBoundExceeded ==> exists|chain: Seq<Seq<(i64, i64)>>|
                    #[trigger] distinct_run(chain, seed.cells@) && chain.len() > PERIOD_CEILING
                        as int)
                &&& (e == Error::NonCyclingSeed ==> exists|chain: Seq<Seq<(i64, i64)>>, t: int|
                    #[trigger] rho_witness(chain, t, seed.cells@))
            },
        },
{
    let pats = match detect_period(seed) {
        Ok(pats) => pats,
        Err(e) => {
            return Err(e);
        },
    };
    proof {
        assert(phases_of(pats@, seed.cells@));
        assert(pats@[0].cells@ == seed.cells@);
        assert(pats@[0].cells@.len() >= 1);
    }
    let f = match normalize(&pats, forced, pad) {
        Ok(f) => f,
        Err(e) => {
            return Err(e);
        },
    };
    Ok((pats, f))
}

/// Detect the period, normalize, classify, compile the table, and check the
/// initial pattern: everything before scheduling.
#[verifier::rlimit(100)]
#[verifier::spinoff_prover]
fn prepare(seed: &Pattern, forced: &Pattern, pad: usize) -> (r: Result<
    (Vec<Pattern>, Frame, AllowedTable, Grid),
    Error,
>)
    requires
        seed.wf(),
        forced.wf(),
        bounded(seed.cells@, SEED_LIMIT as int),
        seed.cells@.len() >= 1,
        pad <= PAD_LIMIT,
    ensures
        match r {
            Ok(parts) => {
                &&& phases_of(parts.0@, seed.cells@)
                &&& normalize_post(parts.1, parts.0@, forced.cells@, pad as int)
                &&& parts.1.wf()
                &&& parts.1.pats@.len() == parts.0@.len()
                &&& parts.2.wf()
                &&& parts.2.w == parts.1.w
                &&& parts.2.h == parts.1.h
                &&& parts.3.wf()
                &&& parts.3.w == parts.1.w
                &&& parts.3.h == parts.1.h
                &&& margins_dead(parts.3)
                &&& consistent(parts.1, parts.3)
                &&& rotor_agrees(parts.1, parts.3)
                &&& grid_count(parts.3) == grid_count(parts.1.pats@[0])
            },
            Err(e) => {
                &&& (e == Error::PeriodBoundExceeded ==> exists|chain: Seq<Seq<(i64, i64)>>|
                    #[trigger] distinct_run(chain, seed.cells@) && chain.len() > PERIOD_CEILING
                        as int)
                &&& (e == Error::NonCyclingSeed ==> exists|chain: Seq<Seq<(i64, i64)>>, t: int|
                    #[trigger] rho_witness(chain, t, seed.cells@))
            },
        },
{
    let (pats, f) = match detect_and_normalize(seed, forced, pad) {
        Ok(parts) => parts,
        Err(e) => {
            return Err(e);
        },
    };
    let tbl = compile_allowed(&f);
    let pat1 = grid_from_pattern(&pats[0], f.offx, f.offy, f.w, f.h);
    proof {
        lemma_initial_grid(f, pats@, forced.cells@, pad as int, pat1);
    }
    if !check_consistent(&f, &pat1) {
        return Err(Error::Infeasible);
    }
    Ok((pats, f, tbl, pat1))
}

/// Run the whole pipeline on a seed: detect the period, normalize into a
/// padded frame, classify the rotor, compile the allowed-count table, and
/// schedule strip searches until no strip improves the pattern. On success
/// the final pattern agrees with phase 0 on every rotor cell, keeps every
/// phase transition of the oscillator, keeps the dead margin, and holds at
/// most as many live cells as the seed's phase 0.
#[verifier::rlimit(100)]
pub fn optimize(seed: &Pattern, forced: &Pattern, pad: usize, search_max: usize) -> (r: Result<
    Outcome,
    Error,
>)
    requires
        seed.wf(),
        forced.wf(),
        bounded(seed.cells@, SEED_LIMIT as int),
        seed.cells@.len() >= 1,
        pad <= PAD_LIMIT,
        1 <= search_max <= 2048,
    ensures
        match r {
            Ok(o) => {
                &&& o.frame.wf()
                &&& o.pat1.wf()
                &&& o.pat1.w == o.frame.w
                &&& o.pat1.h == o.frame.h
                &&& exists|chain: Seq<Pattern>|
                    #[trigger] phases_of(chain, seed.cells@) && normalize_post(
                        o.frame,
                        chain,
                        forced.cells@,
                        pad as int,
                    ) && o.period == chain.len()
                &&& consistent(o.frame, o.pat1)
                &&& rotor_agrees(o.frame, o.pat1)
                &&& margins_dead(o.pat1)
                &&& grid_count(o.pat1) <= grid_count(o.frame.pats@[0])
            },
            Err(e) => {
                &&& (e == Error::PeriodBoundExceeded ==> exists|chain: Seq<Seq<(i64, i64)>>|
                    #[trigger] distinct_run(chain, seed.cells@) && chain.len() > PERIOD_CEILING
                        as int)
                &&& (e == Error::NonCyclingSeed ==> exists|chain: Seq<Seq<(i64, i64)>>, t: int|
                    #[trigger] rho_witness(chain, t, seed.cells@))
            },
        },
{
    let (pats, f, tbl, pat1) = match prepare(seed, forced, pad) {
        Ok(parts) => parts,
        Err(e) => {
            return Err(e);
        },
    };
    let strips = enumerate_strips(f.w, f.h, search_max);
    let ghost count0 = grid_count(pat1);
    let final_pat = match run_scheduler(&f, &tbl, &strips, pat1) {
        Ok(g) => g,
        Err(e) => {
            return Err(e);
        },
    };
    let period = pats.len();
    proof {
        assert(phases_of(pats@, seed.cells@) && normalize_post(
            f,
            pats@,
            forced.cells@,
            pad as int,
        ) && period == pats@.len());
    }
    Ok(Outcome { frame: f, pat1: final_pat, period })
}

} // verus!
