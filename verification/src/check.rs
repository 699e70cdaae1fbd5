//! The evolution-consistency check: a working pattern is acceptable when,
//! for every phase, one B3/S23 step of the hybrid grid (the phase on rotor
//! cells, the working pattern elsewhere) reproduces the next phase on rotor
//! cells and leaves every stator cell fixed.

use vstd::prelude::*;
use crate::frame::{Grid, Frame, margins_dead};
use crate::life::{b3s23, b2i, f_live};

verus! {

/// The hybrid of the working pattern and a phase: the phase on rotor cells,
/// the working pattern on stator cells.
pub open spec fn hybrid_at(pat1: Grid, cur: Grid, rotor: Grid, x: int, y: int) -> bool {
    if rotor.at(x, y) {
        cur.at(x, y)
    } else {
        pat1.at(x, y)
    }
}

/// The 3x3 window count of the hybrid grid at `(x, y)`, the center included.
pub open spec fn hybrid_nh(pat1: Grid, cur: Grid, rotor: Grid, x: int, y: int) -> int {
    b2i(hybrid_at(pat1, cur, rotor, x - 1, y - 1)) + b2i(hybrid_at(pat1, cur, rotor, x - 1, y))
        + b2i(hybrid_at(pat1, cur, rotor, x - 1, y + 1)) + b2i(
        hybrid_at(pat1, cur, rotor, x, y - 1),
    ) + b2i(hybrid_at(pat1, cur, rotor, x, y)) + b2i(hybrid_at(pat1, cur, rotor, x, y + 1)) + b2i(
        hybrid_at(pat1, cur, rotor, x + 1, y - 1),
    ) + b2i(hybrid_at(pat1, cur, rotor, x + 1, y)) + b2i(hybrid_at(pat1, cur, rotor, x + 1, y + 1))
}

/// One step of the hybrid grid gives the next phase on the rotor cell
/// `(x, y)`, or keeps the stator cell `(x, y)` fixed.
pub open spec fn phase_ok_at(
    pat1: Grid,
    cur: Grid,
    nxt: Grid,
    rotor: Grid,
    x: int,
    y: int,
) -> bool {
    b3s23(hybrid_at(pat1, cur, rotor, x, y), hybrid_nh(pat1, cur, rotor, x, y)) == (if rotor.at(
        x,
        y,
    ) {
        nxt.at(x, y)
    } else {
        pat1.at(x, y)
    })
}

/// The transition `cur -> nxt` is preserved everywhere in the frame.
pub open spec fn consistent_phase(pat1: Grid, cur: Grid, nxt: Grid, rotor: Grid) -> bool {
    forall|x: int, y: int|
        0 <= x < pat1.w && 0 <= y < pat1.h ==> #[trigger] phase_ok_at(pat1, cur, nxt, rotor, x, y)
}

/// Every phase transition of the frame is preserved by the working pattern.
pub open spec fn consistent(f: Frame, pat1: Grid) -> bool {
    forall|i: int|
        0 <= i < f.pats@.len() ==> consistent_phase(
            pat1,
            #[trigger] f.pats@[i],
            f.pats@[(i + 1) % (f.pats@.len() as int)],
            f.rotor,
        )
}

/// The working pattern agrees with phase 0 on every rotor cell.
pub open spec fn rotor_agrees(f: Frame, pat1: Grid) -> bool {
    forall|x: int, y: int|
        0 <= x < f.w && 0 <= y < f.h && f.rotor.at(x, y) ==> (#[trigger] pat1.at(x, y))
            == f.pats@[0].at(x, y)
}

/// Read the hybrid grid.
pub fn hybrid_get(pat1: &Grid, cur: &Grid, rotor: &Grid, x: i64, y: i64) -> (r: bool)
    requires
        pat1.wf(),
        cur.wf(),
        rotor.wf(),
    ensures
        r == hybrid_at(*pat1, *cur, *rotor, x as int, y as int),
{
    if rotor.get(x, y) {
        cur.get(x, y)
    } else {
        pat1.get(x, y)
    }
}

/// Check one phase transition over the whole frame.
#[verifier::loop_isolation(false)]
pub fn check_phase(pat1: &Grid, cur: &Grid, nxt: &Grid, rotor: &Grid) -> (r: bool)
    requires
        pat1.wf(),
        cur.wf(),
        nxt.wf(),
        rotor.wf(),
    ensures
        r == consistent_phase(*pat1, *cur, *nxt, *rotor),
{
    let w = pat1.w;
    let h = pat1.h;
    let mut x: usize = 0;
    while x < w
        invariant
            x <= w,
            forall|xx: int, yy: int|
                0 <= xx < x && 0 <= yy < h ==> #[trigger] phase_ok_at(
                    *pat1,
                    *cur,
                    *nxt,
                    *rotor,
                    xx,
                    yy,
                ),
        decreases w - x,
    {
        let mut y: usize = 0;
        while y < h
            invariant
                x < w,
                y <= h,
                forall|xx: int, yy: int|
                    0 <= xx < x && 0 <= yy < h ==> #[trigger] phase_ok_at(
                        *pat1,
                        *cur,
                        *nxt,
                        *rotor,
                        xx,
                        yy,
                    ),
                forall|yy: int|
                    0 <= yy < y ==> #[trigger] phase_ok_at(*pat1, *cur, *nxt, *rotor, x as int, yy),
            decreases h - y,
        {
            let xi = x as i64;
            let yi = y as i64;
            let live = hybrid_get(pat1, cur, rotor, xi, yi);
            let mut nh: usize = 0;
            if hybrid_get(pat1, cur, rotor, xi - 1, yi - 1) {
                nh += 1;
            }
            if hybrid_get(pat1, cur, rotor, xi - 1, yi) {
                nh += 1;
            }
            if hybrid_get(pat1, cur, rotor, xi - 1, yi + 1) {
                nh += 1;
            }
            if hybrid_get(pat1, cur, rotor, xi, yi - 1) {
                nh += 1;
            }
            if hybrid_get(pat1, cur, rotor, xi, yi) {
                nh += 1;
            }
            if hybrid_get(pat1, cur, rotor, xi, yi + 1) {
                nh += 1;
            }
            if hybrid_get(pat1, cur, rotor, xi + 1, yi - 1) {
                nh += 1;
            }
            if hybrid_get(pat1, cur, rotor, xi + 1, yi) {
                nh += 1;
            }
            if hybrid_get(pat1, cur, rotor, xi + 1, yi + 1) {
                nh += 1;
            }
            proof {
                assert(nh as int == hybrid_nh(*pat1, *cur, *rotor, x as int, y as int));
            }
            let stepped = f_live(if live { 1 } else { 0 }, nh);
            let expect = if rotor.get(xi, yi) {
                nxt.get(xi, yi)
            } else {
                pat1.get(xi, yi)
            };
            if stepped != expect {
                proof {
                    assert(!phase_ok_at(*pat1, *cur, *nxt, *rotor, x as int, y as int));
                }
                return false;
            }
            y += 1;
        }
        x += 1;
    }
    true
}

/// Check every phase transition of the frame.
#[verifier::loop_isolation(false)]
pub fn check_consistent(f: &Frame, pat1: &Grid) -> (r: bool)
    requires
        f.wf(),
        pat1.wf(),
        pat1.w == f.w,
        pat1.h == f.h,
    ensures
        r == consistent(*f, *pat1),
{
    let n = f.pats.len();
    let mut i: usize = 0;
    while i < n
        invariant
            i <= n,
            n == f.pats@.len(),
            forall|j: int|
                0 <= j < i ==> consistent_phase(
                    *pat1,
                    #[trigger] f.pats@[j],
                    f.pats@[(j + 1) % (f.pats@.len() as int)],
                    f.rotor,
                ),
        decreases n - i,
    {
        let nxt_i: usize = if i + 1 == n {
            0
        } else {
            i + 1
        };
        proof {
            let ni = n as int;
            if i + 1 == n {
                assert(((i + 1) as int) % ni == 0) by (nonlinear_arith)
                    requires
                        ni >= 1 && (i + 1) as int == ni,
                ;
            } else {
                assert(((i + 1) as int) % ni == (i + 1) as int) by (nonlinear_arith)
                    requires
                        0 <= (i + 1) as int && ((i + 1) as int) < ni,
                ;
            }
            assert(nxt_i as int == (i + 1) % (f.pats@.len() as int));
        }
        if !check_phase(pat1, &f.pats[i], &f.pats[nxt_i], &f.rotor) {
            return false;
        }
        i += 1;
    }
    true
}

/// Check the two-cell dead margin.
#[verifier::loop_isolation(false)]
pub fn check_margins(g: &Grid) -> (r: bool)
    requires
        g.wf(),
    ensures
        r == margins_dead(*g),
{
    let w = g.w;
    let h = g.h;
    let mut x: usize = 0;
    while x < w
        invariant
            x <= w,
            forall|xx: int, yy: int|
                0 <= xx < x && 0 <= yy < h && (xx < 2 || xx >= w - 2 || yy < 2 || yy >= h - 2)
                    ==> !#[trigger] g.at(xx, yy),
        decreases w - x,
    {
        let mut y: usize = 0;
        while y < h
            invariant
                x < w,
                y <= h,
                forall|xx: int, yy: int|
                    0 <= xx < x && 0 <= yy < h && (xx < 2 || xx >= w - 2 || yy < 2 || yy >= h - 2)
                        ==> !#[trigger] g.at(xx, yy),
                forall|yy: int|
                    0 <= yy < y && (x < 2 || x >= w - 2 || yy < 2 || yy >= h - 2) ==> !#[trigger] g.at(
                        x as int,
                        yy,
                    ),
            decreases h - y,
        {
            if (x < 2 || x >= w - 2 || y < 2 || y >= h - 2) && g.get(x as i64, y as i64) {
                return false;
            }
            y += 1;
        }
        x += 1;
    }
    true
}

} // verus!
