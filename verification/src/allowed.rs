//! The allowed-count compiler: for every cell, the set of stator-neighbor
//! counts under which every phase transition of the frame is reproduced,
//! packed into one 10-bit mask per cell and liveness.

use vstd::prelude::*;
use crate::frame::{Frame, next_idx};
use crate::life::{b3s23, b2i, f_live};
use crate::support::{lemma_or_bit_read16, lemma_zero_bit16};

verus! {

/// Whether the rotor cell `(x, y)` is live in phase `i`.
pub open spec fn rotor_live(f: Frame, i: int, x: int, y: int) -> bool {
    f.rotor.at(x, y) && f.pats@[i].at(x, y)
}

/// The number of live rotor cells of phase `i` in the 3x3 window at
/// `(x, y)`, the center included.
pub open spec fn rnh(f: Frame, i: int, x: int, y: int) -> int {
    b2i(rotor_live(f, i, x - 1, y - 1)) + b2i(rotor_live(f, i, x - 1, y)) + b2i(
        rotor_live(f, i, x - 1, y + 1),
    ) + b2i(rotor_live(f, i, x, y - 1)) + b2i(rotor_live(f, i, x, y)) + b2i(
        rotor_live(f, i, x, y + 1),
    ) + b2i(rotor_live(f, i, x + 1, y - 1)) + b2i(rotor_live(f, i, x + 1, y)) + b2i(
        rotor_live(f, i, x + 1, y + 1),
    )
}

/// The transition of phase `i` at `(x, y)` is reproduced when the stator
/// contributes `snh` live cells to the window: a rotor cell must step from
/// its phase-`i` liveness to its next-phase liveness, a stator cell must
/// keep the liveness `live`.
pub open spec fn phase_allows(f: Frame, x: int, y: int, live: bool, snh: int, i: int) -> bool {
    if f.rotor.at(x, y) {
        b3s23(f.pats@[i].at(x, y), rnh(f, i, x, y) + snh) == f.pats@[(i + 1) % (
        f.pats@.len() as int)].at(x, y)
    } else {
        b3s23(live, rnh(f, i, x, y) + snh) == live
    }
}

/// The allowed-count predicate: `snh` stator neighbors are consistent with
/// every phase transition at `(x, y)` under the cell's own liveness `live`.
/// A rotor cell contributes no liveness of its own to the stator, so its
/// `live = true` entry is empty.
pub open spec fn allowed_spec(f: Frame, x: int, y: int, live: bool, snh: int) -> bool {
    if f.rotor.at(x, y) && live {
        false
    } else {
        forall|i: int| 0 <= i < f.pats@.len() ==> #[trigger] phase_allows(f, x, y, live, snh, i)
    }
}

/// One bit of a 10-bit mask.
pub open spec fn bit16(m: u16, k: u16) -> bool {
    ((m >> k) & 1) == 1
}

/// The compiled table: `bits[x][y]` holds the allowed masks for the dead and
/// the live case; bit `snh` of a mask stands for `snh` stator neighbors.
pub struct AllowedTable {
    pub w: usize,
    pub h: usize,
    pub bits: Vec<Vec<(u16, u16)>>,
}

impl AllowedTable {
    pub open spec fn wf(&self) -> bool {
        &&& self.bits@.len() == self.w
        &&& forall|x: int| 0 <= x < self.w ==> (#[trigger] self.bits@[x])@.len() == self.h
    }

    /// The table matches the frame.
    #[verifier::opaque]
    pub open spec fn matches(&self, f: Frame) -> bool {
        &&& self.wf()
        &&& self.w == f.w
        &&& self.h == f.h
        &&& forall|x: int, y: int, s: u16|
            0 <= x < self.w && 0 <= y < self.h && s <= 9 ==> (#[trigger] bit16(
                self.bits@[x]@[y].0,
                s,
            )) == allowed_spec(f, x, y, false, s as int)
        &&& forall|x: int, y: int, s: u16|
            0 <= x < self.w && 0 <= y < self.h && s <= 9 ==> (#[trigger] bit16(
                self.bits@[x]@[y].1,
                s,
            )) == allowed_spec(f, x, y, true, s as int)
    }
}

/// The number of live rotor cells in the 3x3 window of phase `i`.
#[verifier::rlimit(60)]
fn rnh_get(f: &Frame, i: usize, x: i64, y: i64) -> (n: usize)
    requires
        f.wf(),
        i < f.pats@.len(),
        -0x1000_0000 <= x <= 0x1000_0000,
        -0x1000_0000 <= y <= 0x1000_0000,
    ensures
        n as int == rnh(*f, i as int, x as int, y as int),
        n <= 9,
{
    let mut n: usize = 0;
    let p = &f.pats[i];
    if f.rotor.get(x - 1, y - 1) && p.get(x - 1, y - 1) {
        n += 1;
    }
    if f.rotor.get(x - 1, y) && p.get(x - 1, y) {
        n += 1;
    }
    if f.rotor.get(x - 1, y + 1) && p.get(x - 1, y + 1) {
        n += 1;
    }
    if f.rotor.get(x, y - 1) && p.get(x, y - 1) {
        n += 1;
    }
    if f.rotor.get(x, y) && p.get(x, y) {
        n += 1;
    }
    if f.rotor.get(x, y + 1) && p.get(x, y + 1) {
        n += 1;
    }
    if f.rotor.get(x + 1, y - 1) && p.get(x + 1, y - 1) {
        n += 1;
    }
    if f.rotor.get(x + 1, y) && p.get(x + 1, y) {
        n += 1;
    }
    if f.rotor.get(x + 1, y + 1) && p.get(x + 1, y + 1) {
        n += 1;
    }
    n
}

/// Whether `snh` stator neighbors reproduce every phase transition at
/// `(x, y)` under the cell's own liveness `live`.
fn allowed_get(f: &Frame, x: usize, y: usize, live: usize, snh: usize) -> (r: bool)
    requires
        f.wf(),
        x < f.w,
        y < f.h,
        live <= 1,
        snh <= 9,
    ensures
        r == allowed_spec(*f, x as int, y as int, live == 1, snh as int),
{
    let xi = x as i64;
    let yi = y as i64;
    let is_rotor = f.rotor.get(xi, yi);
    if is_rotor && live == 1 {
        return false;
    }
    let ghost islive: bool = live == 1;
    let n = f.pats.len();
    let mut i: usize = 0;
    while i < n
        invariant
            f.wf(),
            n == f.pats@.len(),
            i <= n,
            x < f.w,
            y < f.h,
            live <= 1,
            snh <= 9,
            islive == (live == 1),
            xi == x as i64,
            yi == y as i64,
            is_rotor == f.rotor.at(x as int, y as int),
            !(is_rotor && live == 1),
            forall|j: int|
                0 <= j < i ==> #[trigger] phase_allows(
                    *f,
                    x as int,
                    y as int,
                    islive,
                    snh as int,
                    j,
                ),
        decreases n - i,
    {
        let rn = rnh_get(f, i, xi, yi);
        let ok: bool = if is_rotor {
            let cur = f.pats[i].get(xi, yi);
            let ni = next_idx(i, n);
            let nxt = f.pats[ni].get(xi, yi);
            let stepped = f_live(if cur { 1 } else { 0 }, snh + rn);
            stepped == nxt
        } else {
            let stepped = f_live(live, snh + rn);
            stepped == (live == 1)
        };
        if !ok {
            proof {
                assert(!phase_allows(*f, x as int, y as int, live == 1, snh as int, i as int));
            }
            return false;
        }
        proof {
            assert(phase_allows(*f, x as int, y as int, live == 1, snh as int, i as int));
        }
        i += 1;
    }
    true
}

/// The 10-bit allowed mask for one cell and liveness.
fn allowed_mask(f: &Frame, x: usize, y: usize, live: usize) -> (m: u16)
    requires
        f.wf(),
        x < f.w,
        y < f.h,
        live <= 1,
    ensures
        forall|s: u16|
            s <= 9 ==> (#[trigger] bit16(m, s)) == allowed_spec(
                *f,
                x as int,
                y as int,
                live == 1,
                s as int,
            ),
{
    let mut m: u16 = 0;
    proof {
        assert forall|s: u16| s < 16 implies !bit16(m, s) by {
            lemma_zero_bit16(s);
        }
    }
    let mut snh: usize = 0;
    while snh < 10
        invariant
            f.wf(),
            x < f.w,
            y < f.h,
            live <= 1,
            snh <= 10,
            forall|s: u16|
                s < snh ==> (#[trigger] bit16(m, s)) == allowed_spec(
                    *f,
                    x as int,
                    y as int,
                    live == 1,
                    s as int,
                ),
            forall|s: u16| snh <= s < 16 ==> !(#[trigger] bit16(m, s)),
        decreases 10 - snh,
    {
        if allowed_get(f, x, y, live, snh) {
            let ghost m0 = m;
            m = m | (1u16 << (snh as u16));
            proof {
                assert forall|s: u16| s < 16 implies bit16(m, s) == (s == snh || bit16(m0, s)) by {
                    lemma_or_bit_read16(m0, snh as u16, s);
                }
            }
        }
        snh += 1;
    }
    m
}

/// Compile the allowed-count table for the whole frame.
#[verifier::loop_isolation(false)]
pub fn compile_allowed(f: &Frame) -> (t: AllowedTable)
    requires
        f.wf(),
    ensures
        t.matches(*f),
        t.wf(),
        t.w == f.w,
        t.h == f.h,
{
    let mut bits: Vec<Vec<(u16, u16)>> = Vec::new();
    let mut x: usize = 0;
    while x < f.w
        invariant
            x <= f.w,
            bits@.len() == x,
            forall|xx: int| 0 <= xx < x ==> (#[trigger] bits@[xx])@.len() == f.h,
            forall|xx: int, yy: int, s: u16|
                0 <= xx < x && 0 <= yy < f.h && s <= 9 ==> (#[trigger] bit16(
                    bits@[xx]@[yy].0,
                    s,
                )) == allowed_spec(*f, xx, yy, false, s as int),
            forall|xx: int, yy: int, s: u16|
                0 <= xx < x && 0 <= yy < f.h && s <= 9 ==> (#[trigger] bit16(
                    bits@[xx]@[yy].1,
                    s,
                )) == allowed_spec(*f, xx, yy, true, s as int),
        decreases f.w - x,
    {
        let mut col: Vec<(u16, u16)> = Vec::new();
        let mut y: usize = 0;
        while y < f.h
            invariant
                x < f.w,
                y <= f.h,
                col@.len() == y,
                forall|yy: int, s: u16|
                    0 <= yy < y && s <= 9 ==> (#[trigger] bit16(col@[yy].0, s)) == allowed_spec(
                        *f,
                        x as int,
                        yy,
                        false,
                        s as int,
                    ),
                forall|yy: int, s: u16|
                    0 <= yy < y && s <= 9 ==> (#[trigger] bit16(col@[yy].1, s)) == allowed_spec(
                        *f,
                        x as int,
                        yy,
                        true,
                        s as int,
                    ),
            decreases f.h - y,
        {
            let dead_mask = allowed_mask(f, x, y, 0);
            let live_mask = allowed_mask(f, x, y, 1);
            col.push((dead_mask, live_mask));
            y += 1;
        }
        bits.push(col);
        x += 1;
    }
    let t = AllowedTable { w: f.w, h: f.h, bits };
    proof {
        reveal(AllowedTable::matches);
    }
    t
}

} // verus!
