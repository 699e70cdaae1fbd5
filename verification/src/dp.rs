//! The strip search: a bit-masked column-sweep dynamic program over one
//! strip. Columns are packed into 64-bit masks over the short axis; the
//! mutable (non-rotor, non-boundary) positions of each column are compressed
//! with bit extract/deposit, and the frontier maps each pair of compressed
//! neighbor columns to the best cumulative live count seen for it, with a
//! backpointer list for reconstruction.

use vstd::prelude::*;
use crate::collist::ColList;
use crate::allowed::bit16;
use crate::life::b2i;
use crate::support::{
    popcnt64, pdep64, pext64, lemma_or_bound, lemma_or_disjoint, lemma_submask_bound,
    lemma_submask_disjoint, lemma_bit_bound, lemma_bit_disjoint, lemma_pack_bound, lemma_zero64,
    lemma_shift_range, lemma_and1, lemma_bounded_not_all_ones, popcnt_rec,
};
use crate::Error;

verus! {

/// The widest pair of compressed columns the frontier accepts: past this the
/// table would not be allocated.
pub const EXP_CEILING: u64 = 24;

/// The inputs of one strip search, in strip-local coordinates: column `x`
/// runs along the swept long axis, bit `y` of a column mask stands for the
/// short-axis row `y`.
pub struct StripInput {
    pub ww: usize,
    pub hh: usize,
    pub pat0: Vec<u64>,
    pub rotor: Vec<u64>,
    pub allowed: Vec<Vec<(u16, u16)>>,
}

impl StripInput {
    pub open spec fn wf(&self) -> bool {
        &&& 4 <= self.ww <= 2048
        &&& 5 <= self.hh <= 60
        &&& self.pat0@.len() == self.ww
        &&& self.rotor@.len() == self.ww
        &&& self.allowed@.len() == self.ww
        &&& forall|x: int| 0 <= x < self.ww ==> (#[trigger] self.allowed@[x])@.len() == self.hh
        &&& forall|x: int|
            0 <= x < self.ww ==> ((#[trigger] self.pat0@[x]) >> (self.hh as u64)) == 0
        &&& forall|x: int|
            0 <= x < self.ww ==> ((#[trigger] self.rotor@[x]) >> (self.hh as u64)) == 0
    }
}

/// Bit `y` of column `x` of a column table; cells outside it are dead.
pub open spec fn cbit(cols: Seq<u64>, x: int, y: int) -> bool {
    0 <= x < cols.len() && 0 <= y < 64 && ((cols[x] >> (y as u64)) & 1) == 1
}

/// The number of live cells of the column table in the 3x3 window at
/// `(x, y)`, the center included: with rotor cells never set in the table,
/// this is the stator-neighbor count of the cell.
pub open spec fn snh9(cols: Seq<u64>, x: int, y: int) -> int {
    b2i(cbit(cols, x - 1, y - 1)) + b2i(cbit(cols, x - 1, y)) + b2i(cbit(cols, x - 1, y + 1))
        + b2i(cbit(cols, x, y - 1)) + b2i(cbit(cols, x, y)) + b2i(cbit(cols, x, y + 1)) + b2i(
        cbit(cols, x + 1, y - 1),
    ) + b2i(cbit(cols, x + 1, y)) + b2i(cbit(cols, x + 1, y + 1))
}

/// The interior cell `(x, y)` satisfies its allowed-count constraint: the
/// mask for its own liveness has the bit of its stator-neighbor count set.
pub open spec fn cell_ok(inp: StripInput, cols: Seq<u64>, x: int, y: int) -> bool {
    bit16(
        if cbit(cols, x, y) {
            inp.allowed@[x]@[y].1
        } else {
            inp.allowed@[x]@[y].0
        },
        snh9(cols, x, y) as u16,
    )
}

/// Every interior cell of the strip satisfies its allowed-count constraint.
pub open spec fn constraints_ok(inp: StripInput, cols: Seq<u64>) -> bool {
    forall|x: int, y: int|
        1 <= x < inp.ww - 1 && 1 <= y < inp.hh - 1 ==> #[trigger] cell_ok(inp, cols, x, y)
}

/// The four fixed boundary rows hold exactly the input's non-rotor liveness.
pub open spec fn boundary_fixed(inp: StripInput, cols: Seq<u64>) -> bool {
    forall|x: int, y: int|
        0 <= x < inp.ww && 0 <= y < inp.hh && (y < 2 || y >= inp.hh - 2) ==> (#[trigger] cbit(
            cols,
            x,
            y,
        )) == (cbit(inp.pat0@, x, y) && !cbit(inp.rotor@, x, y))
}

/// The number of live cells in the first `n` columns of a column table.
pub open spec fn cols_count_to(cols: Seq<u64>, n: int) -> int
    decreases n,
{
    if n <= 0 {
        0
    } else {
        cols_count_to(cols, n - 1) + popcnt_rec(cols[n - 1] as int, 64)
    }
}

/// The number of non-rotor live cells in the first `n` columns of the input.
pub open spec fn stator_count_to(inp: StripInput, n: int) -> int
    decreases n,
{
    if n <= 0 {
        0
    } else {
        stator_count_to(inp, n - 1) + popcnt_rec((inp.pat0@[n - 1] & !inp.rotor@[n - 1]) as int, 64)
    }
}

/// What the search returns: one column mask per swept column, with bits only
/// on rows of the strip, never on rotor cells, the two columns at each end
/// dead, the fixed boundary rows untouched, every interior cell meeting its
/// allowed-count constraint, and no more live cells than the input's stator.
pub open spec fn strip_result_ok(inp: StripInput, cols: Seq<u64>) -> bool {
    &&& cols.len() == inp.ww
    &&& forall|x: int| 0 <= x < cols.len() ==> ((#[trigger] cols[x]) >> (inp.hh as u64)) == 0
    &&& forall|x: int| 0 <= x < cols.len() ==> ((#[trigger] cols[x]) & inp.rotor@[x]) == 0
    &&& cols[0] == 0
    &&& cols[1] == 0
    &&& cols[inp.ww - 2] == 0
    &&& cols[inp.ww - 1] == 0
    &&& boundary_fixed(inp, cols)
    &&& constraints_ok(inp, cols)
    &&& cols_count_to(cols, inp.ww as int) <= stator_count_to(inp, inp.ww as int)
}

/// Read one cell of a column table.
fn table_bit(cols: &Vec<u64>, x: i64, y: i64) -> (r: bool)
    requires
        cols@.len() <= 0x1000_0000,
    ensures
        r == cbit(cols@, x as int, y as int),
{
    if 0 <= x && x < cols.len() as i64 && 0 <= y && y < 64 {
        ((cols[x as usize] >> (y as u64)) & 1) == 1
    } else {
        false
    }
}

/// Check everything `strip_result_ok` asks beyond shape: the dead leading
/// columns, the fixed boundary rows, the interior constraints and the count
/// bound. The search result always passes; a failure is reported as an
/// internal inconsistency.
#[verifier::loop_isolation(false)]
#[verifier::rlimit(100)]
fn result_check(inp: &StripInput, cols: &Vec<u64>) -> (r: bool)
    requires
        inp.wf(),
        cols@.len() == inp.ww,
    ensures
        r == (cols@[0] == 0 && cols@[1] == 0 && boundary_fixed(*inp, cols@) && constraints_ok(
            *inp,
            cols@,
        ) && cols_count_to(cols@, inp.ww as int) <= stator_count_to(*inp, inp.ww as int)),
{
    if !(cols[0] == 0 && cols[1] == 0) {
        return false;
    }
    let ww = inp.ww;
    let hh = inp.hh;
    // the fixed boundary rows
    let mut x: usize = 0;
    while x < ww
        invariant
            x <= ww,
            forall|xx: int, yy: int|
                0 <= xx < x && 0 <= yy < hh && (yy < 2 || yy >= hh - 2) ==> (#[trigger] cbit(
                    cols@,
                    xx,
                    yy,
                )) == (cbit(inp.pat0@, xx, yy) && !cbit(inp.rotor@, xx, yy)),
        decreases ww - x,
    {
        let rows: [u64; 4] = [0, 1, (hh - 2) as u64, (hh - 1) as u64];
        let mut qi: usize = 0;
        while qi < 4
            invariant
                qi <= 4,
                x < ww,
                rows@ == seq![0u64, 1u64, (hh - 2) as u64, (hh - 1) as u64],
                forall|yy: int|
                    0 <= yy < hh && (yy < 2 || yy >= hh - 2) && (exists|m: int|
                        0 <= m < qi && rows@[m] == yy) ==> (#[trigger] cbit(cols@, x as int, yy))
                        == (cbit(inp.pat0@, x as int, yy) && !cbit(inp.rotor@, x as int, yy)),
            decreases 4 - qi,
        {
            let y = rows[qi] as i64;
            let a = table_bit(cols, x as i64, y);
            let b = table_bit(&inp.pat0, x as i64, y);
            let c = table_bit(&inp.rotor, x as i64, y);
            if a != (b && !c) {
                proof {
                    assert(!boundary_fixed(*inp, cols@));
                }
                return false;
            }
            proof {
                assert(rows@[qi as int] == y as u64);
            }
            qi += 1;
        }
        proof {
            assert forall|yy: int|
                0 <= yy < hh && (yy < 2 || yy >= hh - 2) implies (#[trigger] cbit(
                cols@,
                x as int,
                yy,
            )) == (cbit(inp.pat0@, x as int, yy) && !cbit(inp.rotor@, x as int, yy)) by {
                if yy == 0 {
                    assert(rows@[0] == yy);
                } else if yy == 1 {
                    assert(rows@[1] == yy);
                } else if yy == hh - 2 {
                    assert(rows@[2] == yy);
                } else {
                    assert(rows@[3] == yy);
                }
            }
        }
        x += 1;
    }
    // the interior allowed-count constraints
    let mut x2: usize = 1;
    while x2 < ww - 1
        invariant
            1 <= x2 <= ww - 1,
            forall|xx: int, yy: int|
                1 <= xx < x2 && 1 <= yy < hh - 1 ==> #[trigger] cell_ok(*inp, cols@, xx, yy),
        decreases ww - 1 - x2,
    {
        let mut y2: usize = 1;
        while y2 < hh - 1
            invariant
                1 <= x2 < ww - 1,
                1 <= y2 <= hh - 1,
                forall|xx: int, yy: int|
                    1 <= xx < x2 && 1 <= yy < hh - 1 ==> #[trigger] cell_ok(*inp, cols@, xx, yy),
                forall|yy: int|
                    1 <= yy < y2 ==> #[trigger] cell_ok(*inp, cols@, x2 as int, yy),
            decreases hh - 1 - y2,
        {
            let xi = x2 as i64;
            let yi = y2 as i64;
            let live = table_bit(cols, xi, yi);
            let mut s: usize = 0;
            if table_bit(cols, xi - 1, yi - 1) {
                s += 1;
            }
            if table_bit(cols, xi - 1, yi) {
                s += 1;
            }
            if table_bit(cols, xi - 1, yi + 1) {
                s += 1;
            }
            if table_bit(cols, xi, yi - 1) {
                s += 1;
            }
            if table_bit(cols, xi, yi) {
                s += 1;
            }
            if table_bit(cols, xi, yi + 1) {
                s += 1;
            }
            if table_bit(cols, xi + 1, yi - 1) {
                s += 1;
            }
            if table_bit(cols, xi + 1, yi) {
                s += 1;
            }
            if table_bit(cols, xi + 1, yi + 1) {
                s += 1;
            }
            proof {
                assert(s as int == snh9(cols@, x2 as int, y2 as int));
            }
            let pair = inp.allowed[x2][y2];
            let sel: u16 = if live {
                pair.1
            } else {
                pair.0
            };
            if ((sel >> (s as u16)) & 1) != 1 {
                proof {
                    assert(!cell_ok(*inp, cols@, x2 as int, y2 as int));
                    assert(!constraints_ok(*inp, cols@));
                }
                return false;
            }
            y2 += 1;
        }
        x2 += 1;
    }
    // the count bound
    let mut total: u64 = 0;
    let mut stator: u64 = 0;
    let mut x3: usize = 0;
    while x3 < ww
        invariant
            x3 <= ww,
            total as int == cols_count_to(cols@, x3 as int),
            stator as int == stator_count_to(*inp, x3 as int),
            total <= 64 * x3,
            stator <= 64 * x3,
        decreases ww - x3,
    {
        total = total + popcnt64(cols[x3]) as u64;
        stator = stator + popcnt64(inp.pat0[x3] & !inp.rotor[x3]) as u64;
        x3 += 1;
    }
    total <= stator
}

/// One frontier entry while column `x` is next to be swept: the backpointer
/// list holds the first `x - 2` columns, each within the strip rows and off
/// the rotor, and the count stays below 64 cells per retired column.
pub open spec fn entry_ok(ct: int, lst: Seq<u64>, x: int, hh: u64, rotor: Seq<u64>) -> bool {
    &&& lst.len() == x - 2
    &&& 0 <= ct <= 64 * (x - 2)
    &&& forall|k: int|
        0 <= k < lst.len() ==> ((#[trigger] lst[k]) >> hh) == 0 && (lst[k] & rotor[k]) == 0
}

pub open spec fn frontier_ok(
    rr: Seq<Option<(usize, ColList)>>,
    x: int,
    hh: u64,
    rotor: Seq<u64>,
) -> bool {
    forall|idx: int|
        0 <= idx < rr.len() ==> match #[trigger] rr[idx] {
            Option::Some(e) => entry_ok(e.0 as int, e.1@, x, hh, rotor),
            Option::None => true,
        }
}

/// A frontier table of `n` empty entries.
fn none_frontier(n: usize) -> (r: Vec<Option<(usize, ColList)>>)
    ensures
        r@.len() == n,
        forall|i: int| 0 <= i < n ==> (#[trigger] r@[i]) is None,
{
    let mut r: Vec<Option<(usize, ColList)>> = Vec::new();
    let mut k: usize = 0;
    while k < n
        invariant
            k <= n,
            r@.len() == k,
            forall|i: int| 0 <= i < k ==> (#[trigger] r@[i]) is None,
        decreases n - k,
    {
        r.push(Option::None);
        k += 1;
    }
    r
}

/// The fixed live cells of one column: the non-rotor live cells of the four
/// boundary rows.
fn build_outer(pat: u64, rot: u64, hh: u64) -> (r: u64)
    requires
        5 <= hh <= 60,
    ensures
        (r >> hh) == 0,
        (r & rot) == 0,
{
    let mut r: u64 = 0;
    proof {
        lemma_zero64(hh, rot);
    }
    let mut q: u64 = 0;
    while q < 4
        invariant
            q <= 4,
            5 <= hh <= 60,
            (r >> hh) == 0,
            (r & rot) == 0,
        decreases 4 - q,
    {
        let y: u64 = if q == 0 {
            0
        } else if q == 1 {
            1
        } else if q == 2 {
            hh - 2
        } else {
            hh - 1
        };
        if ((rot >> y) & 1) == 0 && ((pat >> y) & 1) == 1 {
            proof {
                lemma_bit_bound(y, hh);
                lemma_bit_disjoint(rot, y);
                lemma_or_bound(r, 1u64 << y, hh);
                lemma_or_disjoint(r, 1u64 << y, rot);
            }
            r = r | (1u64 << y);
        }
        q += 1;
    }
    r
}

/// The mutable positions of one column: the non-rotor cells of the interior
/// rows.
fn build_inner(rot: u64, hh: u64) -> (m: u64)
    requires
        5 <= hh <= 60,
    ensures
        (m >> hh) == 0,
        (m & rot) == 0,
{
    let mut m: u64 = 0;
    proof {
        lemma_zero64(hh, rot);
    }
    let mut y: u64 = 2;
    while y < hh - 2
        invariant
            2 <= y <= hh - 2,
            5 <= hh <= 60,
            (m >> hh) == 0,
            (m & rot) == 0,
        decreases hh - 2 - y,
    {
        if ((rot >> y) & 1) == 0 {
            proof {
                lemma_bit_bound(y, hh);
                lemma_bit_disjoint(rot, y);
                lemma_or_bound(m, 1u64 << y, hh);
                lemma_or_disjoint(m, 1u64 << y, rot);
            }
            m = m | (1u64 << y);
        }
        y += 1;
    }
    m
}

/// The full value of one column from its compressed mutable part.
fn column_value(outer: u64, raw: u64, mask: u64, rot: u64, hh: u64) -> (c: u64)
    requires
        5 <= hh <= 60,
        (outer >> hh) == 0,
        (outer & rot) == 0,
        (mask >> hh) == 0,
        (mask & rot) == 0,
    ensures
        (c >> hh) == 0,
        (c & rot) == 0,
{
    proof {
        lemma_bounded_not_all_ones(mask, hh);
    }
    let dep = pdep64(raw, mask);
    proof {
        lemma_submask_bound(dep, mask, hh);
        lemma_submask_disjoint(dep, mask, rot);
        lemma_or_bound(outer, dep, hh);
        lemma_or_disjoint(outer, dep, rot);
    }
    outer | dep
}

/// The number of live cells of `c` among rows `y-1`, `y`, `y+1`.
fn win3(c: u64, y: u64) -> (n: u64)
    requires
        1 <= y <= 62,
    ensures
        n <= 3,
{
    proof {
        lemma_and1(c >> (y - 1));
        lemma_and1(c >> y);
        lemma_and1(c >> (y + 1));
    }
    ((c >> (y - 1)) & 1) + ((c >> y) & 1) + ((c >> (y + 1)) & 1)
}

/// Search one strip: sweep the long axis column by column, keeping for every
/// pair of compressed neighbor columns the least cumulative live count of
/// any consistent assignment, and reconstruct the best full assignment from
/// the terminal all-dead state. The reconstructed assignment is then held to
/// `strip_result_ok` cell by cell before it is returned. Fails with the
/// resource ceiling when a pair of columns has too many mutable cells, and
/// as infeasible when no assignment reaches the terminal state or the final
/// check refuses it.
#[verifier::loop_isolation(false)]
#[verifier::rlimit(100)]
pub fn strip_search(inp: &StripInput) -> (r: Result<Vec<u64>, Error>)
    requires
        inp.wf(),
        inp.pat0@[0] == 0,
        inp.pat0@[1] == 0,
        inp.pat0@[inp.ww - 2] == 0,
        inp.pat0@[inp.ww - 1] == 0,
    ensures
        match r {
            Ok(cols) => strip_result_ok(*inp, cols@),
            Err(e) => e == Error::Infeasible || e == Error::ResourceCeiling,
        },
{
    let ww = inp.ww;
    let hh64 = inp.hh as u64;
    // fixed cells, mutable positions and their widths, per column
    let mut outers: Vec<u64> = Vec::new();
    let mut inners: Vec<u64> = Vec::new();
    let mut lens: Vec<u64> = Vec::new();
    let mut x: usize = 0;
    while x < ww
        invariant
            x <= ww,
            outers@.len() == x,
            inners@.len() == x,
            lens@.len() == x,
            forall|k: int|
                0 <= k < x ==> ((#[trigger] outers@[k]) >> hh64) == 0 && (outers@[k]
                    & inp.rotor@[k]) == 0,
            forall|k: int|
                0 <= k < x ==> ((#[trigger] inners@[k]) >> hh64) == 0 && (inners@[k]
                    & inp.rotor@[k]) == 0,
            forall|k: int| 0 <= k < x ==> (#[trigger] lens@[k]) <= 64,
        decreases ww - x,
    {
        let outer = build_outer(inp.pat0[x], inp.rotor[x], hh64);
        let inner = build_inner(inp.rotor[x], hh64);
        let ln = popcnt64(inner) as u64;
        outers.push(outer);
        inners.push(inner);
        lens.push(ln);
        x += 1;
    }
    // refuse strips whose frontier would be too large
    let mut x2: usize = 1;
    while x2 < ww
        invariant
            1 <= x2 <= ww,
            forall|k: int| 0 <= k < ww && 1 <= k < x2 ==> lens@[k - 1] + (#[trigger] lens@[k])
                <= EXP_CEILING,
        decreases ww - x2,
    {
        if lens[x2 - 1] + lens[x2] > EXP_CEILING {
            return Err(Error::ResourceCeiling);
        }
        x2 += 1;
    }
    proof {
        assert forall|k: int| 0 <= k < ww implies (#[trigger] lens@[k]) <= EXP_CEILING by {
            if k == 0 {
                assert(lens@[0] + lens@[1] <= EXP_CEILING);
            } else {
                assert(lens@[k - 1] + lens@[k] <= EXP_CEILING);
            }
        }
    }
    // the frontier for the pair of columns (0, 1), holding only the all-dead
    // state
    proof {
        lemma_shift_range(((lens@[0] + lens@[1]) as u64));
    }
    let sz0: u64 = 1u64 << (lens[0] + lens[1]);
    let mut rr = none_frontier(sz0 as usize);
    let empty = ColList::new();
    rr[0] = Option::Some((0usize, empty));
    proof {
        assert(entry_ok(0, rr@[0]->Some_0.1@, 2, hh64, inp.rotor@));
        assert(frontier_ok(rr@, 2, hh64, inp.rotor@));
    }
    let mut x3: usize = 2;
    while x3 < ww
        invariant
            2 <= x3 <= ww,
            rr@.len() as u64 == 1u64 << (lens@[x3 - 2] + lens@[x3 - 1]),
            frontier_ok(rr@, x3 as int, hh64, inp.rotor@),
        decreases ww - x3,
    {
        let l0 = lens[x3 - 2];
        let l1 = lens[x3 - 1];
        let l2 = lens[x3];
        proof {
            lemma_shift_range(((l1 + l2) as u64));
            lemma_shift_range(l0);
            lemma_shift_range(l1);
            lemma_shift_range(l2);
        }
        let sz2: u64 = 1u64 << (l1 + l2);
        let mut rr2 = none_frontier(sz2 as usize);
        let mut c1_raw: u64 = 0;
        let c1_top: u64 = 1u64 << l1;
        while c1_raw < c1_top
            invariant
                c1_raw <= c1_top,
                rr2@.len() as u64 == 1u64 << (l1 + l2),
                frontier_ok(rr2@, x3 + 1, hh64, inp.rotor@),
            decreases c1_top - c1_raw,
        {
            let c1 = column_value(outers[x3 - 1], c1_raw, inners[x3 - 1], inp.rotor[x3 - 1], hh64);
            // fold the liveness of this column and its own three-row windows
            // into the per-row allowed masks
            let mut checks1: Vec<(u64, u32)> = Vec::new();
            let mut y: usize = 1;
            while y < inp.hh - 1
                invariant
                    1 <= y <= inp.hh - 1,
                    forall|m: int| 0 <= m < checks1@.len() ==> 1 <= (#[trigger] checks1@[m]).0
                        && (checks1@[m]).0 + 1 < hh64,
                decreases inp.hh - 1 - y,
            {
                let yu = y as u64;
                proof {
                    lemma_and1(c1 >> yu);
                }
                let live = (c1 >> yu) & 1;
                let pair = inp.allowed[x3 - 1][y];
                let sel: u16 = if live == 1 {
                    pair.1
                } else {
                    pair.0
                };
                let c1_snh = win3(c1, yu);
                let mut a1: u32 = 0;
                let mut snh: u64 = 0;
                while snh < 7
                    invariant
                        snh <= 7,
                        c1_snh <= 3,
                    decreases 7 - snh,
                {
                    if sel & (1u16 << ((c1_snh + snh) as u16)) != 0 {
                        a1 = a1 | (1u32 << (snh as u32));
                    }
                    snh += 1;
                }
                checks1.push((yu, a1));
                y += 1;
            }
            let mut c0_raw: u64 = 0;
            let c0_top: u64 = 1u64 << l0;
            while c0_raw < c0_top
                invariant
                    c0_raw <= c0_top,
                    rr2@.len() as u64 == 1u64 << (l1 + l2),
                    frontier_ok(rr2@, x3 + 1, hh64, inp.rotor@),
                    forall|m: int| 0 <= m < checks1@.len() ==> 1 <= (#[trigger] checks1@[m]).0
                        && (checks1@[m]).0 + 1 < hh64,
                    c1_raw < c1_top,
                decreases c0_top - c0_raw,
            {
                proof {
                    lemma_pack_bound(c0_raw, c1_raw, l0, l1);
                }
                let idx = ((c0_raw << l1) | c1_raw) as usize;
                if let Option::Some(pair0) = &rr[idx] {
                    let ct = pair0.0;
                    let lst = &pair0.1;
                    let c0 = column_value(
                        outers[x3 - 2],
                        c0_raw,
                        inners[x3 - 2],
                        inp.rotor[x3 - 2],
                        hh64,
                    );
                    // fold the left column and the fixed cells of the right
                    // column into the masks, and remap the right window onto
                    // the compressed bits
                    let mut checks2: Vec<(u64, u32)> = Vec::new();
                    let mut k: usize = 0;
                    while k < checks1.len()
                        invariant
                            k <= checks1@.len(),
                        decreases checks1@.len() - k,
                    {
                        let (yy, a1) = checks1[k];
                        let c0_snh = win3(c0, yy);
                        let c2fix = win3(outers[x3], yy);
                        let wmask = 7u64 << (yy - 1);
                        proof {
                            lemma_bounded_not_all_ones(inners@[x3 as int], hh64);
                        }
                        let c2mask = pext64(wmask, inners[x3]);
                        let mut a2: u32 = 0;
                        let mut snh: u64 = 0;
                        while snh < 4
                            invariant
                                snh <= 4,
                                c0_snh <= 3,
                                c2fix <= 3,
                            decreases 4 - snh,
                        {
                            if a1 & (1u32 << ((c0_snh + c2fix + snh) as u32)) != 0 {
                                a2 = a2 | (1u32 << (snh as u32));
                            }
                            snh += 1;
                        }
                        checks2.push((c2mask, a2));
                        k += 1;
                    }
                    let pc0 = popcnt64(c0) as usize;
                    let ct_next = ct + pc0;
                    let mut c2_raw: u64 = 0;
                    let c2_top: u64 = 1u64 << l2;
                    while c2_raw < c2_top
                        invariant
                            c2_raw <= c2_top,
                            rr2@.len() as u64 == 1u64 << (l1 + l2),
                            frontier_ok(rr2@, x3 + 1, hh64, inp.rotor@),
                            c1_raw < c1_top,
                            ct_next == ct + pc0,
                            (c0 >> hh64) == 0,
                            (c0 & inp.rotor@[x3 - 2]) == 0,
                            entry_ok(ct as int, lst@, x3 as int, hh64, inp.rotor@),
                            pc0 <= 64,
                        decreases c2_top - c2_raw,
                    {
                        let mut pass: bool = true;
                        let mut k2: usize = 0;
                        while k2 < checks2.len()
                            invariant
                                k2 <= checks2@.len(),
                            decreases checks2@.len() - k2,
                        {
                            let (cmask, a2) = checks2[k2];
                            let s = popcnt64(c2_raw & cmask);
                            if s > 3 || (a2 & (1u32 << s)) == 0 {
                                pass = false;
                                break ;
                            }
                            k2 += 1;
                        }
                        if pass {
                            proof {
                                lemma_pack_bound(c1_raw, c2_raw, l1, l2);
                            }
                            let idx2 = ((c1_raw << l2) | c2_raw) as usize;
                            let better: bool = match &rr2[idx2] {
                                Option::None => true,
                                Option::Some(prev) => ct_next < prev.0,
                            };
                            if better {
                                let lst2 = lst.append(c0);
                                let ghost old_rr2 = rr2@;
                                rr2[idx2] = Option::Some((ct_next, lst2));
                                proof {
                                    assert(entry_ok(
                                        ct_next as int,
                                        lst2@,
                                        x3 + 1,
                                        hh64,
                                        inp.rotor@,
                                    ));
                                    assert forall|ii: int|
                                        0 <= ii < rr2@.len() implies match #[trigger] rr2@[ii] {
                                        Option::Some(e) => entry_ok(
                                            e.0 as int,
                                            e.1@,
                                            x3 + 1,
                                            hh64,
                                            inp.rotor@,
                                        ),
                                        Option::None => true,
                                    } by {
                                        if ii != idx2 {
                                            assert(rr2@[ii] == old_rr2[ii]);
                                        }
                                    }
                                }
                            }
                        }
                        c2_raw += 1;
                    }
                }
                c0_raw += 1;
            }
            c1_raw += 1;
        }
        rr = rr2;
        x3 += 1;
    }
    // the terminal state: the last two columns all dead
    proof {
        lemma_shift_range(((lens@[ww - 2] + lens@[ww - 1]) as u64));
    }
    match &rr[0] {
        Option::None => Err(Error::Infeasible),
        Option::Some(pair) => {
            let mut cols = pair.1.materialize();
            cols.push(0);
            cols.push(0);
            if !result_check(inp, &cols) {
                return Err(Error::Infeasible);
            }
            proof {
                lemma_zero64(hh64, inp.rotor@[ww - 2]);
                lemma_zero64(hh64, inp.rotor@[ww - 1]);
                assert(cols@.len() == ww);
                assert forall|xx: int|
                    0 <= xx < cols@.len() implies ((#[trigger] cols@[xx]) >> hh64) == 0 && (
                cols@[xx] & inp.rotor@[xx]) == 0 by {
                    if xx < ww - 2 {
                        assert(cols@[xx] == pair.1@[xx]);
                    } else {
                        assert(cols@[xx] == 0);
                    }
                }
            }
            Ok(cols)
        },
    }
}

} // verus!
