//! Dense grids, the bounding-box normalizer and the rotor classifier: all
//! phases are translated into a common `w x h` frame with a two-cell dead
//! margin on every side, and each cell is classified as rotor (its liveness
//! varies across the phases, or it was user-forced) or stator.

use vstd::prelude::*;
use crate::life::{Pattern, pat_has, b2i, bounded};
use crate::Error;

verus! {

/// The widest frame the search tables accept.
pub const FRAME_LIMIT: usize = 2048;

/// The largest accepted padding parameter.
pub const PAD_LIMIT: usize = 512;

/// A dense boolean grid over frame coordinates, indexed `cols[x][y]`.
pub struct Grid {
    pub w: usize,
    pub h: usize,
    pub cols: Vec<Vec<bool>>,
}

impl Grid {
    pub open spec fn wf(&self) -> bool {
        &&& self.cols@.len() == self.w
        &&& forall|x: int| 0 <= x < self.w ==> (#[trigger] self.cols@[x])@.len() == self.h
        &&& 5 <= self.w <= FRAME_LIMIT
        &&& 5 <= self.h <= FRAME_LIMIT
    }

    /// Liveness at `(x, y)`; cells outside the grid are dead.
    pub open spec fn at(&self, x: int, y: int) -> bool {
        0 <= x < self.w && 0 <= y < self.h && self.cols@[x]@[y]
    }

    pub fn get(&self, x: i64, y: i64) -> (r: bool)
        requires
            self.wf(),
        ensures
            r == self.at(x as int, y as int),
    {
        if 0 <= x && x < self.w as i64 && 0 <= y && y < self.h as i64 {
            self.cols[x as usize][y as usize]
        } else {
            false
        }
    }

    /// The number of live cells in the grid.
    pub fn count(&self) -> (n: usize)
        requires
            self.wf(),
        ensures
            n as int == grid_count(*self),
    {
        proof {
            lemma_grid_count_le(*self, self.w as int);
        }
        let mut n: usize = 0;
        let mut x: usize = 0;
        while x < self.w
            invariant
                self.wf(),
                x <= self.w,
                n as int == grid_count_to(*self, x as int),
                n <= x * self.h,
            decreases self.w - x,
        {
            proof {
                lemma_grid_count_le(*self, x as int);
            }
            let col = &self.cols[x];
            let mut y: usize = 0;
            let mut cn: usize = 0;
            while y < self.h
                invariant
                    self.wf(),
                    x < self.w,
                    col == &self.cols@[x as int],
                    y <= self.h,
                    cn as int == col_count(col@, y as int),
                    cn <= y,
                decreases self.h - y,
            {
                proof {
                    lemma_col_count_le(col@, y as int);
                }
                if col[y] {
                    cn += 1;
                }
                y += 1;
            }
            proof {
                assert(x * self.h + self.h == (x + 1) * self.h) by (nonlinear_arith);
                assert((x + 1) * self.h <= FRAME_LIMIT * FRAME_LIMIT) by (nonlinear_arith)
                    requires
                        0 <= x + 1 <= FRAME_LIMIT && 0 <= self.h <= FRAME_LIMIT,
                ;
            }
            n += cn;
            x += 1;
        }
        n
    }
}

/// The number of live cells among the first `n` of one column.
pub open spec fn col_count(s: Seq<bool>, n: int) -> int
    decreases n,
{
    if n <= 0 {
        0
    } else {
        col_count(s, n - 1) + b2i(s[n - 1])
    }
}

/// The number of live cells in the first `x` columns.
pub open spec fn grid_count_to(g: Grid, x: int) -> int
    decreases x,
{
    if x <= 0 {
        0
    } else {
        grid_count_to(g, x - 1) + col_count(g.cols@[x - 1]@, g.h as int)
    }
}

/// The number of live cells in the grid.
pub open spec fn grid_count(g: Grid) -> int {
    grid_count_to(g, g.w as int)
}

pub proof fn lemma_col_count_le(s: Seq<bool>, n: int)
    requires
        0 <= n,
    ensures
        0 <= col_count(s, n) <= n,
    decreases n,
{
    if n > 0 {
        lemma_col_count_le(s, n - 1);
    }
}

pub proof fn lemma_grid_count_le(g: Grid, x: int)
    requires
        g.wf(),
        0 <= x <= g.w,
    ensures
        0 <= grid_count_to(g, x) <= x * g.h,
    decreases x,
{
    if x > 0 {
        lemma_grid_count_le(g, x - 1);
        lemma_col_count_le(g.cols@[x - 1]@, g.h as int);
        assert((x - 1) * g.h + g.h == x * g.h) by (nonlinear_arith);
    }
}

/// Two grids of equal dimensions hold equal counts when they agree pointwise.
pub proof fn lemma_count_equal(a: Grid, b: Grid)
    requires
        a.wf(),
        b.wf(),
        a.w == b.w,
        a.h == b.h,
        forall|x: int, y: int| 0 <= x < a.w && 0 <= y < a.h ==> a.at(x, y) == b.at(x, y),
    ensures
        grid_count(a) == grid_count(b),
{
    lemma_count_equal_to(a, b, a.w as int);
}

proof fn lemma_count_equal_to(a: Grid, b: Grid, x: int)
    requires
        a.wf(),
        b.wf(),
        a.w == b.w,
        a.h == b.h,
        0 <= x <= a.w,
        forall|xx: int, y: int| 0 <= xx < a.w && 0 <= y < a.h ==> a.at(xx, y) == b.at(xx, y),
    ensures
        grid_count_to(a, x) == grid_count_to(b, x),
    decreases x,
{
    if x > 0 {
        lemma_count_equal_to(a, b, x - 1);
        lemma_col_count_equal(a, b, x - 1, a.h as int);
    }
}

proof fn lemma_col_count_equal(a: Grid, b: Grid, x: int, n: int)
    requires
        a.wf(),
        b.wf(),
        a.w == b.w,
        a.h == b.h,
        0 <= x < a.w,
        0 <= n <= a.h,
        forall|xx: int, y: int| 0 <= xx < a.w && 0 <= y < a.h ==> a.at(xx, y) == b.at(xx, y),
    ensures
        col_count(a.cols@[x]@, n) == col_count(b.cols@[x]@, n),
    decreases n,
{
    if n > 0 {
        lemma_col_count_equal(a, b, x, n - 1);
        assert(a.at(x, n - 1) == b.at(x, n - 1));
    }
}

/// The union of the phases holds `(x, y)`.
pub open spec fn in_union(pats: Seq<Pattern>, x: int, y: int) -> bool {
    exists|i: int| 0 <= i < pats.len() && (#[trigger] pats[i]).has(x, y)
}

/// `v` is the least x coordinate over all phases' live cells.
pub open spec fn min_x_is(pats: Seq<Pattern>, v: int) -> bool {
    &&& exists|y: int| #[trigger] in_union(pats, v, y)
    &&& forall|x: int, y: int| #[trigger] in_union(pats, x, y) ==> x >= v
}

pub open spec fn max_x_is(pats: Seq<Pattern>, v: int) -> bool {
    &&& exists|y: int| #[trigger] in_union(pats, v, y)
    &&& forall|x: int, y: int| #[trigger] in_union(pats, x, y) ==> x <= v
}

pub open spec fn min_y_is(pats: Seq<Pattern>, v: int) -> bool {
    &&& exists|x: int| #[trigger] in_union(pats, x, v)
    &&& forall|x: int, y: int| #[trigger] in_union(pats, x, y) ==> y >= v
}

pub open spec fn max_y_is(pats: Seq<Pattern>, v: int) -> bool {
    &&& exists|x: int| #[trigger] in_union(pats, x, v)
    &&& forall|x: int, y: int| #[trigger] in_union(pats, x, y) ==> y <= v
}

/// The least x coordinate is unique.
pub proof fn lemma_min_x_unique(pats: Seq<Pattern>, a: int, b: int)
    requires
        min_x_is(pats, a),
        min_x_is(pats, b),
    ensures
        a == b,
{
    let ya = choose|y: int| #[trigger] in_union(pats, a, y);
    let yb = choose|y: int| #[trigger] in_union(pats, b, y);
}

/// The greatest x coordinate is unique.
pub proof fn lemma_max_x_unique(pats: Seq<Pattern>, a: int, b: int)
    requires
        max_x_is(pats, a),
        max_x_is(pats, b),
    ensures
        a == b,
{
    let ya = choose|y: int| #[trigger] in_union(pats, a, y);
    let yb = choose|y: int| #[trigger] in_union(pats, b, y);
}

/// The least y coordinate is unique.
pub proof fn lemma_min_y_unique(pats: Seq<Pattern>, a: int, b: int)
    requires
        min_y_is(pats, a),
        min_y_is(pats, b),
    ensures
        a == b,
{
    let xa = choose|x: int| #[trigger] in_union(pats, x, a);
    let xb = choose|x: int| #[trigger] in_union(pats, x, b);
}

/// The greatest y coordinate is unique.
pub proof fn lemma_max_y_unique(pats: Seq<Pattern>, a: int, b: int)
    requires
        max_y_is(pats, a),
        max_y_is(pats, b),
    ensures
        a == b,
{
    let xa = choose|x: int| #[trigger] in_union(pats, x, a);
    let xb = choose|x: int| #[trigger] in_union(pats, x, b);
}

/// Whether the cell at original coordinates `(cx, cy)` is rotor: some two
/// phases disagree there, or the user forced it.
pub open spec fn rotor_spec(
    pats: Seq<Pattern>,
    forced: Seq<(i64, i64)>,
    cx: int,
    cy: int,
) -> bool {
    ||| exists|i: int, j: int|
        #![trigger pats[i].has(cx, cy), pats[j].has(cx, cy)]
        0 <= i < pats.len() && 0 <= j < pats.len() && pats[i].has(cx, cy) != pats[j].has(cx, cy)
    ||| pat_has(forced, cx, cy)
}

/// No live cell stands within two cells of the frame edge.
pub open spec fn margins_dead(g: Grid) -> bool {
    forall|x: int, y: int|
        0 <= x < g.w && 0 <= y < g.h && (x < 2 || x >= g.w - 2 || y < 2 || y >= g.h - 2)
            ==> !#[trigger] g.at(x, y)
}

/// The normalized frame: every phase and the rotor mask in a common `w x h`
/// window, with original coordinates recovered through `(offx, offy)`.
pub struct Frame {
    pub w: usize,
    pub h: usize,
    pub offx: i64,
    pub offy: i64,
    pub pats: Vec<Grid>,
    pub rotor: Grid,
}

impl Frame {
    pub open spec fn wf(&self) -> bool {
        &&& 5 <= self.w <= FRAME_LIMIT
        &&& 5 <= self.h <= FRAME_LIMIT
        &&& 1 <= self.pats@.len() <= 1000
        &&& forall|i: int|
            0 <= i < self.pats@.len() ==> (#[trigger] self.pats@[i]).wf()
                && self.pats@[i].w == self.w && self.pats@[i].h == self.h
        &&& self.rotor.wf()
        &&& self.rotor.w == self.w
        &&& self.rotor.h == self.h
        &&& -0x1000_0800 <= self.offx <= 0x1000_0800
        &&& -0x1000_0800 <= self.offy <= 0x1000_0800
    }
}

/// What the normalizer promises: the frame is the padded bounding box of the
/// union of the phases, each phase grid and the rotor mask read the original
/// sets through the frame offsets, and every grid keeps the two-cell dead
/// margin.
#[verifier::opaque]
pub open spec fn normalize_post(
    f: Frame,
    pats: Seq<Pattern>,
    forced: Seq<(i64, i64)>,
    pad: int,
) -> bool {
    &&& f.wf()
    &&& f.pats@.len() == pats.len()
    &&& min_x_is(pats, f.offx + pad + 2)
    &&& max_x_is(pats, f.offx + f.w - pad - 3)
    &&& min_y_is(pats, f.offy + pad + 2)
    &&& max_y_is(pats, f.offy + f.h - pad - 3)
    &&& forall|i: int, x: int, y: int|
        0 <= i < pats.len() && 0 <= x < f.w && 0 <= y < f.h ==> (#[trigger] f.pats@[i].at(x, y))
            == pats[i].has(f.offx + x, f.offy + y)
    &&& forall|x: int, y: int|
        0 <= x < f.w && 0 <= y < f.h ==> (#[trigger] f.rotor.at(x, y)) == rotor_spec(
            pats,
            forced,
            f.offx + x,
            f.offy + y,
        )
    &&& forall|i: int| 0 <= i < pats.len() ==> margins_dead(#[trigger] f.pats@[i])
}

/// The index of the phase after `i`, wrapping past the last phase.
pub fn next_idx(i: usize, n: usize) -> (r: usize)
    requires
        n >= 1,
        i < n,
    ensures
        r as int == (i + 1) % (n as int),
        r < n,
{
    let r: usize = if i + 1 == n {
        0
    } else {
        i + 1
    };
    proof {
        let ni = n as int;
        if i + 1 == n {
            assert(((i + 1) as int) % ni == 0) by (nonlinear_arith)
                requires
                    ni >= 1 && (i + 1) as int == ni,
            ;
        } else {
            assert(((i + 1) as int) % ni == (i + 1) as int) by (nonlinear_arith)
                requires
                    0 <= (i + 1) as int && ((i + 1) as int) < ni,
            ;
        }
    }
    r
}

/// A dense grid holding `p` read through the offsets.
pub fn grid_from_pattern(p: &Pattern, offx: i64, offy: i64, w: usize, h: usize) -> (g: Grid)
    requires
        5 <= w <= FRAME_LIMIT,
        5 <= h <= FRAME_LIMIT,
        -0x1000_0800 <= offx <= 0x1000_0800,
        -0x1000_0800 <= offy <= 0x1000_0800,
    ensures
        g.wf(),
        g.w == w,
        g.h == h,
        forall|x: int, y: int|
            0 <= x < w && 0 <= y < h ==> (#[trigger] g.at(x, y)) == p.has(offx + x, offy + y),
{
    let mut cols: Vec<Vec<bool>> = Vec::new();
    let mut x: usize = 0;
    while x < w
        invariant
            x <= w,
            cols@.len() == x,
            5 <= w <= FRAME_LIMIT,
            5 <= h <= FRAME_LIMIT,
            -0x1000_0800 <= offx <= 0x1000_0800,
            -0x1000_0800 <= offy <= 0x1000_0800,
            forall|xx: int| 0 <= xx < x ==> (#[trigger] cols@[xx])@.len() == h,
            forall|xx: int, yy: int|
                0 <= xx < x && 0 <= yy < h ==> (#[trigger] cols@[xx]@[yy]) == p.has(
                    offx + xx,
                    offy + yy,
                ),
        decreases w - x,
    {
        let mut col: Vec<bool> = Vec::new();
        let mut y: usize = 0;
        while y < h
            invariant
                y <= h,
                x < w,
                col@.len() == y,
                5 <= w <= FRAME_LIMIT,
                5 <= h <= FRAME_LIMIT,
                -0x1000_0800 <= offx <= 0x1000_0800,
                -0x1000_0800 <= offy <= 0x1000_0800,
                forall|yy: int|
                    0 <= yy < y ==> (#[trigger] col@[yy]) == p.has(offx + x, offy + yy),
            decreases h - y,
        {
            col.push(p.contains(offx + (x as i64), offy + (y as i64)));
            y += 1;
        }
        cols.push(col);
        x += 1;
    }
    Grid { w, h, cols }
}

/// The tight bounding box of the union of all phases' live cells.
fn bbox(pats: &Vec<Pattern>) -> (r: (i64, i64, i64, i64))
    requires
        pats@.len() >= 1,
        pats@[0].cells@.len() >= 1,
        forall|i: int|
            0 <= i < pats@.len() ==> bounded((#[trigger] pats@[i]).cells@, 0x1000_0400),
    ensures
        min_x_is(pats@, r.0 as int),
        max_x_is(pats@, r.1 as int),
        min_y_is(pats@, r.2 as int),
        max_y_is(pats@, r.3 as int),
        -0x1000_0400 <= r.0 <= r.1 <= 0x1000_0400,
        -0x1000_0400 <= r.2 <= r.3 <= 0x1000_0400,
{
    let c0 = pats[0].cells[0];
    let mut minx: i64 = c0.0;
    let mut maxx: i64 = c0.0;
    let mut miny: i64 = c0.1;
    let mut maxy: i64 = c0.1;
    proof {
        assert(pats@[0].has(c0.0 as int, c0.1 as int));
        assert(in_union(pats@, c0.0 as int, c0.1 as int));
    }
    let mut i: usize = 0;
    while i < pats.len()
        invariant
            pats@.len() >= 1,
            i <= pats@.len(),
            forall|j: int|
                0 <= j < pats@.len() ==> bounded((#[trigger] pats@[j]).cells@, 0x1000_0400),
            -0x1000_0400 <= minx <= 0x1000_0400,
            -0x1000_0400 <= maxx <= 0x1000_0400,
            -0x1000_0400 <= miny <= 0x1000_0400,
            -0x1000_0400 <= maxy <= 0x1000_0400,
            minx <= maxx,
            miny <= maxy,
            exists|y: int| #[trigger] in_union(pats@, minx as int, y),
            exists|y: int| #[trigger] in_union(pats@, maxx as int, y),
            exists|x: int| #[trigger] in_union(pats@, x, miny as int),
            exists|x: int| #[trigger] in_union(pats@, x, maxy as int),
            forall|j: int, m: int|
                0 <= j < i && 0 <= m < pats@[j].cells@.len() ==> minx as int <= (
                #[trigger] pats@[j].cells@[m]).0 <= maxx as int && miny as int
                    <= pats@[j].cells@[m].1 <= maxy as int,
        decreases pats@.len() - i,
    {
        let p = &pats[i];
        let mut m: usize = 0;
        while m < p.cells.len()
            invariant
                pats@.len() >= 1,
                i < pats@.len(),
                p == &pats@[i as int],
                m <= p.cells@.len(),
                forall|j: int|
                    0 <= j < pats@.len() ==> bounded((#[trigger] pats@[j]).cells@, 0x1000_0400),
                -0x1000_0400 <= minx <= 0x1000_0400,
                -0x1000_0400 <= maxx <= 0x1000_0400,
                -0x1000_0400 <= miny <= 0x1000_0400,
                -0x1000_0400 <= maxy <= 0x1000_0400,
                minx <= maxx,
                miny <= maxy,
                exists|y: int| #[trigger] in_union(pats@, minx as int, y),
                exists|y: int| #[trigger] in_union(pats@, maxx as int, y),
                exists|x: int| #[trigger] in_union(pats@, x, miny as int),
                exists|x: int| #[trigger] in_union(pats@, x, maxy as int),
                forall|j: int, mm: int|
                    0 <= j < i && 0 <= mm < pats@[j].cells@.len() ==> minx as int <= (
                    #[trigger] pats@[j].cells@[mm]).0 <= maxx as int && miny as int
                        <= pats@[j].cells@[mm].1 <= maxy as int,
                forall|mm: int|
                    0 <= mm < m ==> minx as int <= (#[trigger] pats@[i as int].cells@[mm]).0
                        <= maxx as int && miny as int <= pats@[i as int].cells@[mm].1
                        <= maxy as int,
            decreases p.cells@.len() - m,
        {
            let c = p.cells[m];
            proof {
                assert(pats@[i as int].has(c.0 as int, c.1 as int));
                assert(in_union(pats@, c.0 as int, c.1 as int));
            }
            if c.0 < minx {
                minx = c.0;
            }
            if c.0 > maxx {
                maxx = c.0;
            }
            if c.1 < miny {
                miny = c.1;
            }
            if c.1 > maxy {
                maxy = c.1;
            }
            m += 1;
        }
        i += 1;
    }
    proof {
        assert forall|x: int, y: int| #[trigger] in_union(pats@, x, y) implies minx as int <= x
            <= maxx as int && miny as int <= y <= maxy as int by {
            let j = choose|j: int| 0 <= j < pats@.len() && (#[trigger] pats@[j]).has(x, y);
            let mm = choose|mm: int|
                0 <= mm < pats@[j].cells@.len() && (#[trigger] pats@[j].cells@[mm]).0 == x
                    && pats@[j].cells@[mm].1 == y;
        }
    }
    (minx, maxx, miny, maxy)
}

/// Build the normalized frame: translate every phase so that the padded
/// bounding box of their union lands at the origin, build the dense phase
/// grids, and classify each cell as rotor or stator. Fails only when the
/// frame would be wider than the search tables accept.
#[verifier::rlimit(100)]
pub fn normalize(pats: &Vec<Pattern>, forced: &Pattern, pad: usize) -> (r: Result<Frame, Error>)
    requires
        1 <= pats@.len() <= 1000,
        pats@[0].cells@.len() >= 1,
        forall|i: int|
            0 <= i < pats@.len() ==> bounded((#[trigger] pats@[i]).cells@, 0x1000_0400),
        pad <= PAD_LIMIT,
    ensures
        match r {
            Ok(f) => {
                &&& normalize_post(f, pats@, forced.cells@, pad as int)
                &&& f.wf()
                &&& f.pats@.len() == pats@.len()
            },
            Err(e) => {
                &&& e == Error::ResourceCeiling
                &&& exists|mnx: int, mxx: int, mny: int, mxy: int|
                    #![trigger min_x_is(pats@, mnx), max_x_is(pats@, mxx), min_y_is(pats@, mny), max_y_is(pats@, mxy)]
                    min_x_is(pats@, mnx) && max_x_is(pats@, mxx) && min_y_is(pats@, mny)
                        && max_y_is(pats@, mxy) && (mxx - mnx + 1 + 2 * (pad + 2) > FRAME_LIMIT
                        || mxy - mny + 1 + 2 * (pad + 2) > FRAME_LIMIT)
            },
        },
        forall|mnx: int, mxx: int, mny: int, mxy: int|
            #![trigger min_x_is(pats@, mnx), max_x_is(pats@, mxx), min_y_is(pats@, mny), max_y_is(pats@, mxy)]
            min_x_is(pats@, mnx) && max_x_is(pats@, mxx) && min_y_is(pats@, mny) && max_y_is(
                pats@,
                mxy,
            ) && mxx - mnx + 1 + 2 * (pad + 2) <= FRAME_LIMIT && mxy - mny + 1 + 2 * (pad + 2)
                <= FRAME_LIMIT ==> r is Ok,
{
    let (minx, maxx, miny, maxy) = bbox(pats);
    let wl: i64 = maxx - minx + 1 + 2 * ((pad as i64) + 2);
    let hl: i64 = maxy - miny + 1 + 2 * ((pad as i64) + 2);
    if wl > FRAME_LIMIT as i64 || hl > FRAME_LIMIT as i64 {
        proof {
            // the bounding box is unique, so no admissible bounds fit
            assert forall|mnx: int, mxx: int, mny: int, mxy: int|
                #![trigger min_x_is(pats@, mnx), max_x_is(pats@, mxx), min_y_is(pats@, mny), max_y_is(pats@, mxy)]
                min_x_is(pats@, mnx) && max_x_is(pats@, mxx) && min_y_is(pats@, mny) && max_y_is(
                    pats@,
                    mxy,
                ) implies !(mxx - mnx + 1 + 2 * (pad + 2) <= FRAME_LIMIT && mxy - mny + 1 + 2 * (
            pad + 2) <= FRAME_LIMIT) by {
                lemma_min_x_unique(pats@, mnx, minx as int);
                lemma_max_x_unique(pats@, mxx, maxx as int);
                lemma_min_y_unique(pats@, mny, miny as int);
                lemma_max_y_unique(pats@, mxy, maxy as int);
            }
        }
        return Err(Error::ResourceCeiling);
    }
    let w: usize = wl as usize;
    let h: usize = hl as usize;
    let offx: i64 = minx - (pad as i64) - 2;
    let offy: i64 = miny - (pad as i64) - 2;
    let mut grids: Vec<Grid> = Vec::new();
    let mut i: usize = 0;
    while i < pats.len()
        invariant
            i <= pats@.len(),
            grids@.len() == i,
            5 <= w <= FRAME_LIMIT,
            5 <= h <= FRAME_LIMIT,
            -0x1000_0800 <= offx <= 0x1000_0800,
            -0x1000_0800 <= offy <= 0x1000_0800,
            forall|j: int|
                0 <= j < i ==> (#[trigger] grids@[j]).wf() && grids@[j].w == w && grids@[j].h == h,
            forall|j: int, x: int, y: int|
                0 <= j < i && 0 <= x < w && 0 <= y < h ==> (#[trigger] grids@[j].at(x, y))
                    == pats@[j].has(offx + x, offy + y),
        decreases pats@.len() - i,
    {
        grids.push(grid_from_pattern(&pats[i], offx, offy, w, h));
        i += 1;
    }
    // classify: a cell is rotor iff its liveness varies across phases or it
    // was forced
    let mut rotor_cols: Vec<Vec<bool>> = Vec::new();
    let mut x: usize = 0;
    while x < w
        invariant
            x <= w,
            rotor_cols@.len() == x,
            grids@.len() == pats@.len(),
            1 <= pats@.len() <= 1000,
            5 <= w <= FRAME_LIMIT,
            5 <= h <= FRAME_LIMIT,
            -0x1000_0800 <= offx <= 0x1000_0800,
            -0x1000_0800 <= offy <= 0x1000_0800,
            forall|j: int|
                0 <= j < grids@.len() ==> (#[trigger] grids@[j]).wf() && grids@[j].w == w
                    && grids@[j].h == h,
            forall|j: int, xx: int, yy: int|
                0 <= j < grids@.len() && 0 <= xx < w && 0 <= yy < h ==> (
                #[trigger] grids@[j].at(xx, yy)) == pats@[j].has(offx + xx, offy + yy),
            forall|xx: int| 0 <= xx < x ==> (#[trigger] rotor_cols@[xx])@.len() == h,
            forall|xx: int, yy: int|
                0 <= xx < x && 0 <= yy < h ==> (#[trigger] rotor_cols@[xx]@[yy]) == rotor_spec(
                    pats@,
                    forced.cells@,
                    offx + xx,
                    offy + yy,
                ),
        decreases w - x,
    {
        let mut col: Vec<bool> = Vec::new();
        let mut y: usize = 0;
        while y < h
            invariant
                y <= h,
                x < w,
                col@.len() == y,
                rotor_cols@.len() == x,
                grids@.len() == pats@.len(),
                1 <= pats@.len() <= 1000,
                5 <= w <= FRAME_LIMIT,
                5 <= h <= FRAME_LIMIT,
                -0x1000_0800 <= offx <= 0x1000_0800,
                -0x1000_0800 <= offy <= 0x1000_0800,
                forall|j: int|
                    0 <= j < grids@.len() ==> (#[trigger] grids@[j]).wf() && grids@[j].w == w
                        && grids@[j].h == h,
                forall|j: int, xx: int, yy: int|
                    0 <= j < grids@.len() && 0 <= xx < w && 0 <= yy < h ==> (
                    #[trigger] grids@[j].at(xx, yy)) == pats@[j].has(offx + xx, offy + yy),
                forall|yy: int|
                    0 <= yy < y ==> (#[trigger] col@[yy]) == rotor_spec(
                        pats@,
                        forced.cells@,
                        offx + x,
                        offy + yy,
                    ),
            decreases h - y,
        {
            let mut varies: bool = false;
            let mut j: usize = 1;
            while j < grids.len()
                invariant
                    1 <= j <= grids@.len(),
                    x < w,
                    y < h,
                    grids@.len() >= 1,
                    forall|jj: int|
                        0 <= jj < grids@.len() ==> (#[trigger] grids@[jj]).wf() && grids@[jj].w == w
                            && grids@[jj].h == h,
                    varies == exists|jj: int|
                        1 <= jj < j && (#[trigger] grids@[jj]).at(x as int, y as int)
                            != grids@[0].at(x as int, y as int),
                decreases grids@.len() - j,
        	{
                let a = grids[j].get(x as i64, y as i64);
                let b = grids[0].get(x as i64, y as i64);
                if a != b {
                    varies = true;
                }
                j += 1;
            }
            let frc = forced.contains(offx + (x as i64), offy + (y as i64));
            let is_rotor = varies || frc;
            proof {
                let cx = offx + x as int;
                let cy = offy + y as int;
                if varies {
                    let jj = choose|jj: int|
                        1 <= jj < grids@.len() && (#[trigger] grids@[jj]).at(x as int, y as int)
                            != grids@[0].at(x as int, y as int);
                    assert(pats@[jj].has(cx, cy) != pats@[0].has(cx, cy));
                    assert(rotor_spec(pats@, forced.cells@, cx, cy));
                }
                if !varies && !frc {
                    if rotor_spec(pats@, forced.cells@, cx, cy) {
                        let (a, b): (int, int) = choose|a: int, b: int|
                            #![trigger pats@[a].has(cx, cy), pats@[b].has(cx, cy)]
                            0 <= a < pats@.len() && 0 <= b < pats@.len() && pats@[a].has(cx, cy)
                                != pats@[b].has(cx, cy);
                        assert(grids@[a].at(x as int, y as int) == pats@[a].has(cx, cy));
                        assert(grids@[b].at(x as int, y as int) == pats@[b].has(cx, cy));
                        if grids@[a].at(x as int, y as int) != grids@[0].at(x as int, y as int) {
                            assert(varies);
                        } else {
                            assert(grids@[b].at(x as int, y as int) != grids@[0].at(
                                x as int,
                                y as int,
                            ));
                            assert(varies);
                        }
                    }
                }
            }
            col.push(is_rotor);
            y += 1;
        }
        rotor_cols.push(col);
        x += 1;
    }
    let rotor = Grid { w, h, cols: rotor_cols };
    let f = Frame { w, h, offx, offy, pats: grids, rotor };
    proof {
        reveal(normalize_post);
        assert forall|i2: int, x2: int, y2: int|
            0 <= i2 < pats@.len() && 0 <= x2 < f.w && 0 <= y2 < f.h implies (
        #[trigger] f.pats@[i2].at(x2, y2)) == pats@[i2].has(f.offx + x2, f.offy + y2) by {}
        assert forall|i2: int| 0 <= i2 < pats@.len() implies margins_dead(#[trigger] f.pats@[i2]) by {
            assert forall|x2: int, y2: int|
                0 <= x2 < f.w && 0 <= y2 < f.h && (x2 < 2 || x2 >= f.w - 2 || y2 < 2 || y2 >= f.h
                    - 2) implies !#[trigger] f.pats@[i2].at(x2, y2) by {
                if f.pats@[i2].at(x2, y2) {
                    assert(pats@[i2].has(f.offx + x2, f.offy + y2));
                    assert(in_union(pats@, f.offx + x2, f.offy + y2));
                    assert(minx as int <= f.offx + x2 <= maxx as int);
                    assert(miny as int <= f.offy + y2 <= maxy as int);
                }
            }
        }
        assert(min_x_is(pats@, f.offx + pad + 2));
        assert(max_x_is(pats@, f.offx + f.w - pad - 3));
        assert(min_y_is(pats@, f.offy + pad + 2));
        assert(max_y_is(pats@, f.offy + f.h - pad - 3));
    }
    Ok(f)
}

} // verus!
