//! Strips: the horizontal or vertical bands of the frame over which the
//! dynamic program optimizes the stator, and the embedding of a strip search
//! result back into the frame.

use vstd::prelude::*;
use crate::frame::{Frame, Grid, margins_dead};
use crate::allowed::AllowedTable;
use crate::dp::{StripInput, strip_search, cbit, strip_result_ok};
use crate::support::{lemma_or_bound, lemma_bit_bound, lemma_bit_disjoint, lemma_or_disjoint,
    lemma_zero64, lemma_or_bit_read};
use crate::Error;

verus! {

/// The frame x coordinate of strip-local cell `(cx, k)`: for a horizontal
/// band the swept axis is x, for a vertical band it is y.
pub open spec fn gx_of(horizontal: bool, start: int, cx: int, k: int) -> int {
    if horizontal {
        cx
    } else {
        start + k
    }
}

/// The frame y coordinate of strip-local cell `(cx, k)`.
pub open spec fn gy_of(horizontal: bool, start: int, cx: int, k: int) -> int {
    if horizontal {
        start + k
    } else {
        cx
    }
}

/// A band of the frame. `Horizontal(y0, y1)` covers rows `y0..y1` and is
/// swept along the x axis; `Vertical(x0, x1)` covers columns `x0..x1` and is
/// swept along the y axis. The two outermost rows (resp. columns) at each end
/// are a fixed boundary; only the interior is mutable.
#[derive(Clone, Copy, PartialEq, Eq, Structural, Debug)]
pub enum Strip {
    Horizontal(usize, usize),
    Vertical(usize, usize),
}

impl Strip {
    /// Whether a change at `(x, y)` can affect this strip's search. This
    /// deliberately over-approximates by one cell at the upper end.
    pub open spec fn sees_spec(self, x: int, y: int) -> bool {
        match self {
            Strip::Horizontal(start, end) => start <= y && y <= end,
            Strip::Vertical(start, end) => start <= x && x <= end,
        }
    }

    pub fn sees(&self, x: usize, y: usize) -> (r: bool)
        ensures
            r == self.sees_spec(x as int, y as int),
    {
        match self {
            Strip::Horizontal(start, end) => *start <= y && y <= *end,
            Strip::Vertical(start, end) => *start <= x && x <= *end,
        }
    }

    /// Whether `(x, y)` lies inside the band.
    pub open spec fn covers(self, x: int, y: int) -> bool {
        match self {
            Strip::Horizontal(start, end) => start <= y < end,
            Strip::Vertical(start, end) => start <= x < end,
        }
    }

    /// Whether `(x, y)` lies strictly inside the band's mutable interior:
    /// two cells in from each end of the band.
    pub open spec fn covers_interior(self, x: int, y: int) -> bool {
        match self {
            Strip::Horizontal(start, end) => start + 2 <= y < end - 2,
            Strip::Vertical(start, end) => start + 2 <= x < end - 2,
        }
    }

    /// A band that fits a `w x h` frame.
    pub open spec fn valid(self, w: int, h: int) -> bool {
        match self {
            Strip::Horizontal(start, end) => start + 5 <= end <= h,
            Strip::Vertical(start, end) => start + 5 <= end <= w,
        }
    }

    /// Run the strip search on this band of `pat1` and embed the result: the
    /// returned grid agrees with `pat1` on every rotor cell and everywhere
    /// outside the band's mutable interior, the two-cell fixed boundary of
    /// the band included. Fails with the resource ceiling on a band too
    /// thick for the search tables, and as infeasible when the search finds
    /// no assignment.
    #[verifier::loop_isolation(false)]
    #[verifier::rlimit(100)]
    pub fn run(&self, f: &Frame, tbl: &AllowedTable, pat1: &Grid) -> (r: Result<Grid, Error>)
        requires
            f.wf(),
            tbl.wf(),
            tbl.w == f.w,
            tbl.h == f.h,
            pat1.wf(),
            pat1.w == f.w,
            pat1.h == f.h,
            margins_dead(*pat1),
            self.valid(f.w as int, f.h as int),
        ensures
            match r {
                Ok(p2) => {
                    &&& p2.wf()
                    &&& p2.w == f.w
                    &&& p2.h == f.h
                    &&& forall|x: int, y: int|
                        0 <= x < f.w && 0 <= y < f.h && (f.rotor.at(x, y)
                            || !self.covers_interior(x, y)) ==> (#[trigger] p2.at(x, y)) == pat1.at(
                            x,
                            y,
                        )
                },
                Err(e) => e == Error::Infeasible || e == Error::ResourceCeiling,
            },
    {
        let (start, end, horizontal): (usize, usize, bool) = match self {
            Strip::Horizontal(s, e) => (*s, *e, true),
            Strip::Vertical(s, e) => (*s, *e, false),
        };
        let hh = end - start;
        if hh > 60 {
            return Err(Error::ResourceCeiling);
        }
        let ww: usize = if horizontal {
            f.w
        } else {
            f.h
        };
        // pack the band into column masks along the swept axis
        let mut pat0: Vec<u64> = Vec::new();
        let mut rotor: Vec<u64> = Vec::new();
        let mut allowed: Vec<Vec<(u16, u16)>> = Vec::new();
        let hh64 = hh as u64;
        let mut cx: usize = 0;
        while cx < ww
            invariant
                cx <= ww,
                pat0@.len() == cx,
                rotor@.len() == cx,
                allowed@.len() == cx,
                5 <= hh <= 60,
                hh64 == hh as u64,
                ww <= 2048,
                f.wf(),
                tbl.wf(),
                tbl.w == f.w,
                tbl.h == f.h,
                pat1.wf(),
                pat1.w == f.w,
                pat1.h == f.h,
                margins_dead(*pat1),
                self.valid(f.w as int, f.h as int),
                horizontal == (self is Horizontal),
                self == (if horizontal {
                    Strip::Horizontal(start, end)
                } else {
                    Strip::Vertical(start, end)
                }),
                end == start + hh,
                if horizontal {
                    end <= f.h
                } else {
                    end <= f.w
                },
                ww == if horizontal {
                    f.w
                } else {
                    f.h
                },
                forall|k: int| 0 <= k < cx ==> ((#[trigger] pat0@[k]) >> hh64) == 0,
                forall|k: int| 0 <= k < cx ==> ((#[trigger] rotor@[k]) >> hh64) == 0,
                forall|k: int| 0 <= k < cx ==> (#[trigger] allowed@[k])@.len() == hh,
                forall|k: int, q: int|
                    0 <= k < cx && 0 <= q < hh ==> (#[trigger] cbit(pat0@, k, q)) == (pat1.at(
                        gx_of(horizontal, start as int, k, q),
                        gy_of(horizontal, start as int, k, q),
                    ) && !(k < 2 || k >= ww - 2)),
                forall|k: int, q: int|
                    0 <= k < cx && 0 <= q < hh ==> (#[trigger] cbit(rotor@, k, q)) == f.rotor.at(
                        gx_of(horizontal, start as int, k, q),
                        gy_of(horizontal, start as int, k, q),
                    ),
                cx >= 1 ==> pat0@[0] == 0,
                cx >= 2 ==> pat0@[1] == 0,
                cx >= ww - 1 && ww >= 2 ==> pat0@[ww - 2] == 0,
                cx >= ww && ww >= 1 ==> pat0@[ww - 1] == 0,
            decreases ww - cx,
        {
            let border = cx < 2 || cx >= ww - 2;
            let mut pc: u64 = 0;
            let mut rc: u64 = 0;
            let mut arow: Vec<(u16, u16)> = Vec::new();
            proof {
                lemma_zero64(hh64, 0);
                assert forall|k: u64| #![trigger 0u64 >> k] k < 64 implies ((0u64 >> k) & 1)
                    == 0 by {
                    lemma_zero64(k, 1);
                }
            }
            let mut yy: usize = 0;
            while yy < hh
                invariant
                    yy <= hh,
                    5 <= hh <= 60,
                    hh64 == hh as u64,
                    cx < ww,
                    ww <= 2048,
                    f.wf(),
                    tbl.wf(),
                    tbl.w == f.w,
                    tbl.h == f.h,
                    pat1.wf(),
                    pat1.w == f.w,
                    pat1.h == f.h,
                    margins_dead(*pat1),
                    end == start + hh,
                    if horizontal {
                        end <= f.h
                    } else {
                        end <= f.w
                    },
                    ww == if horizontal {
                        f.w
                    } else {
                        f.h
                    },
                    border == (cx < 2 || cx >= ww - 2),
                    arow@.len() == yy,
                    (pc >> hh64) == 0,
                    (rc >> hh64) == 0,
                    border ==> pc == 0,
                    forall|k: u64|
                        #![trigger pc >> k]
                        k < yy ==> (((pc >> k) & 1) == 1) == (pat1.at(
                            gx_of(horizontal, start as int, cx as int, k as int),
                            gy_of(horizontal, start as int, cx as int, k as int),
                        ) && !border),
                    forall|k: u64| #![trigger pc >> k] yy <= k < 64 ==> ((pc >> k) & 1) == 0,
                    forall|k: u64|
                        #![trigger rc >> k]
                        k < yy ==> (((rc >> k) & 1) == 1) == f.rotor.at(
                            gx_of(horizontal, start as int, cx as int, k as int),
                            gy_of(horizontal, start as int, cx as int, k as int),
                        ),
                    forall|k: u64| #![trigger rc >> k] yy <= k < 64 ==> ((rc >> k) & 1) == 0,
                decreases hh - yy,
            {
                let (gx, gy): (i64, i64) = if horizontal {
                    (cx as i64, (start + yy) as i64)
                } else {
                    ((start + yy) as i64, cx as i64)
                };
                let live = pat1.get(gx, gy);
                let rot = f.rotor.get(gx, gy);
                let ghost pc_in = pc;
                let ghost rc_in = rc;
                if live && !border {
                    proof {
                        lemma_bit_bound(yy as u64, hh64);
                        lemma_or_bound(pc, 1u64 << (yy as u64), hh64);
                    }
                    pc = pc | (1u64 << (yy as u64));
                }
                proof {
                    if live && border {
                        // the margin of the frame is dead, so a border
                        // column of the band holds no live cell
                        assert(pat1.at(gx as int, gy as int));
                        assert(false);
                    }
                }
                if rot {
                    proof {
                        lemma_bit_bound(yy as u64, hh64);
                        lemma_or_bound(rc, 1u64 << (yy as u64), hh64);
                    }
                    rc = rc | (1u64 << (yy as u64));
                }
                proof {
                    assert(gx as int == gx_of(horizontal, start as int, cx as int, yy as int));
                    assert(gy as int == gy_of(horizontal, start as int, cx as int, yy as int));
                    if live && !border {
                        assert forall|k: u64| #![trigger pc >> k] k < 64 implies ((pc >> k) & 1)
                            == (if k == yy as u64 {
                            1u64
                        } else {
                            (pc_in >> k) & 1
                        }) by {
                            lemma_or_bit_read(pc_in, yy as u64, k);
                        }
                    }
                    if rot {
                        assert forall|k: u64| #![trigger rc >> k] k < 64 implies ((rc >> k) & 1)
                            == (if k == yy as u64 {
                            1u64
                        } else {
                            (rc_in >> k) & 1
                        }) by {
                            lemma_or_bit_read(rc_in, yy as u64, k);
                        }
                    }
                }
                arow.push(tbl.bits[gx as usize][gy as usize]);
                yy += 1;
            }
            let ghost old_p0 = pat0@;
            let ghost old_rt = rotor@;
            pat0.push(pc);
            rotor.push(rc);
            allowed.push(arow);
            proof {
                assert forall|k: int, q: int|
                    0 <= k < cx + 1 && 0 <= q < hh implies (#[trigger] cbit(pat0@, k, q)) == (
                pat1.at(
                    gx_of(horizontal, start as int, k, q),
                    gy_of(horizontal, start as int, k, q),
                ) && !(k < 2 || k >= ww - 2)) by {
                    if k < cx {
                        assert(pat0@[k] == old_p0[k]);
                        assert(cbit(old_p0, k, q) == (pat1.at(
                            gx_of(horizontal, start as int, k, q),
                            gy_of(horizontal, start as int, k, q),
                        ) && !(k < 2 || k >= ww - 2)));
                    } else {
                        assert(pat0@[k] == pc);
                        assert((((pc >> (q as u64)) & 1) == 1) == (pat1.at(
                            gx_of(horizontal, start as int, cx as int, q),
                            gy_of(horizontal, start as int, cx as int, q),
                        ) && !border));
                    }
                }
                assert forall|k: int, q: int|
                    0 <= k < cx + 1 && 0 <= q < hh implies (#[trigger] cbit(rotor@, k, q))
                    == f.rotor.at(
                    gx_of(horizontal, start as int, k, q),
                    gy_of(horizontal, start as int, k, q),
                ) by {
                    if k < cx {
                        assert(rotor@[k] == old_rt[k]);
                        assert(cbit(old_rt, k, q) == f.rotor.at(
                            gx_of(horizontal, start as int, k, q),
                            gy_of(horizontal, start as int, k, q),
                        ));
                    } else {
                        assert(rotor@[k] == rc);
                        assert((((rc >> (q as u64)) & 1) == 1) == f.rotor.at(
                            gx_of(horizontal, start as int, cx as int, q),
                            gy_of(horizontal, start as int, cx as int, q),
                        ));
                    }
                }
            }
            cx += 1;
        }
        let ghost g_p0 = pat0@;
        let ghost g_rt = rotor@;
        let inp = StripInput { ww, hh, pat0, rotor, allowed };
        proof {
            assert(inp.pat0@ == g_p0 && inp.rotor@ == g_rt);
        }
        let cols = match strip_search(&inp) {
            Ok(cols) => cols,
            Err(e) => {
                return Err(e);
            },
        };
        // embed: inside the band take the searched stator on non-rotor
        // cells, keep `pat1` everywhere else
        let mut new_cols: Vec<Vec<bool>> = Vec::new();
        let mut x: usize = 0;
        while x < f.w
            invariant
                x <= f.w,
                new_cols@.len() == x,
                f.wf(),
                pat1.wf(),
                pat1.w == f.w,
                pat1.h == f.h,
                5 <= hh <= 60,
                end == start + hh,
                cols@.len() == ww,
                ww == if horizontal {
                    f.w
                } else {
                    f.h
                },
                self == (if horizontal {
                    Strip::Horizontal(start, end)
                } else {
                    Strip::Vertical(start, end)
                }),
                forall|xx: int| 0 <= xx < x ==> (#[trigger] new_cols@[xx])@.len() == f.h,
                forall|xx: int, yy2: int|
                    0 <= xx < x && 0 <= yy2 < f.h && (f.rotor.at(xx, yy2) || !self.covers_interior(
                        xx,
                        yy2,
                    )) ==> (#[trigger] new_cols@[xx]@[yy2]) == pat1.at(xx, yy2),
            decreases f.w - x,
        {
            let mut col: Vec<bool> = Vec::new();
            let mut y: usize = 0;
            while y < f.h
                invariant
                    y <= f.h,
                    x < f.w,
                    col@.len() == y,
                    f.wf(),
                    pat1.wf(),
                    pat1.w == f.w,
                    pat1.h == f.h,
                    5 <= hh <= 60,
                    end == start + hh,
                    cols@.len() == ww,
                    ww == if horizontal {
                        f.w
                    } else {
                        f.h
                    },
                    self == (if horizontal {
                        Strip::Horizontal(start, end)
                    } else {
                        Strip::Vertical(start, end)
                    }),
                    forall|yy2: int|
                        0 <= yy2 < y && (f.rotor.at(x as int, yy2) || !self.covers_interior(
                            x as int,
                            yy2,
                        )) ==> (#[trigger] col@[yy2]) == pat1.at(x as int, yy2),
                decreases f.h - y,
            {
                let inside: bool = if horizontal {
                    start <= y && y < end
                } else {
                    start <= x && x < end
                };
                let rot = f.rotor.get(x as i64, y as i64);
                let v: bool = if inside && !rot {
                    let (ci, bi): (usize, usize) = if horizontal {
                        (x, y - start)
                    } else {
                        (y, x - start)
                    };
                    let b = ((cols[ci] >> (bi as u64)) & 1) == 1;
                    proof {
                        assert(b == cbit(cols@, ci as int, bi as int));
                        assert(gx_of(horizontal, start as int, ci as int, bi as int) == x as int);
                        assert(gy_of(horizontal, start as int, ci as int, bi as int) == y as int);
                        if !self.covers_interior(x as int, y as int) {
                            // a fixed boundary row of the band: the search
                            // returned the input's non-rotor liveness there
                            assert(bi < 2 || bi >= hh - 2);
                            assert(cbit(cols@, ci as int, bi as int) == (cbit(
                                inp.pat0@,
                                ci as int,
                                bi as int,
                            ) && !cbit(inp.rotor@, ci as int, bi as int)));
                            assert(cbit(inp.rotor@, ci as int, bi as int) == f.rotor.at(
                                x as int,
                                y as int,
                            ));
                            assert(cbit(inp.pat0@, ci as int, bi as int) == (pat1.at(
                                x as int,
                                y as int,
                            ) && !(ci < 2 || ci >= ww - 2)));
                            if ci < 2 || ci >= ww - 2 {
                                // a border column of the band sits on the
                                // frame's dead margin
                                assert(!pat1.at(x as int, y as int));
                            }
                            assert(b == pat1.at(x as int, y as int));
                        }
                    }
                    b
                } else {
                    pat1.get(x as i64, y as i64)
                };
                col.push(v);
                y += 1;
            }
            new_cols.push(col);
            x += 1;
        }
        let p2 = Grid { w: f.w, h: f.h, cols: new_cols };
        Ok(p2)
    }
}

} // verus!
