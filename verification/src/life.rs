//! The B3/S23 rule, sparse patterns, and the single-step evolution.

use vstd::prelude::*;
use crate::support::{lex_le, lex_lt, sorted_cells};

verus! {

broadcast use vstd::seq_lib::lemma_seq_contains_after_push;

/// The B3/S23 rule stated over the full 3x3 Moore neighborhood count `nh`,
/// which includes the cell itself when the cell is live: a dead cell becomes
/// live iff the window holds exactly 3 live cells, a live cell stays live iff
/// the window holds 3 or 4 (itself plus 2 or 3 neighbors).
pub open spec fn b3s23(live: bool, nh: int) -> bool {
    if live {
        nh == 3 || nh == 4
    } else {
        nh == 3
    }
}

/// Whether a cell is live in the next generation, from its current liveness
/// (`live` is 0 or 1) and its 3x3 window count `nh` (including itself).
pub fn f_live(live: usize, nh: usize) -> (r: bool)
    requires
        live <= 1,
        nh <= 1000,
    ensures
        r == b3s23(live == 1, nh as int),
{
    let magic_ct: usize = 2 * nh + 1 - live;
    6 <= magic_ct && magic_ct <= 8
}

/// Whether the cell list `s` holds the cell `(x, y)`.
pub open spec fn pat_has(s: Seq<(i64, i64)>, x: int, y: int) -> bool {
    exists|k: int| 0 <= k < s.len() && (#[trigger] s[k]).0 == x && s[k].1 == y
}

/// A cell list in strictly ascending lexicographic order: the canonical form
/// of a live-cell set.
pub open spec fn strictly_sorted(s: Seq<(i64, i64)>) -> bool {
    forall|i: int, j: int| 0 <= i < j < s.len() ==> lex_lt(#[trigger] s[i], #[trigger] s[j])
}

/// All coordinates of the cell list lie in `[-b, b]`.
pub open spec fn bounded(s: Seq<(i64, i64)>, b: int) -> bool {
    forall|k: int| 0 <= k < s.len() ==> -b <= (#[trigger] s[k]).0 <= b && -b <= s[k].1 <= b
}

pub open spec fn b2i(b: bool) -> int {
    if b {
        1
    } else {
        0
    }
}

/// The number of live cells of `s` in the 3x3 window centered at `(x, y)`,
/// the center included.
pub open spec fn nh9(s: Seq<(i64, i64)>, x: int, y: int) -> int {
    b2i(pat_has(s, x - 1, y - 1)) + b2i(pat_has(s, x - 1, y)) + b2i(pat_has(s, x - 1, y + 1))
        + b2i(pat_has(s, x, y - 1)) + b2i(pat_has(s, x, y)) + b2i(pat_has(s, x, y + 1)) + b2i(
        pat_has(s, x + 1, y - 1),
    ) + b2i(pat_has(s, x + 1, y)) + b2i(pat_has(s, x + 1, y + 1))
}

/// Whether `(x, y)` is live after one B3/S23 step of the set `s`.
pub open spec fn rule_at(s: Seq<(i64, i64)>, x: int, y: int) -> bool {
    b3s23(pat_has(s, x, y), nh9(s, x, y))
}

/// `q` is the B3/S23 successor of `p`.
pub open spec fn step_rel(p: Seq<(i64, i64)>, q: Seq<(i64, i64)>) -> bool {
    forall|x: int, y: int|
        #![trigger pat_has(q, x, y)]
        #![trigger pat_has(p, x, y)]
        pat_has(q, x, y) <==> rule_at(p, x, y)
}

/// The whole 3x3 window centered at `(cx, cy)` occurs in `s`.
pub open spec fn covers_window(s: Seq<(i64, i64)>, cx: int, cy: int) -> bool {
    &&& pat_has(s, cx - 1, cy - 1)
    &&& pat_has(s, cx - 1, cy)
    &&& pat_has(s, cx - 1, cy + 1)
    &&& pat_has(s, cx, cy - 1)
    &&& pat_has(s, cx, cy)
    &&& pat_has(s, cx, cy + 1)
    &&& pat_has(s, cx + 1, cy - 1)
    &&& pat_has(s, cx + 1, cy)
    &&& pat_has(s, cx + 1, cy + 1)
}

/// The cell `c` lies in the 3x3 window of some cell of `p`.
pub open spec fn near_live(p: Seq<(i64, i64)>, c: (i64, i64)) -> bool {
    exists|j: int|
        0 <= j < p.len() && (#[trigger] p[j]).0 - 1 <= c.0 <= p[j].0 + 1 && p[j].1 - 1 <= c.1
            <= p[j].1 + 1
}

/// The cell `c` occurs in `cand` and the rule makes it live over `pc`.
pub open spec fn rule_member(pc: Seq<(i64, i64)>, cand: Seq<(i64, i64)>, c: (i64, i64)) -> bool {
    exists|j: int|
        0 <= j < cand.len() && (#[trigger] cand[j]) == c && rule_at(
            pc,
            cand[j].0 as int,
            cand[j].1 as int,
        )
}

/// A cell found in a list is still found in any extension of it.
pub proof fn lemma_pat_has_extend(s1: Seq<(i64, i64)>, s2: Seq<(i64, i64)>, x: int, y: int)
    requires
        s1.len() <= s2.len(),
        forall|i: int| 0 <= i < s1.len() ==> s2[i] == #[trigger] s1[i],
        pat_has(s1, x, y),
    ensures
        pat_has(s2, x, y),
{
    let k = choose|k: int| 0 <= k < s1.len() && (#[trigger] s1[k]).0 == x && s1[k].1 == y;
    assert(s2[k] == s1[k]);
}

/// A covered window stays covered in any extension of the list.
pub proof fn lemma_covers_extend(s1: Seq<(i64, i64)>, s2: Seq<(i64, i64)>, cx: int, cy: int)
    requires
        s1.len() <= s2.len(),
        forall|i: int| 0 <= i < s1.len() ==> s2[i] == #[trigger] s1[i],
        covers_window(s1, cx, cy),
    ensures
        covers_window(s2, cx, cy),
{
    lemma_pat_has_extend(s1, s2, cx - 1, cy - 1);
    lemma_pat_has_extend(s1, s2, cx - 1, cy);
    lemma_pat_has_extend(s1, s2, cx - 1, cy + 1);
    lemma_pat_has_extend(s1, s2, cx, cy - 1);
    lemma_pat_has_extend(s1, s2, cx, cy);
    lemma_pat_has_extend(s1, s2, cx, cy + 1);
    lemma_pat_has_extend(s1, s2, cx + 1, cy - 1);
    lemma_pat_has_extend(s1, s2, cx + 1, cy);
    lemma_pat_has_extend(s1, s2, cx + 1, cy + 1);
}

/// Two cell lists with the same elements hold the same cells.
pub proof fn lemma_has_from_contains(a: Seq<(i64, i64)>, b: Seq<(i64, i64)>)
    requires
        forall|c: (i64, i64)| a.contains(c) <==> b.contains(c),
    ensures
        forall|x: int, y: int|
            #![trigger pat_has(a, x, y)]
            #![trigger pat_has(b, x, y)]
            pat_has(a, x, y) <==> pat_has(b, x, y),
{
    assert forall|x: int, y: int|
        #![trigger pat_has(a, x, y)]
        #![trigger pat_has(b, x, y)]
        pat_has(a, x, y) <==> pat_has(b, x, y) by {
        if pat_has(a, x, y) {
            let k = choose|k: int| 0 <= k < a.len() && (#[trigger] a[k]).0 == x && a[k].1 == y;
            assert(a.contains(a[k]));
            let m = choose|m: int| 0 <= m < b.len() && b[m] == a[k];
            assert((#[trigger] b[m]).0 == x && b[m].1 == y);
        }
        if pat_has(b, x, y) {
            let k = choose|k: int| 0 <= k < b.len() && (#[trigger] b[k]).0 == x && b[k].1 == y;
            assert(b.contains(b[k]));
            let m = choose|m: int| 0 <= m < a.len() && a[m] == b[k];
            assert((#[trigger] a[m]).0 == x && a[m].1 == y);
        }
    }
}

/// The cells that the rule keeps live all appear among the candidate
/// windows, so a filtered candidate list is the full successor.
#[verifier::rlimit(100)]
proof fn lemma_step_complete(
    pc: Seq<(i64, i64)>,
    cand_raw: Seq<(i64, i64)>,
    cand: Seq<(i64, i64)>,
    out: Seq<(i64, i64)>,
)
    requires
        forall|j: int|
            0 <= j < pc.len() ==> covers_window(
                cand_raw,
                (#[trigger] pc[j]).0 as int,
                pc[j].1 as int,
            ),
        forall|x: int, y: int|
            #![trigger pat_has(cand, x, y)]
            #![trigger pat_has(cand_raw, x, y)]
            pat_has(cand, x, y) <==> pat_has(cand_raw, x, y),
        forall|m: int| 0 <= m < out.len() ==> rule_member(pc, cand, #[trigger] out[m]),
        forall|j: int|
            0 <= j < cand.len() && rule_at(pc, (#[trigger] cand[j]).0 as int, cand[j].1 as int)
                ==> out.contains(cand[j]),
    ensures
        step_rel(pc, out),
{
    assert forall|x: int, y: int|
        #![trigger pat_has(out, x, y)]
        #![trigger pat_has(pc, x, y)]
        pat_has(out, x, y) <==> rule_at(pc, x, y) by {
        if pat_has(out, x, y) {
            let m = choose|m: int| 0 <= m < out.len() && (#[trigger] out[m]).0 == x && out[m].1
                == y;
            assert(rule_member(pc, cand, out[m]));
            let j = choose|j: int|
                0 <= j < cand.len() && (#[trigger] cand[j]) == out[m] && rule_at(
                    pc,
                    cand[j].0 as int,
                    cand[j].1 as int,
                );
            assert(rule_at(pc, x, y));
        }
        if rule_at(pc, x, y) {
            // a cell the rule makes live has at least 3 live cells in its
            // window, so it neighbors a live cell and is a candidate
            assert(nh9(pc, x, y) >= 3);
            assert(pat_has(pc, x - 1, y - 1) || pat_has(pc, x - 1, y) || pat_has(pc, x - 1, y + 1)
                || pat_has(pc, x, y - 1) || pat_has(pc, x, y) || pat_has(pc, x, y + 1) || pat_has(
                pc,
                x + 1,
                y - 1,
            ) || pat_has(pc, x + 1, y) || pat_has(pc, x + 1, y + 1));
            if pat_has(pc, x - 1, y - 1) {
                let j = choose|j: int|
                    0 <= j < pc.len() && (#[trigger] pc[j]).0 == x - 1 && pc[j].1 == y - 1;
                assert(covers_window(cand_raw, pc[j].0 as int, pc[j].1 as int));
            } else if pat_has(pc, x - 1, y) {
                let j = choose|j: int|
                    0 <= j < pc.len() && (#[trigger] pc[j]).0 == x - 1 && pc[j].1 == y;
                assert(covers_window(cand_raw, pc[j].0 as int, pc[j].1 as int));
            } else if pat_has(pc, x - 1, y + 1) {
                let j = choose|j: int|
                    0 <= j < pc.len() && (#[trigger] pc[j]).0 == x - 1 && pc[j].1 == y + 1;
                assert(covers_window(cand_raw, pc[j].0 as int, pc[j].1 as int));
            } else if pat_has(pc, x, y - 1) {
                let j = choose|j: int|
                    0 <= j < pc.len() && (#[trigger] pc[j]).0 == x && pc[j].1 == y - 1;
                assert(covers_window(cand_raw, pc[j].0 as int, pc[j].1 as int));
            } else if pat_has(pc, x, y) {
                let j = choose|j: int|
                    0 <= j < pc.len() && (#[trigger] pc[j]).0 == x && pc[j].1 == y;
                assert(covers_window(cand_raw, pc[j].0 as int, pc[j].1 as int));
            } else if pat_has(pc, x, y + 1) {
                let j = choose|j: int|
                    0 <= j < pc.len() && (#[trigger] pc[j]).0 == x && pc[j].1 == y + 1;
                assert(covers_window(cand_raw, pc[j].0 as int, pc[j].1 as int));
            } else if pat_has(pc, x + 1, y - 1) {
                let j = choose|j: int|
                    0 <= j < pc.len() && (#[trigger] pc[j]).0 == x + 1 && pc[j].1 == y - 1;
                assert(covers_window(cand_raw, pc[j].0 as int, pc[j].1 as int));
            } else if pat_has(pc, x + 1, y) {
                let j = choose|j: int|
                    0 <= j < pc.len() && (#[trigger] pc[j]).0 == x + 1 && pc[j].1 == y;
                assert(covers_window(cand_raw, pc[j].0 as int, pc[j].1 as int));
            } else {
                let j = choose|j: int|
                    0 <= j < pc.len() && (#[trigger] pc[j]).0 == x + 1 && pc[j].1 == y + 1;
                assert(covers_window(cand_raw, pc[j].0 as int, pc[j].1 as int));
            }
            assert(pat_has(cand_raw, x, y));
            assert(pat_has(cand, x, y));
            let i = choose|i: int|
                0 <= i < cand.len() && (#[trigger] cand[i]).0 == x && cand[i].1 == y;
            assert(rule_at(pc, cand[i].0 as int, cand[i].1 as int));
            assert(out.contains(cand[i]));
            let m2 = choose|m2: int| 0 <= m2 < out.len() && out[m2] == cand[i];
            assert((#[trigger] out[m2]).0 == x && out[m2].1 == y);
        }
    }
}

/// A filtered candidate list stays within one cell of the live cells.
proof fn lemma_step_bounded(pc: Seq<(i64, i64)>, cand: Seq<(i64, i64)>, out: Seq<(i64, i64)>)
    requires
        forall|i: int| 0 <= i < cand.len() ==> near_live(pc, #[trigger] cand[i]),
        forall|m: int| 0 <= m < out.len() ==> rule_member(pc, cand, #[trigger] out[m]),
    ensures
        forall|bb: int| bounded(pc, bb) ==> bounded(out, bb + 1),
{
    assert forall|bb: int| bounded(pc, bb) implies bounded(out, bb + 1) by {
        assert forall|m: int|
            0 <= m < out.len() implies -(bb + 1) <= (#[trigger] out[m]).0 <= bb + 1 && -(bb + 1)
            <= out[m].1 <= bb + 1 by {
            assert(rule_member(pc, cand, out[m]));
            let j = choose|j: int|
                0 <= j < cand.len() && (#[trigger] cand[j]) == out[m] && rule_at(
                    pc,
                    cand[j].0 as int,
                    cand[j].1 as int,
                );
            assert(near_live(pc, cand[j]));
            let i = choose|i: int|
                0 <= i < pc.len() && (#[trigger] pc[i]).0 - 1 <= cand[j].0 <= pc[i].0 + 1 && pc[i].1
                    - 1 <= cand[j].1 <= pc[i].1 + 1;
        }
    }
}

/// A live-cell set in canonical form: the cells in strictly ascending
/// lexicographic order, so equal sets have equal cell lists.
pub struct Pattern {
    pub cells: Vec<(i64, i64)>,
}

impl Pattern {
    pub open spec fn wf(&self) -> bool {
        strictly_sorted(self.cells@)
    }

    pub open spec fn has(&self, x: int, y: int) -> bool {
        pat_has(self.cells@, x, y)
    }

    /// The number of live cells.
    pub fn len(&self) -> (n: usize)
        ensures
            n == self.cells@.len(),
    {
        self.cells.len()
    }

    /// Whether `(x, y)` is live.
    pub fn contains(&self, x: i64, y: i64) -> (r: bool)
        ensures
            r == self.has(x as int, y as int),
    {
        let mut k: usize = 0;
        while k < self.cells.len()
            invariant
                k <= self.cells@.len(),
                forall|m: int|
                    0 <= m < k ==> !((#[trigger] self.cells@[m]).0 == x && self.cells@[m].1 == y),
            decreases self.cells@.len() - k,
        {
            let c = self.cells[k];
            if c.0 == x && c.1 == y {
                return true;
            }
            k += 1;
        }
        false
    }

    /// An identical copy of this pattern.
    pub fn duplicate(&self) -> (r: Pattern)
        ensures
            r.cells@ == self.cells@,
    {
        Pattern { cells: clone_cells(&self.cells) }
    }
}

/// An element-wise copy of a cell list.
pub fn clone_cells(v: &Vec<(i64, i64)>) -> (r: Vec<(i64, i64)>)
    ensures
        r@ == v@,
{
    let mut r: Vec<(i64, i64)> = Vec::new();
    let mut k: usize = 0;
    while k < v.len()
        invariant
            k <= v@.len(),
            r@ == v@.subrange(0, k as int),
        decreases v@.len() - k,
    {
        r.push(v[k]);
        proof {
            assert(r@ =~= v@.subrange(0, k + 1 as int));
        }
        k += 1;
    }
    proof {
        assert(r@ =~= v@);
    }
    r
}

/// Sort a cell list and drop duplicates, giving the canonical form of the
/// set of cells it holds.
pub fn canonicalize(v: &Vec<(i64, i64)>) -> (r: Vec<(i64, i64)>)
    ensures
        strictly_sorted(r@),
        forall|x: int, y: int|
            #![trigger pat_has(r@, x, y)]
            #![trigger pat_has(v@, x, y)]
            pat_has(r@, x, y) <==> pat_has(v@, x, y),
        forall|c: (i64, i64)| r@.contains(c) <==> v@.contains(c),
{
    let sorted = sorted_cells(v);
    let mut r: Vec<(i64, i64)> = Vec::new();
    let mut k: usize = 0;
    while k < sorted.len()
        invariant
            k <= sorted@.len(),
            forall|i: int, j: int|
                0 <= i < j < sorted@.len() ==> lex_le(#[trigger] sorted@[i], #[trigger] sorted@[j]),
            strictly_sorted(r@),
            r@.len() > 0 ==> k > 0 && r@.last() == sorted@[k - 1],
            k > 0 ==> r@.len() > 0,
            forall|m: int| 0 <= m < r@.len() ==> sorted@.contains(#[trigger] r@[m]),
            forall|j: int| 0 <= j < k ==> r@.contains(#[trigger] sorted@[j]),
        decreases sorted@.len() - k,
    {
        let c = sorted[k];
        let push_it: bool = if r.len() == 0 {
            true
        } else {
            let l = r[r.len() - 1];
            !(l.0 == c.0 && l.1 == c.1)
        };
        if push_it {
            proof {
                if r@.len() > 0 {
                    let l = r@.last();
                    assert(lex_le(sorted@[k - 1], sorted@[k as int]));
                    assert(lex_lt(l, c));
                    assert forall|m: int| 0 <= m < r@.len() implies lex_lt(#[trigger] r@[m], c) by {
                        if m < r@.len() - 1 {
                            assert(lex_lt(r@[m], r@[r@.len() - 1]));
                        }
                    }
                }
                assert(sorted@.contains(sorted@[k as int]));
            }
            r.push(c);
        } else {
            proof {
                assert(r@.contains(r@[r@.len() - 1]));
            }
        }
        k += 1;
    }
    proof {
        assert forall|c: (i64, i64)| r@.contains(c) <==> v@.contains(c) by {
            if r@.contains(c) {
                let m = choose|m: int| 0 <= m < r@.len() && r@[m] == c;
                assert(sorted@.contains(r@[m]));
            }
            if v@.contains(c) {
                assert(sorted@.contains(c));
                let j = choose|j: int| 0 <= j < sorted@.len() && sorted@[j] == c;
                assert(r@.contains(sorted@[j]));
            }
        }
        lemma_has_from_contains(r@, v@);
    }
    r
}

/// Push the whole 3x3 window around `(cx, cy)` onto `v`.
fn push_window(v: &mut Vec<(i64, i64)>, cx: i64, cy: i64)
    requires
        -0x7fff_ffff_ffff_fffe <= cx <= 0x7fff_ffff_ffff_fffe,
        -0x7fff_ffff_ffff_fffe <= cy <= 0x7fff_ffff_ffff_fffe,
    ensures
        final(v)@.len() == old(v)@.len() + 9,
        forall|i: int| 0 <= i < old(v)@.len() ==> final(v)@[i] == #[trigger] old(v)@[i],
        covers_window(final(v)@, cx as int, cy as int),
        forall|m: int|
            old(v)@.len() <= m < final(v)@.len() ==> cx - 1 <= (#[trigger] final(v)@[m]).0 <= cx + 1
                && cy - 1 <= final(v)@[m].1 <= cy + 1,
{
    v.push((cx - 1, cy - 1));
    v.push((cx - 1, cy));
    v.push((cx - 1, cy + 1));
    v.push((cx, cy - 1));
    v.push((cx, cy));
    v.push((cx, cy + 1));
    v.push((cx + 1, cy - 1));
    v.push((cx + 1, cy));
    v.push((cx + 1, cy + 1));
    proof {
        let s = v@;
        let n = s.len();
        assert((#[trigger] s[n - 9]).0 == cx - 1 && s[n - 9].1 == cy - 1);
        assert((#[trigger] s[n - 8]).0 == cx - 1 && s[n - 8].1 == cy);
        assert((#[trigger] s[n - 7]).0 == cx - 1 && s[n - 7].1 == cy + 1);
        assert((#[trigger] s[n - 6]).0 == cx && s[n - 6].1 == cy - 1);
        assert((#[trigger] s[n - 5]).0 == cx && s[n - 5].1 == cy);
        assert((#[trigger] s[n - 4]).0 == cx && s[n - 4].1 == cy + 1);
        assert((#[trigger] s[n - 3]).0 == cx + 1 && s[n - 3].1 == cy - 1);
        assert((#[trigger] s[n - 2]).0 == cx + 1 && s[n - 2].1 == cy);
        assert((#[trigger] s[n - 1]).0 == cx + 1 && s[n - 1].1 == cy + 1);
    }
}

/// One B3/S23 step of a sparse pattern: the result holds exactly the cells
/// that the rule makes live, and stays within one cell of the input's
/// bounding box.
#[verifier::rlimit(100)]
pub fn step_pat(p: &Pattern) -> (r: Pattern)
    requires
        bounded(p.cells@, 0x7fff_ffff_ffff_fffd),
    ensures
        r.wf(),
        step_rel(p.cells@, r.cells@),
        forall|bb: int| bounded(p.cells@, bb) ==> bounded(r.cells@, bb + 1),
{
    // the 3x3 window around every live cell: only these can be live next
    let mut cand_raw: Vec<(i64, i64)> = Vec::new();
    let mut k: usize = 0;
    while k < p.cells.len()
        invariant
            k <= p.cells@.len(),
            bounded(p.cells@, 0x7fff_ffff_ffff_fffd),
            forall|m: int| 0 <= m < cand_raw@.len() ==> near_live(p.cells@, #[trigger] cand_raw@[m]),
            forall|j: int|
                0 <= j < k ==> covers_window(
                    cand_raw@,
                    (#[trigger] p.cells@[j]).0 as int,
                    p.cells@[j].1 as int,
                ),
        decreases p.cells@.len() - k,
    {
        let c = p.cells[k];
        let ghost before = cand_raw@;
        push_window(&mut cand_raw, c.0, c.1);
        proof {
            assert forall|j: int|
                0 <= j < k + 1 implies covers_window(
                cand_raw@,
                (#[trigger] p.cells@[j]).0 as int,
                p.cells@[j].1 as int,
            ) by {
                if j < k {
                    lemma_covers_extend(
                        before,
                        cand_raw@,
                        p.cells@[j].0 as int,
                        p.cells@[j].1 as int,
                    );
                }
            }
            assert forall|m: int|
                0 <= m < cand_raw@.len() implies near_live(p.cells@, #[trigger] cand_raw@[m]) by {
                if m >= before.len() {
                    assert(0 <= k < p.cells@.len() && (#[trigger] p.cells@[k as int]).0 - 1
                        <= cand_raw@[m].0 <= p.cells@[k as int].0 + 1 && p.cells@[k as int].1 - 1
                        <= cand_raw@[m].1 <= p.cells@[k as int].1 + 1);
                } else {
                    assert(cand_raw@[m] == before[m]);
                }
            }
        }
        k += 1;
    }
    let cand = canonicalize(&cand_raw);
    proof {
        assert forall|i: int|
            0 <= i < cand@.len() implies near_live(p.cells@, #[trigger] cand@[i]) by {
            assert(cand_raw@.contains(cand@[i]));
            let m = choose|m: int| 0 <= m < cand_raw@.len() && cand_raw@[m] == cand@[i];
        }
    }
    // keep the candidates that the rule makes live
    let mut out: Vec<(i64, i64)> = Vec::new();
    let mut k2: usize = 0;
    while k2 < cand.len()
        invariant
            k2 <= cand@.len(),
            strictly_sorted(cand@),
            bounded(p.cells@, 0x7fff_ffff_ffff_fffd),
            forall|i: int| 0 <= i < cand@.len() ==> near_live(p.cells@, #[trigger] cand@[i]),
            strictly_sorted(out@),
            out@.len() > 0 ==> exists|j: int| 0 <= j < k2 && (#[trigger] cand@[j]) == out@.last(),
            forall|m: int| 0 <= m < out@.len() ==> rule_member(p.cells@, cand@, #[trigger] out@[m]),
            forall|j: int|
                0 <= j < k2 && rule_at(p.cells@, (#[trigger] cand@[j]).0 as int, cand@[j].1 as int)
                    ==> out@.contains(cand@[j]),
        decreases cand@.len() - k2,
    {
        let c = cand[k2];
        proof {
            assert(near_live(p.cells@, cand@[k2 as int]));
            let j = choose|j: int|
                0 <= j < p.cells@.len() && (#[trigger] p.cells@[j]).0 - 1 <= cand@[k2 as int].0
                    <= p.cells@[j].0 + 1 && p.cells@[j].1 - 1 <= cand@[k2 as int].1
                    <= p.cells@[j].1 + 1;
            assert(-0x7fff_ffff_ffff_fffe <= c.0 <= 0x7fff_ffff_ffff_fffe);
            assert(-0x7fff_ffff_ffff_fffe <= c.1 <= 0x7fff_ffff_ffff_fffe);
        }
        let cx = c.0;
        let cy = c.1;
        let live = p.contains(cx, cy);
        let mut nh: usize = 0;
        if p.contains(cx - 1, cy - 1) {
            nh += 1;
        }
        if p.contains(cx - 1, cy) {
            nh += 1;
        }
        if p.contains(cx - 1, cy + 1) {
            nh += 1;
        }
        if p.contains(cx, cy - 1) {
            nh += 1;
        }
        if p.contains(cx, cy) {
            nh += 1;
        }
        if p.contains(cx, cy + 1) {
            nh += 1;
        }
        if p.contains(cx + 1, cy - 1) {
            nh += 1;
        }
        if p.contains(cx + 1, cy) {
            nh += 1;
        }
        if p.contains(cx + 1, cy + 1) {
            nh += 1;
        }
        proof {
            assert(nh as int == nh9(p.cells@, cx as int, cy as int));
        }
        if f_live(if live { 1 } else { 0 }, nh) {
            proof {
                if out@.len() > 0 {
                    let j = choose|j: int| 0 <= j < k2 && (#[trigger] cand@[j]) == out@.last();
                    assert(lex_lt(cand@[j], cand@[k2 as int]));
                    assert forall|m: int|
                        0 <= m < out@.len() implies lex_lt(#[trigger] out@[m], c) by {
                        if m < out@.len() - 1 {
                            assert(lex_lt(out@[m], out@[out@.len() - 1]));
                        }
                    }
                }
                assert(rule_at(p.cells@, (#[trigger] cand@[k2 as int]).0 as int, cand@[k2 as int].1 as int));
                assert(rule_member(p.cells@, cand@, cand@[k2 as int]));
            }
            out.push(c);
        }
        k2 += 1;
    }
    let r = Pattern { cells: out };
    proof {
        lemma_step_complete(p.cells@, cand_raw@, cand@, r.cells@);
        lemma_step_bounded(p.cells@, cand@, r.cells@);
    }
    r
}

} // verus!
