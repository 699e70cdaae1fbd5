use statormin::life::{canonicalize, f_live, step_pat, Pattern};
use statormin::period::detect_period;
use statormin::sched::optimize;
use statormin::Error;

fn pat(cells: Vec<(i64, i64)>) -> Pattern {
    Pattern { cells: canonicalize(&cells) }
}

fn empty() -> Pattern {
    Pattern { cells: Vec::new() }
}

#[test]
fn rule_basics() {
    // a live cell with 2 or 3 live neighbors (window count 3 or 4) survives
    assert!(f_live(1, 3));
    assert!(f_live(1, 4));
    assert!(!f_live(1, 2));
    assert!(!f_live(1, 5));
    // a dead cell with exactly 3 live window cells is born
    assert!(f_live(0, 3));
    assert!(!f_live(0, 2));
    assert!(!f_live(0, 4));
}

#[test]
fn step_blinker_rotates() {
    let horiz = pat(vec![(1, 1), (2, 1), (3, 1)]);
    let next = step_pat(&horiz);
    let vert = pat(vec![(2, 0), (2, 1), (2, 2)]);
    assert_eq!(next.cells, vert.cells);
}

#[test]
fn step_block_is_still() {
    let block = pat(vec![(0, 0), (1, 0), (0, 1), (1, 1)]);
    let next = step_pat(&block);
    assert_eq!(next.cells, block.cells);
}

#[test]
fn period_of_blinker_is_two() {
    let blinker = pat(vec![(0, 0), (1, 0), (2, 0)]);
    let pats = detect_period(&blinker).unwrap();
    assert_eq!(pats.len(), 2);
    assert_eq!(pats[0].cells, blinker.cells);
}

#[test]
fn period_of_block_is_one() {
    let block = pat(vec![(0, 0), (1, 0), (0, 1), (1, 1)]);
    let pats = detect_period(&block).unwrap();
    assert_eq!(pats.len(), 1);
}

#[test]
fn dying_seed_is_non_cycling() {
    // a single live cell dies; the empty pattern then repeats itself, so the
    // run re-enters past the seed
    let lone = pat(vec![(5, 5)]);
    match detect_period(&lone) {
        Ok(_) => panic!("expected an error"),
        Err(e) => assert_eq!(e, Error::NonCyclingSeed),
    }
}

#[test]
fn forced_rotor_island_is_non_cycling() {
    // an isolated forced-live cell still dies under the rule, so the period
    // detector refuses it before the rotor mask is ever built
    let lone = pat(vec![(5, 5)]);
    let forced = pat(vec![(5, 5)]);
    match optimize(&lone, &forced, 1, 3) {
        Ok(_) => panic!("expected an error"),
        Err(e) => assert_eq!(e, Error::NonCyclingSeed),
    }
}

#[test]
fn block_without_rotor_is_erased() {
    // a still life has no rotor cell, so every cell is mutable stator and
    // the empty assignment satisfies every constraint: the search removes
    // the whole pattern
    let block = pat(vec![(0, 0), (1, 0), (0, 1), (1, 1)]);
    let o = optimize(&block, &empty(), 1, 3).unwrap();
    assert_eq!(o.period, 1);
    assert_eq!(o.frame.rotor.count(), 0);
    assert_eq!(o.pat1.count(), 0);
}

#[test]
fn block_full_axis_strips() {
    // a search thickness larger than the frame falls back to one strip per
    // axis covering the whole frame
    let block = pat(vec![(0, 0), (1, 0), (0, 1), (1, 1)]);
    let o = optimize(&block, &empty(), 1, 50).unwrap();
    assert_eq!(o.pat1.count(), 0);
}

#[test]
fn blinker_keeps_three_cells() {
    let blinker = pat(vec![(1, 0), (2, 0), (3, 0)]);
    let o = optimize(&blinker, &empty(), 1, 3).unwrap();
    assert_eq!(o.period, 2);
    assert_eq!(o.pat1.count(), 3);
}

#[test]
fn beacon_keeps_six_cells() {
    let beacon = pat(vec![(0, 0), (1, 0), (0, 1), (3, 2), (2, 3), (3, 3)]);
    let o = optimize(&beacon, &empty(), 1, 3).unwrap();
    assert_eq!(o.period, 2);
    assert_eq!(o.pat1.count(), 6);
}

#[test]
fn toad_keeps_minimal_stator() {
    let toad = pat(vec![(1, 0), (2, 0), (3, 0), (0, 1), (1, 1), (2, 1)]);
    let o = optimize(&toad, &empty(), 3, 6).unwrap();
    assert_eq!(o.period, 2);
    assert_eq!(o.pat1.count(), 6);
    // two cells of the toad stay live through both phases; they are its
    // whole stator and cannot be removed
    let mut stator_live = 0;
    for x in 0..o.frame.w {
        for y in 0..o.frame.h {
            if o.pat1.cols[x][y] && !o.frame.rotor.cols[x][y] {
                stator_live += 1;
            }
        }
    }
    assert_eq!(stator_live, 2);
}

#[test]
fn forced_rotor_cell_on_block() {
    // forcing one cell of a still life marks it rotor; the pattern is kept
    let block = pat(vec![(0, 0), (1, 0), (0, 1), (1, 1)]);
    let forced = pat(vec![(0, 0)]);
    let o = optimize(&block, &forced, 1, 3).unwrap();
    assert_eq!(o.period, 1);
    assert_eq!(o.frame.rotor.count(), 1);
    // the forced live cell must keep 2 or 3 live stator cells in its window,
    // so the pattern cannot collapse
    assert!(o.pat1.count() >= 3);
    assert!(o.pat1.count() <= 4);
}

#[test]
fn all_cells_forced_rotor() {
    // with every cell of the band forced, nothing is mutable and the seed
    // survives unchanged
    let blinker = pat(vec![(1, 1), (2, 1), (3, 1)]);
    let mut forced_cells: Vec<(i64, i64)> = Vec::new();
    for x in -2i64..7 {
        for y in -2i64..5 {
            forced_cells.push((x, y));
        }
    }
    let forced = pat(forced_cells);
    let o = optimize(&blinker, &forced, 1, 3).unwrap();
    assert_eq!(o.pat1.count(), 3);
}

#[test]
fn rotor_cells_keep_phase_zero() {
    // every rotor cell of the final pattern agrees with phase 0
    let toad = pat(vec![(1, 0), (2, 0), (3, 0), (0, 1), (1, 1), (2, 1)]);
    let o = optimize(&toad, &empty(), 2, 4).unwrap();
    for x in 0..o.frame.w {
        for y in 0..o.frame.h {
            if o.frame.rotor.cols[x][y] {
                assert_eq!(o.pat1.cols[x][y], o.frame.pats[0].cols[x][y]);
            }
        }
    }
}

fn grids_equal(a: &statormin::frame::Grid, b: &statormin::frame::Grid) -> bool {
    a.w == b.w && a.h == b.h && a.cols == b.cols
}

#[test]
fn strip_search_idempotent_on_own_output() {
    // running the same strip twice in a row changes nothing the second time
    let blinker = pat(vec![(1, 0), (2, 0), (3, 0)]);
    let pats = detect_period(&blinker).unwrap();
    let f = statormin::frame::normalize(&pats, &empty(), 1).unwrap();
    let tbl = statormin::allowed::compile_allowed(&f);
    let pat1 = statormin::frame::grid_from_pattern(&pats[0], f.offx, f.offy, f.w, f.h);
    let strips = statormin::sched::enumerate_strips(f.w, f.h, 3);
    for s in &strips {
        let r1 = s.run(&f, &tbl, &pat1).unwrap();
        let r2 = s.run(&f, &tbl, &r1).unwrap();
        assert!(grids_equal(&r1, &r2));
    }
}

#[test]
fn final_pattern_is_per_strip_optimal() {
    // once the scheduler has drained its queue, no strip search improves the
    // final pattern
    let toad = pat(vec![(1, 0), (2, 0), (3, 0), (0, 1), (1, 1), (2, 1)]);
    let pats = detect_period(&toad).unwrap();
    let f = statormin::frame::normalize(&pats, &empty(), 2).unwrap();
    let tbl = statormin::allowed::compile_allowed(&f);
    let strips = statormin::sched::enumerate_strips(f.w, f.h, 4);
    let o = optimize(&toad, &empty(), 2, 4).unwrap();
    for s in &strips {
        let r = s.run(&o.frame, &tbl, &o.pat1).unwrap();
        assert!(r.count() >= o.pat1.count());
    }
}
