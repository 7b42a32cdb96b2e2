//! Counter grading and the display grid.

use lineup_progress::model::{ProgressStore, Target};
use lineup_progress::ops::{new_ability, new_map, new_usage, new_zone};
use lineup_progress::render::TargetGrade;
use lineup_progress::selection::{Selection, Selector};

fn grid() -> ProgressStore {
    let mut st = ProgressStore::new("progress".to_string());
    let mut sel = Selection::new();
    new_map(&mut st, &mut sel, "m1".to_string());
    new_zone(&mut st, &mut sel, "z1".to_string());
    new_zone(&mut st, &mut sel, "z2".to_string());
    new_map(&mut st, &mut sel, "m2".to_string());
    new_zone(&mut st, &mut sel, "z3".to_string());
    new_ability(&mut st, &mut sel, "a1".to_string());
    new_usage(&mut st, &mut sel, "u1".to_string());
    new_usage(&mut st, &mut sel, "u2".to_string());
    st
}

#[test]
fn grade_bands_follow_the_quarter_rule() {
    let t = |progress, target| Target { progress, target };
    assert_eq!(t(5, 0).grade(), TargetGrade::Unset);
    assert_eq!(t(0, 8).grade(), TargetGrade::Low);
    assert_eq!(t(2, 8).grade(), TargetGrade::Low);
    assert_eq!(t(-2, 8).grade(), TargetGrade::Low);
    assert_eq!(t(3, 8).grade(), TargetGrade::Partial);
    assert_eq!(t(-3, 8).grade(), TargetGrade::Partial);
    assert_eq!(t(8, 8).grade(), TargetGrade::Met);
    assert_eq!(t(9, 8).grade(), TargetGrade::Met);
    assert_eq!(t(1, 2).grade(), TargetGrade::Partial);
    assert_eq!(t(i32::MIN, 8).grade(), TargetGrade::Partial);
}

#[test]
fn render_rows_has_one_cell_per_coordinate() {
    let st = grid();
    let rows = st.render_rows(&Selection::new());
    assert_eq!(rows.len(), 2);
    assert_eq!(rows[0].len(), 2);
    assert_eq!(rows[1].len(), 1);
    for mrow in &rows {
        for zrow in mrow {
            assert_eq!(zrow.len(), 1);
            assert_eq!(zrow[0].len(), 2);
        }
    }
}

#[test]
fn render_rows_resolves_targets_and_marks_gaps() {
    let mut st = grid();
    let mut here = Selection::new();
    here.map = Some(Selector::Name("m2".to_string()));
    here.zone = Some(Selector::Name("z3".to_string()));
    here.ability = Some(Selector::Name("a1".to_string()));
    here.usage = Some(Selector::Name("u2".to_string()));
    st.get_target_mut(&here).unwrap().change_progress(7);
    // orphan one row's entries by excising its zone from the live maps
    st.rm_zone(&"m1".to_string(), &"z1".to_string());
    let rows = st.render_rows(&Selection::new());
    // m1 now has one zone (z2), whose entries are still resolvable
    assert_eq!(rows[0].len(), 1);
    assert_eq!(rows[0][0][0][0].target, Some(Target { progress: 0, target: 2 }));
    assert_eq!(rows[1][0][0][1].target, Some(Target { progress: 7, target: 2 }));
}

#[test]
fn render_rows_flags_exactly_the_cursor_cell() {
    let st = grid();
    let mut cur = Selection::new();
    cur.map = Some(Selector::Name("m1".to_string()));
    cur.zone = Some(Selector::Name("z2".to_string()));
    cur.ability = Some(Selector::Index(0));
    cur.usage = Some(Selector::Name("u1".to_string()));
    let rows = st.render_rows(&cur);
    let mut flagged = Vec::new();
    for (mi, mrow) in rows.iter().enumerate() {
        for (zi, zrow) in mrow.iter().enumerate() {
            for (ai, arow) in zrow.iter().enumerate() {
                for (ui, cell) in arow.iter().enumerate() {
                    if cell.selected {
                        flagged.push((mi, zi, ai, ui));
                    }
                }
            }
        }
    }
    assert_eq!(flagged, vec![(0, 1, 0, 0)]);
}

#[test]
fn render_rows_flags_nothing_for_an_empty_cursor() {
    let st = grid();
    let rows = st.render_rows(&Selection::new());
    for mrow in &rows {
        for zrow in mrow {
            for arow in zrow {
                for cell in arow {
                    assert!(!cell.selected);
                }
            }
        }
    }
}
