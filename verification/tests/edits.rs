//! The interactive edit operations and full scenarios.

use lineup_progress::model::{ProgressStore, Target};
use lineup_progress::ops::{
    is_all_digits, new_ability, new_map, new_usage, new_zone, remove_ability, remove_map,
    remove_usage, remove_zone, select_subject, InputOp, InputState, InputSubject,
};
use lineup_progress::selection::{Selection, Selector};

fn fresh() -> (ProgressStore, Selection) {
    (ProgressStore::new("progress".to_string()), Selection::new())
}

/// One map of two zones, one ability of two usages, built exactly as
/// confirmed input lines would build them.
fn overworld() -> (ProgressStore, Selection) {
    let (mut st, mut sel) = fresh();
    new_map(&mut st, &mut sel, "Overworld".to_string());
    new_zone(&mut st, &mut sel, "North".to_string());
    new_zone(&mut st, &mut sel, "South".to_string());
    new_ability(&mut st, &mut sel, "Jump".to_string());
    new_usage(&mut st, &mut sel, "Double".to_string());
    new_usage(&mut st, &mut sel, "Triple".to_string());
    (st, sel)
}

fn sel_names(m: &str, z: &str, a: &str, u: &str) -> Selection {
    let mut s = Selection::new();
    s.map = Some(Selector::Name(m.to_string()));
    s.zone = Some(Selector::Name(z.to_string()));
    s.ability = Some(Selector::Name(a.to_string()));
    s.usage = Some(Selector::Name(u.to_string()));
    s
}

#[test]
fn building_the_grid_fills_the_cross_product() {
    let (st, sel) = overworld();
    assert_eq!(st.maps.len(), 1);
    assert_eq!(st.maps[0].zones.len(), 2);
    assert_eq!(st.abilities.len(), 1);
    assert_eq!(st.abilities[0].usages.len(), 2);
    // two zones x (one ability x two usages): four cells
    assert_eq!(st.progress.len(), 4);
    // the cursor follows what was created
    assert!(sel.map == Some(Selector::Name("Overworld".to_string())));
    assert!(sel.usage == Some(Selector::Name("Triple".to_string())));
}

#[test]
fn scenario_increment_then_navigate_with_wraparound() {
    let (mut st, _) = overworld();
    let here = sel_names("Overworld", "North", "Jump", "Double");
    assert_eq!(
        st.get_target(&here).copied(),
        Some(Target { progress: 0, target: 2 })
    );
    st.get_target_mut(&here).unwrap().change_progress(1);
    assert_eq!(
        st.get_target(&here).copied(),
        Some(Target { progress: 1, target: 2 })
    );
    // cursor at (Overworld, North): one step forward reaches South
    let mut cur = here;
    cur.next_zone(&st.maps);
    assert!(cur.map == Some(Selector::Index(0)));
    assert!(cur.zone == Some(Selector::Index(1)));
    // with a single map, a further step wraps back to North
    cur.next_zone(&st.maps);
    assert!(cur.map == Some(Selector::Index(0)));
    assert!(cur.zone == Some(Selector::Index(0)));
}

#[test]
fn digit_only_names_are_refused() {
    let (mut st, mut sel) = fresh();
    new_map(&mut st, &mut sel, "123".to_string());
    assert_eq!(st.maps.len(), 0);
    assert!(sel.map.is_none());
    new_map(&mut st, &mut sel, "hall 1".to_string());
    assert_eq!(st.maps.len(), 1);
    assert!(is_all_digits(&"0".to_string()));
    assert!(!is_all_digits(&"".to_string()));
    assert!(!is_all_digits(&"1a".to_string()));
}

#[test]
fn new_zone_without_a_selected_map_does_nothing() {
    let (mut st, mut sel) = fresh();
    new_zone(&mut st, &mut sel, "North".to_string());
    assert_eq!(st.maps.len(), 0);
    assert_eq!(st.progress.len(), 0);
    assert!(sel.zone.is_none());
}

#[test]
fn new_map_drops_the_stale_zone_reference() {
    let (mut st, mut sel) = overworld();
    new_map(&mut st, &mut sel, "Caves".to_string());
    assert!(sel.map == Some(Selector::Name("Caves".to_string())));
    assert!(sel.zone.is_none());
    // the task axis is untouched
    assert!(sel.usage == Some(Selector::Name("Triple".to_string())));
}

#[test]
fn select_subject_parses_and_normalizes_to_names() {
    let (mut st, mut sel) = fresh();
    new_map(&mut st, &mut sel, "Overworld".to_string());
    new_zone(&mut st, &mut sel, "North".to_string());
    new_map(&mut st, &mut sel, "Caves".to_string());
    new_zone(&mut st, &mut sel, "Deep".to_string());
    // positional text: the second map, then its first zone
    select_subject(&st, &mut sel, &InputSubject::MapName, "1".to_string());
    assert!(sel.map == Some(Selector::Name("Caves".to_string())));
    select_subject(&st, &mut sel, &InputSubject::ZoneName, "0".to_string());
    assert!(sel.zone == Some(Selector::Name("Deep".to_string())));
    // unresolvable text leaves the axis unselected after normalization
    select_subject(&st, &mut sel, &InputSubject::MapName, "nowhere".to_string());
    assert!(sel.map.is_none());
}

#[test]
fn removing_the_selected_map_resets_the_cursor() {
    let (mut st, mut sel) = overworld();
    assert!(sel.map == Some(Selector::Name("Overworld".to_string())));
    remove_map(&mut st, &mut sel, &"Overworld".to_string());
    assert_eq!(st.maps.len(), 0);
    assert!(sel == Selection::default());
}

#[test]
fn removing_an_unselected_map_keeps_the_cursor() {
    let (mut st, mut sel) = overworld();
    new_map(&mut st, &mut sel, "Caves".to_string());
    // cursor now on Caves; removing Overworld keeps it
    remove_map(&mut st, &mut sel, &"Overworld".to_string());
    assert_eq!(st.maps.len(), 1);
    assert!(sel.map == Some(Selector::Name("Caves".to_string())));
    assert!(sel != Selection::default());
}

#[test]
fn remove_map_without_a_resolved_cursor_is_a_no_op() {
    let (mut st, mut sel) = overworld();
    sel.map = Some(Selector::Name("Caves".to_string()));
    remove_map(&mut st, &mut sel, &"Overworld".to_string());
    // the cursor's map does not resolve, so nothing is removed
    assert_eq!(st.maps.len(), 1);
}

#[test]
fn removing_the_selected_zone_resets_the_cursor_and_excises_it() {
    let (mut st, mut sel) = overworld();
    sel = sel_names("Overworld", "South", "Jump", "Double");
    remove_zone(&mut st, &mut sel, &"South".to_string());
    assert!(sel == Selection::default());
    // after the reset the cursor's map still resolves (first map), so
    // the zone is excised from it
    assert_eq!(st.maps[0].zones.len(), 1);
    assert_eq!(st.maps[0].zones[0].name, "North");
}

#[test]
fn removing_an_unselected_zone_keeps_the_cursor() {
    let (mut st, mut sel) = overworld();
    sel = sel_names("Overworld", "North", "Jump", "Double");
    remove_zone(&mut st, &mut sel, &"South".to_string());
    assert!(sel.zone == Some(Selector::Name("North".to_string())));
    assert_eq!(st.maps[0].zones.len(), 1);
}

#[test]
fn removing_the_selected_ability_resets_the_cursor() {
    let (mut st, mut sel) = overworld();
    assert!(sel.ability == Some(Selector::Name("Jump".to_string())));
    remove_ability(&mut st, &mut sel, &"Jump".to_string());
    assert_eq!(st.abilities.len(), 0);
    assert!(sel == Selection::default());
}

#[test]
fn removing_a_usage_excises_it_from_the_selected_ability() {
    let (mut st, mut sel) = overworld();
    sel = sel_names("Overworld", "North", "Jump", "Double");
    remove_usage(&mut st, &mut sel, &"Triple".to_string());
    assert_eq!(st.abilities[0].usages.len(), 1);
    assert_eq!(st.abilities[0].usages[0].name, "Double");
    assert!(sel.usage == Some(Selector::Name("Double".to_string())));
}

#[test]
fn edit_state_starts_with_an_empty_buffer() {
    let st = InputState::edit(InputOp::New, InputSubject::MapName);
    match st {
        InputState::Edit((InputOp::New, InputSubject::MapName), buf) => {
            assert_eq!(buf, "");
        },
        _ => panic!("expected an edit state"),
    }
}
