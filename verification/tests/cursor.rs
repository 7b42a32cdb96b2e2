//! Cursor snapshots and directional navigation.

use lineup_progress::model::{Ability, GameMap, Usage, Zone};
use lineup_progress::selection::{Selection, Selector};

fn map_with(name: &str, zones: &[&str]) -> GameMap {
    let mut m = GameMap::new(name.to_string());
    for z in zones {
        m.add_zone(Zone::new((*z).to_string()));
    }
    m
}

fn ability_with(name: &str, usages: &[&str]) -> Ability {
    let mut a = Ability::new(name.to_string());
    for u in usages {
        a.add_usage(Usage::new((*u).to_string()));
    }
    a
}

fn two_maps() -> Vec<GameMap> {
    vec![
        map_with("overworld", &["north", "south"]),
        map_with("caves", &["deep"]),
    ]
}

fn two_abilities() -> Vec<Ability> {
    vec![
        ability_with("jump", &["double", "triple"]),
        ability_with("dash", &["air"]),
    ]
}

fn cursor(
    m: Option<Selector>,
    z: Option<Selector>,
    a: Option<Selector>,
    u: Option<Selector>,
) -> Selection {
    let mut s = Selection::new();
    s.map = m;
    s.zone = z;
    s.ability = a;
    s.usage = u;
    s
}

#[test]
fn new_cursor_is_empty() {
    let s = Selection::new();
    assert!(s.map.is_none() && s.zone.is_none() && s.ability.is_none() && s.usage.is_none());
}

#[test]
fn default_cursor_is_first_index() {
    let s = Selection::default();
    assert!(s.map == Some(Selector::Index(0)));
    assert!(s.zone == Some(Selector::Index(0)));
    assert!(s.ability == Some(Selector::Index(0)));
    assert!(s.usage == Some(Selector::Index(0)));
}

#[test]
fn absolute_locks_names_to_indices() {
    let maps = two_maps();
    let abilities = two_abilities();
    let s = cursor(
        Some(Selector::Name("caves".to_string())),
        Some(Selector::Name("deep".to_string())),
        Some(Selector::Name("jump".to_string())),
        Some(Selector::Name("triple".to_string())),
    );
    let a = s.absolute(&maps, &abilities);
    assert!(a.map == Some(Selector::Index(1)));
    assert!(a.zone == Some(Selector::Index(0)));
    assert!(a.ability == Some(Selector::Index(0)));
    assert!(a.usage == Some(Selector::Index(1)));
}

#[test]
fn absolute_drops_child_of_unresolved_parent() {
    let maps = two_maps();
    let abilities = two_abilities();
    let s = cursor(
        Some(Selector::Name("nowhere".to_string())),
        Some(Selector::Index(0)),
        None,
        Some(Selector::Index(0)),
    );
    let a = s.absolute(&maps, &abilities);
    assert!(a.map.is_none());
    assert!(a.zone.is_none());
    assert!(a.ability.is_none());
    assert!(a.usage.is_none());
}

#[test]
fn relative_makes_indices_durable_as_names() {
    let maps = two_maps();
    let abilities = two_abilities();
    let s = cursor(
        Some(Selector::Index(0)),
        Some(Selector::Index(1)),
        Some(Selector::Index(1)),
        Some(Selector::Index(0)),
    );
    let r = s.relative(&maps, &abilities);
    assert!(r.map == Some(Selector::Name("overworld".to_string())));
    assert!(r.zone == Some(Selector::Name("south".to_string())));
    assert!(r.ability == Some(Selector::Name("dash".to_string())));
    assert!(r.usage == Some(Selector::Name("air".to_string())));
}

#[test]
fn next_zone_advances_within_map() {
    let maps = two_maps();
    let mut s = cursor(Some(Selector::Index(0)), Some(Selector::Index(0)), None, None);
    s.next_zone(&maps);
    assert!(s.map == Some(Selector::Index(0)));
    assert!(s.zone == Some(Selector::Index(1)));
}

#[test]
fn next_zone_wraps_to_next_map() {
    let maps = two_maps();
    let mut s = cursor(Some(Selector::Index(0)), Some(Selector::Index(1)), None, None);
    s.next_zone(&maps);
    assert!(s.map == Some(Selector::Index(1)));
    assert!(s.zone == Some(Selector::Index(0)));
}

#[test]
fn next_zone_wraps_past_last_map_to_first() {
    let maps = two_maps();
    let mut s = cursor(Some(Selector::Index(1)), Some(Selector::Index(0)), None, None);
    s.next_zone(&maps);
    assert!(s.map == Some(Selector::Index(0)));
    assert!(s.zone == Some(Selector::Index(0)));
}

#[test]
fn prev_zone_wraps_to_previous_map_last_zone() {
    // Two maps, one zone each; from (first, first) backward lands on
    // the second map's last zone.
    let maps = vec![map_with("a", &["z1"]), map_with("b", &["z2"])];
    let mut s = cursor(
        Some(Selector::Name("a".to_string())),
        Some(Selector::Name("z1".to_string())),
        None,
        None,
    );
    s.prev_zone(&maps);
    assert!(s.map == Some(Selector::Index(1)));
    assert!(s.zone == Some(Selector::Index(0)));
}

#[test]
fn prev_zone_onto_an_empty_map_is_a_no_op() {
    // the wrap target has no zone to land on, so the move softly does
    // nothing; the cursor is still normalized to index form first
    let maps = vec![map_with("hollow", &[]), map_with("b", &["z"])];
    let mut s = cursor(
        Some(Selector::Name("b".to_string())),
        Some(Selector::Name("z".to_string())),
        None,
        None,
    );
    s.prev_zone(&maps);
    assert!(s.map == Some(Selector::Index(1)));
    assert!(s.zone == Some(Selector::Index(0)));
    s.prev_zone(&maps);
    assert!(s.map == Some(Selector::Index(1)));
    assert!(s.zone == Some(Selector::Index(0)));
}

#[test]
fn prev_usage_onto_an_empty_ability_is_a_no_op() {
    let abilities = vec![ability_with("bare", &[]), ability_with("dash", &["air"])];
    let mut s = cursor(None, None, Some(Selector::Index(1)), Some(Selector::Index(0)));
    s.prev_usage(&abilities);
    assert!(s.ability == Some(Selector::Index(1)));
    assert!(s.usage == Some(Selector::Index(0)));
}

#[test]
fn prev_zone_inverts_next_zone() {
    let maps = two_maps();
    for (mi, zi) in [(0usize, 0usize), (0, 1), (1, 0)] {
        let mut s = cursor(Some(Selector::Index(mi)), Some(Selector::Index(zi)), None, None);
        s.next_zone(&maps);
        s.prev_zone(&maps);
        assert!(s.map == Some(Selector::Index(mi)));
        assert!(s.zone == Some(Selector::Index(zi)));
    }
}

#[test]
fn next_zone_cycles_after_total_zone_count_steps() {
    let maps = two_maps();
    // three zones in all
    let mut s = cursor(Some(Selector::Index(0)), Some(Selector::Index(1)), None, None);
    for _ in 0..3 {
        s.next_zone(&maps);
    }
    assert!(s.map == Some(Selector::Index(0)));
    assert!(s.zone == Some(Selector::Index(1)));
}

#[test]
fn zone_navigation_never_touches_task_axis() {
    let maps = two_maps();
    let mut s = cursor(
        Some(Selector::Index(0)),
        Some(Selector::Index(0)),
        Some(Selector::Name("jump".to_string())),
        Some(Selector::Index(1)),
    );
    s.next_zone(&maps);
    assert!(s.ability == Some(Selector::Name("jump".to_string())));
    assert!(s.usage == Some(Selector::Index(1)));
}

#[test]
fn next_usage_wraps_like_next_zone() {
    let abilities = two_abilities();
    let mut s = cursor(None, None, Some(Selector::Index(0)), Some(Selector::Index(1)));
    s.next_usage(&abilities);
    assert!(s.ability == Some(Selector::Index(1)));
    assert!(s.usage == Some(Selector::Index(0)));
}

#[test]
fn prev_usage_inverts_next_usage() {
    let abilities = two_abilities();
    for (ai, ui) in [(0usize, 0usize), (0, 1), (1, 0)] {
        let mut s = cursor(None, None, Some(Selector::Index(ai)), Some(Selector::Index(ui)));
        s.next_usage(&abilities);
        s.prev_usage(&abilities);
        assert!(s.ability == Some(Selector::Index(ai)));
        assert!(s.usage == Some(Selector::Index(ui)));
    }
}

#[test]
fn navigation_is_a_no_op_without_a_resolved_pair() {
    let maps = two_maps();
    // no map selected
    let mut s = cursor(None, Some(Selector::Index(0)), None, None);
    s.next_zone(&maps);
    assert!(s.map.is_none());
    assert!(s.zone == Some(Selector::Index(0)));
    // empty collection
    let empty: Vec<GameMap> = Vec::new();
    let mut s2 = cursor(Some(Selector::Index(0)), Some(Selector::Index(0)), None, None);
    s2.next_zone(&empty);
    assert!(s2.map.is_none());
    assert!(s2.zone == Some(Selector::Index(0)));
}

#[test]
fn navigation_normalizes_names_to_indices() {
    let maps = two_maps();
    let mut s = cursor(
        Some(Selector::Name("overworld".to_string())),
        Some(Selector::Name("north".to_string())),
        None,
        None,
    );
    s.next_zone(&maps);
    assert!(s.map == Some(Selector::Index(0)));
    assert!(s.zone == Some(Selector::Index(1)));
}

#[test]
fn cursor_equality_requires_same_representation() {
    let maps = two_maps();
    let abilities = two_abilities();
    let by_name = cursor(
        Some(Selector::Name("overworld".to_string())),
        Some(Selector::Name("north".to_string())),
        Some(Selector::Name("jump".to_string())),
        Some(Selector::Name("double".to_string())),
    );
    let by_index = cursor(
        Some(Selector::Index(0)),
        Some(Selector::Index(0)),
        Some(Selector::Index(0)),
        Some(Selector::Index(0)),
    );
    assert!(by_name != by_index);
    assert!(by_name.absolute(&maps, &abilities) == by_index.absolute(&maps, &abilities));
}
