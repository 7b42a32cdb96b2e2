//! The progress matrix: cross-product fills, lookup, mutation, removal.

use lineup_progress::model::{Ability, GameMap, ProgressStore, Target, Usage, Zone};
use lineup_progress::selection::{Selection, Selector};

fn sel_names(m: &str, z: &str, a: &str, u: &str) -> Selection {
    let mut s = Selection::new();
    s.map = Some(Selector::Name(m.to_string()));
    s.zone = Some(Selector::Name(z.to_string()));
    s.ability = Some(Selector::Name(a.to_string()));
    s.usage = Some(Selector::Name(u.to_string()));
    s
}

/// Two maps of two zones each, two abilities of two usages each, built
/// through the store operations so the matrix fills on the way.
fn full_store() -> ProgressStore {
    let mut st = ProgressStore::new("progress".to_string());
    for (mn, zs) in [("m1", ["z1", "z2"]), ("m2", ["z3", "z4"])] {
        let mut m = GameMap::new(mn.to_string());
        for z in zs {
            m.add_zone(Zone::new(z.to_string()));
        }
        st.add_map(m);
    }
    for (an, us) in [("a1", ["u1", "u2"]), ("a2", ["u3", "u4"])] {
        let mut a = Ability::new(an.to_string());
        for u in us {
            a.add_usage(Usage::new(u.to_string()));
        }
        st.add_ability(a);
        for u in us {
            st.add_usage(
                &Selector::Name(an.to_string()),
                &Selector::Name(u.to_string()),
            );
        }
    }
    st
}

#[test]
fn adding_a_map_creates_no_entries() {
    let mut st = ProgressStore::new("p".to_string());
    st.add_map(GameMap::new("m".to_string()));
    assert_eq!(st.progress.len(), 0);
}

#[test]
fn adding_usage_cross_products_against_maps_and_zones() {
    // two maps with two zones each: each new usage creates 2 x 2 entries
    let mut st = ProgressStore::new("p".to_string());
    for (mn, zs) in [("m1", ["z1", "z2"]), ("m2", ["z3", "z4"])] {
        let mut m = GameMap::new(mn.to_string());
        for z in zs {
            m.add_zone(Zone::new(z.to_string()));
        }
        st.add_map(m);
    }
    let mut a = Ability::new("a".to_string());
    a.add_usage(Usage::new("u".to_string()));
    st.add_ability(a);
    st.add_usage(&Selector::Name("a".to_string()), &Selector::Name("u".to_string()));
    assert_eq!(st.progress.len(), 4);
    let t = st.get_target(&sel_names("m2", "z4", "a", "u")).copied();
    assert_eq!(t, Some(Target { progress: 0, target: 2 }));
}

#[test]
fn adding_zone_cross_products_against_abilities_and_usages() {
    // two abilities with two usages each: a new zone creates 2 x 2 entries
    let mut st = ProgressStore::new("p".to_string());
    for (an, us) in [("a1", ["u1", "u2"]), ("a2", ["u3", "u4"])] {
        let mut a = Ability::new(an.to_string());
        for u in us {
            a.add_usage(Usage::new(u.to_string()));
        }
        st.add_ability(a);
    }
    let mut m = GameMap::new("m".to_string());
    m.add_zone(Zone::new("z".to_string()));
    st.add_map(m);
    let before = st.progress.len();
    st.add_zone(&Selector::Name("m".to_string()), &Selector::Name("z".to_string()));
    assert_eq!(before, 0);
    assert_eq!(st.progress.len(), 4);
    for (a, u) in [("a1", "u1"), ("a1", "u2"), ("a2", "u3"), ("a2", "u4")] {
        let t = st.get_target(&sel_names("m", "z", a, u)).copied();
        assert_eq!(t, Some(Target { progress: 0, target: 2 }));
    }
}

#[test]
fn add_zone_with_unresolved_selector_is_a_no_op() {
    let mut st = full_store();
    let before = st.progress.len();
    st.add_zone(&Selector::Name("nowhere".to_string()), &Selector::Name("z1".to_string()));
    st.add_zone(&Selector::Name("m1".to_string()), &Selector::Name("zz".to_string()));
    st.add_zone(&Selector::Index(9), &Selector::Index(0));
    assert_eq!(st.progress.len(), before);
}

#[test]
fn get_target_requires_a_complete_cursor() {
    let st = full_store();
    let mut s = sel_names("m1", "z1", "a1", "u1");
    s.usage = None;
    assert!(st.get_target(&s).is_none());
}

#[test]
fn get_target_resolves_by_index_and_by_name() {
    let st = full_store();
    let mut s = Selection::default();
    // default cursor: all first indices -> (m1, z1, a1, u1)
    let t = st.get_target(&s).copied();
    assert_eq!(t, Some(Target { progress: 0, target: 2 }));
    s.zone = Some(Selector::Index(7));
    assert!(st.get_target(&s).is_none());
}

#[test]
fn get_target_mut_writes_through_to_one_cell_only() {
    let mut st = full_store();
    let here = sel_names("m1", "z2", "a2", "u3");
    let there = sel_names("m1", "z2", "a2", "u4");
    st.get_target_mut(&here).unwrap().change_progress(3);
    assert_eq!(
        st.get_target(&here).copied(),
        Some(Target { progress: 3, target: 2 })
    );
    assert_eq!(
        st.get_target(&there).copied(),
        Some(Target { progress: 0, target: 2 })
    );
}

#[test]
fn get_target_mut_on_an_unresolved_cursor_is_nothing() {
    let mut st = full_store();
    let s = sel_names("m1", "z9", "a1", "u1");
    assert!(st.get_target_mut(&s).is_none());
    let mut incomplete = sel_names("m1", "z1", "a1", "u1");
    incomplete.map = None;
    assert!(st.get_target_mut(&incomplete).is_none());
}

#[test]
fn target_ops_apply_their_field_updates() {
    let mut st = full_store();
    let s = sel_names("m2", "z3", "a1", "u2");
    st.get_target_mut(&s).unwrap().change_progress(5);
    assert_eq!(st.get_target(&s).copied(), Some(Target { progress: 5, target: 2 }));
    st.get_target_mut(&s).unwrap().match_target_to_progress();
    assert_eq!(st.get_target(&s).copied(), Some(Target { progress: 5, target: 5 }));
    st.get_target_mut(&s).unwrap().zero_progress();
    assert_eq!(st.get_target(&s).copied(), Some(Target { progress: 0, target: 5 }));
    st.get_target_mut(&s).unwrap().match_progress_to_target();
    assert_eq!(st.get_target(&s).copied(), Some(Target { progress: 5, target: 5 }));
    st.get_target_mut(&s).unwrap().zero_target();
    assert_eq!(st.get_target(&s).copied(), Some(Target { progress: 5, target: 0 }));
    // the target clamps at zero when moved below it
    st.get_target_mut(&s).unwrap().change_target(-4);
    assert_eq!(st.get_target(&s).copied(), Some(Target { progress: 5, target: 0 }));
    st.get_target_mut(&s).unwrap().change_target(3);
    assert_eq!(st.get_target(&s).copied(), Some(Target { progress: 5, target: 3 }));
}

#[test]
fn change_progress_accepts_negative_deltas() {
    let mut t = Target::default();
    t.change_progress(-2);
    assert_eq!(t, Target { progress: -2, target: 2 });
}

#[test]
fn change_target_clamps_at_zero() {
    let mut t = Target::default();
    t.change_target(-5);
    assert_eq!(t, Target { progress: 0, target: 0 });
}

#[test]
fn reinserting_a_zone_resets_its_entries_without_duplicates() {
    let mut st = full_store();
    let s = sel_names("m1", "z1", "a1", "u1");
    st.get_target_mut(&s).unwrap().change_progress(1);
    let before = st.progress.len();
    // filling the same (map, zone) again overwrites, appending nothing
    st.add_zone(&Selector::Name("m1".to_string()), &Selector::Name("z1".to_string()));
    assert_eq!(st.progress.len(), before);
    assert_eq!(st.get_target(&s).copied(), Some(Target { progress: 0, target: 2 }));
}

#[test]
fn removal_leaves_orphaned_entries_but_hides_them_from_lookup() {
    let mut st = full_store();
    let before = st.progress.len();
    st.rm_map(&"m1".to_string());
    assert_eq!(st.maps.len(), 1);
    // the matrix still holds the orphaned entries ...
    assert_eq!(st.progress.len(), before);
    // ... but no lookup can reach them: resolution walks the live maps
    assert!(st.get_target(&sel_names("m1", "z1", "a1", "u1")).is_none());
    assert!(st.get_target(&sel_names("m2", "z3", "a1", "u1")).is_some());
}

#[test]
fn rm_zone_excises_only_the_named_zone() {
    let mut st = full_store();
    st.rm_zone(&"m1".to_string(), &"z1".to_string());
    assert_eq!(st.maps[0].zones.len(), 1);
    assert_eq!(st.maps[0].zones[0].name, "z2");
    assert_eq!(st.maps[1].zones.len(), 2);
    st.rm_zone(&"m1".to_string(), &"zz".to_string());
    assert_eq!(st.maps[0].zones.len(), 1);
}

#[test]
fn rm_ability_and_rm_usage_mirror_the_location_axis() {
    let mut st = full_store();
    st.rm_usage(&"a2".to_string(), &"u4".to_string());
    assert_eq!(st.abilities[1].usages.len(), 1);
    st.rm_ability(&"a1".to_string());
    assert_eq!(st.abilities.len(), 1);
    assert_eq!(st.abilities[0].name, "a2");
}

#[test]
fn map_and_ability_identity_is_by_name_alone() {
    let mut a = GameMap::new("m".to_string());
    a.add_zone(Zone::new("z".to_string()));
    let b = GameMap::new("m".to_string());
    assert!(a == b);
    assert!(a != GameMap::new("other".to_string()));
    let mut c = Ability::new("a".to_string());
    c.add_usage(Usage::new("u".to_string()));
    assert!(c == Ability::new("a".to_string()));
    assert!(Zone::new("z".to_string()) == Zone::new("z".to_string()));
    assert!(Usage::new("u".to_string()) != Usage::new("v".to_string()));
}
