//! Reference resolution and free-text parsing.

use lineup_progress::model::Zone;
use lineup_progress::selection::Selector;

fn zones(names: &[&str]) -> Vec<Zone> {
    names.iter().map(|n| Zone::new((*n).to_string())).collect()
}

#[test]
fn index_resolves_in_bounds_only() {
    let zs = zones(&["a", "b", "c"]);
    assert!(matches!(Selector::Index(0).get_selected(&zs), Some(z) if z.name == "a"));
    assert!(matches!(Selector::Index(2).get_selected(&zs), Some(z) if z.name == "c"));
    assert!(Selector::Index(3).get_selected(&zs).is_none());
}

#[test]
fn name_resolves_first_match() {
    let zs = zones(&["a", "b", "a"]);
    assert_eq!(
        Selector::Name("a".to_string()).get_selected_idx(&zs),
        Some(0)
    );
    assert_eq!(
        Selector::Name("b".to_string()).get_selected_idx(&zs),
        Some(1)
    );
    assert_eq!(Selector::Name("x".to_string()).get_selected_idx(&zs), None);
}

#[test]
fn index_to_name_to_index_round_trip() {
    let zs = zones(&["north", "south", "east"]);
    for i in 0..3usize {
        let named = Selector::Index(i).to_name(&zs).unwrap();
        let back = named.to_index(&zs).unwrap();
        assert!(back == Selector::Index(i));
    }
}

#[test]
fn name_to_index_to_name_round_trip() {
    let zs = zones(&["north", "south", "east"]);
    for n in ["north", "south", "east"] {
        let locked = Selector::Name(n.to_string()).to_index(&zs).unwrap();
        let back = locked.to_name(&zs).unwrap();
        assert!(back == Selector::Name(n.to_string()));
    }
}

#[test]
fn unresolved_references_convert_to_nothing() {
    let zs = zones(&["a"]);
    assert!(Selector::Name("zz".to_string()).to_index(&zs).is_none());
    assert!(Selector::Index(9).to_name(&zs).is_none());
}

#[test]
fn get_selected_mut_edits_in_place() {
    let mut zs = zones(&["a", "b"]);
    let z = Selector::Name("b".to_string()).get_selected_mut(&mut zs).unwrap();
    z.name = "c".to_string();
    assert_eq!(zs[1].name, "c");
    assert_eq!(zs[0].name, "a");
    assert!(Selector::Index(5).get_selected_mut(&mut zs).is_none());
}

#[test]
fn parse_digits_becomes_index() {
    assert!(Selector::from("12".to_string()) == Selector::Index(12));
    assert!(Selector::from("0".to_string()) == Selector::Index(0));
    assert!(Selector::from("007".to_string()) == Selector::Index(7));
    assert!(Selector::from("+7".to_string()) == Selector::Index(7));
}

#[test]
fn parse_other_text_becomes_name() {
    assert!(Selector::from("north".to_string()) == Selector::Name("north".to_string()));
    assert!(Selector::from("".to_string()) == Selector::Name("".to_string()));
    assert!(Selector::from("+".to_string()) == Selector::Name("+".to_string()));
    assert!(Selector::from("1a".to_string()) == Selector::Name("1a".to_string()));
    assert!(Selector::from("-3".to_string()) == Selector::Name("-3".to_string()));
}

#[test]
fn parse_overflowing_number_becomes_name() {
    let big = "99999999999999999999999999999".to_string();
    assert!(Selector::from(big.clone()) == Selector::Name(big));
}

#[test]
fn selector_equality_is_by_representation() {
    let a = Selector::Index(0);
    let b = Selector::Name("a".to_string());
    assert!(a != b);
    assert!(Selector::Index(1) == Selector::Index(1));
    assert!(Selector::Name("x".to_string()) == Selector::Name("x".to_string()));
    assert!(Selector::Name("x".to_string()) != Selector::Name("y".to_string()));
}
