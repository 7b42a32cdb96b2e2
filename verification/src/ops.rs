//! The interactive edit operations: what one confirmed line of user
//! input does to the store and the cursor. Each operation takes plain
//! name strings; reading keys and buffering text stay with the caller.

use vstd::prelude::*;

use crate::model::{
    ability_names_distinct, in_location_cross, in_task_cross, location_cross_fresh, mat_get,
    map_names_distinct, task_cross_fresh, total_usages, total_zones, Ability, GameMap, MatrixKey,
    ProgressStore, Target, Usage, Zone,
};
use crate::selection::{
    ability_families, all_digits, first_name_index, lemma_first_name_index, map_families, names_of,
    pair_relative, resolved_index, sel_to_name, selector_from_text, Selection, SelectionView,
    Selector, SelectorView,
};

verus! {

/// What a confirmed input line is meant to do.
pub enum InputOp {
    New,
    Select,
    Remove,
}

/// Which entity kind a confirmed input line addresses.
pub enum InputSubject {
    MapName,
    ZoneName,
    AbilityName,
    UsageName,
}

/// The input-mode state the caller's event loop moves through: reading
/// ordinary commands, or collecting a line of text for one operation.
pub enum InputState {
    Normal,
    Edit((InputOp, InputSubject), String),
}

impl InputState {
    /// Starts collecting text for the given operation, with an empty
    /// buffer.
    pub fn edit(i: InputOp, s: InputSubject) -> (r: InputState)
        ensures
            r matches InputState::Edit(t, buf) && t == (i, s) && buf@ == Seq::<char>::empty(),
    {
        InputState::Edit((i, s), String::new())
    }
}

/// What the event loop asks of its caller when it ends.
pub enum FinalAction {
    NoSave,
    Save,
}

/// Whether the text is a non-empty run of decimal digits; such text is
/// refused as an entity name, since it would read as a position.
pub fn is_all_digits(s: &String) -> (r: bool)
    ensures
        r == (s@.len() > 0 && all_digits(s@)),
{
    let slice = s.as_str();
    let n = slice.unicode_len();
    if n == 0 {
        return false;
    }
    let mut i: usize = 0;
    while i < n
        invariant
            0 <= i <= n,
            n == s@.len(),
            slice@ == s@,
            forall|k: int| 0 <= k < i ==> (48 <= #[trigger] s@[k] as int <= 57),
        decreases n - i,
    {
        let code = slice.get_char(i) as u32;
        if code < 48 || code > 57 {
            return false;
        }
        i += 1;
    }
    true
}

/// Nothing about the store has changed.
pub open spec fn store_unchanged(pre: ProgressStore, post: ProgressStore) -> bool {
    &&& post.name == pre.name
    &&& post.maps@ == pre.maps@
    &&& post.abilities@ == pre.abilities@
    &&& post.progress@ == pre.progress@
}

/// The first-index cursor.
pub open spec fn default_selection_view() -> SelectionView {
    SelectionView {
        map: Some(SelectorView::Index(0)),
        zone: Some(SelectorView::Index(0)),
        ability: Some(SelectorView::Index(0)),
        usage: Some(SelectorView::Index(0)),
    }
}

/// Creates a map named by the text and selects it by name, dropping the
/// zone reference, which was scoped to the previous map. Digit-only
/// text is refused: it would read back as a position.
pub fn new_map(store: &mut ProgressStore, selection: &mut Selection, name: String)
    ensures
        ({
            let pre = *old(store);
            let post = *final(store);
            let presel = old(selection)@;
            let postsel = final(selection)@;
            if name@.len() > 0 && all_digits(name@) {
                store_unchanged(pre, post) && postsel == presel
            } else {
                &&& post.name == pre.name
                &&& post.abilities@ == pre.abilities@
                &&& post.progress@ == pre.progress@
                &&& post.maps@.len() == pre.maps@.len() + 1
                &&& post.maps@.drop_last() == pre.maps@
                &&& post.maps@.last().name@ == name@
                &&& post.maps@.last().zones@.len() == 0
                &&& postsel.map == Some(SelectorView::Name(name@))
                &&& postsel.zone is None
                &&& postsel.ability == presel.ability
                &&& postsel.usage == presel.usage
            }
        }),
{
    if is_all_digits(&name) {
        return ;
    }
    let m = GameMap::new(name.clone());
    store.add_map(m);
    selection.map = Some(Selector::Name(name));
    selection.zone = None;
}

/// Creates an ability named by the text and selects it by name,
/// dropping the usage reference; symmetric to `new_map`.
pub fn new_ability(store: &mut ProgressStore, selection: &mut Selection, name: String)
    ensures
        ({
            let pre = *old(store);
            let post = *final(store);
            let presel = old(selection)@;
            let postsel = final(selection)@;
            if name@.len() > 0 && all_digits(name@) {
                store_unchanged(pre, post) && postsel == presel
            } else {
                &&& post.name == pre.name
                &&& post.maps@ == pre.maps@
                &&& post.progress@ == pre.progress@
                &&& post.abilities@.len() == pre.abilities@.len() + 1
                &&& post.abilities@.drop_last() == pre.abilities@
                &&& post.abilities@.last().name@ == name@
                &&& post.abilities@.last().usages@.len() == 0
                &&& postsel.ability == Some(SelectorView::Name(name@))
                &&& postsel.usage is None
                &&& postsel.map == presel.map
                &&& postsel.zone == presel.zone
            }
        }),
{
    if is_all_digits(&name) {
        return ;
    }
    let a = Ability::new(name.clone());
    store.add_ability(a);
    selection.ability = Some(Selector::Name(name));
    selection.usage = None;
}

/// What creating a zone under the currently selected map leaves behind:
/// the zone hangs off the resolved map, the matrix gains a default
/// counter for it against every live (ability, usage) pair, and the
/// cursor's zone reference names the new zone. Nothing happens without
/// a selected map, and nothing but the cursor changes when the map
/// reference does not resolve.
pub open spec fn new_zone_post(
    pre: ProgressStore,
    presel: SelectionView,
    post: ProgressStore,
    postsel: SelectionView,
    text: Seq<char>,
) -> bool {
    if text.len() > 0 && all_digits(text) {
        store_unchanged(pre, post) && postsel == presel
    } else {
        match presel.map {
            None => store_unchanged(pre, post) && postsel == presel,
            Some(ms) => {
                &&& postsel.map == presel.map
                &&& postsel.zone == Some(SelectorView::Name(text))
                &&& postsel.ability == presel.ability
                &&& postsel.usage == presel.usage
                &&& post.name == pre.name
                &&& post.abilities@ == pre.abilities@
                &&& match resolved_index(ms, names_of(pre.maps@)) {
                    None => post.maps@ == pre.maps@ && post.progress@ == pre.progress@,
                    Some(mi) => {
                        let mn = pre.maps@[mi].name@;
                        &&& post.maps@.len() == pre.maps@.len()
                        &&& (forall|j: int|
                            0 <= j < pre.maps@.len() && j != mi ==> post.maps@[j] == pre.maps@[j])
                        &&& post.maps@[mi].name == pre.maps@[mi].name
                        &&& post.maps@[mi].zones@.len() == pre.maps@[mi].zones@.len() + 1
                        &&& post.maps@[mi].zones@.drop_last() == pre.maps@[mi].zones@
                        &&& post.maps@[mi].zones@.last().name@ == text
                        &&& (forall|k: MatrixKey|
                            in_task_cross(pre.abilities@, mn, text, k) ==> mat_get(post.progress@, k)
                                == Some(Target { progress: 0, target: 2 }))
                        &&& (forall|k: MatrixKey|
                            !in_task_cross(pre.abilities@, mn, text, k) ==> mat_get(
                                post.progress@,
                                k,
                            ) == mat_get(pre.progress@, k))
                        &&& pre.progress@.len() <= post.progress@.len() <= pre.progress@.len()
                            + total_usages(pre.abilities@)
                        &&& (ability_names_distinct(pre.abilities@) && task_cross_fresh(
                            pre.progress@,
                            pre.abilities@,
                            mn,
                            text,
                        )) ==> (post.progress@.len() == pre.progress@.len() + total_usages(
                            pre.abilities@,
                        ) && pre.progress@.is_prefix_of(post.progress@))
                    },
                }
            },
        }
    }
}

/// Creates a zone named by the text under the currently selected map,
/// fills the matrix for it, and selects it by name.
pub fn new_zone(store: &mut ProgressStore, selection: &mut Selection, name: String)
    ensures
        new_zone_post(*old(store), old(selection)@, *final(store), final(selection)@, name@),
{
    let ghost pre = *old(store);
    if is_all_digits(&name) {
        return ;
    }
    let msel = match &selection.map {
        Some(m) => m,
        None => {
            return ;
        },
    };
    let found = msel.get_selected_idx(&store.maps);
    if let Some(mi) = found {
        let mut m = store.maps.remove(mi);
        m.add_zone(Zone::new(name.clone()));
        store.maps.insert(mi, m);
        let ghost mid = *store;
        proof {
            assert(mid.maps@ =~= pre.maps@.update(mi as int, mid.maps@[mi as int]));
            assert(names_of(mid.maps@) =~= names_of(pre.maps@));
            assert(resolved_index(msel@, names_of(mid.maps@)) == Some(mi as int));
            let zs = mid.maps@[mi as int].zones@;
            assert(zs.drop_last() =~= pre.maps@[mi as int].zones@);
            assert(names_of(zs)[zs.len() - 1] == name@);
            lemma_first_name_index(names_of(zs), name@);
            match first_name_index(names_of(zs), name@) {
                Some(zi) => {
                    assert(names_of(zs)[zi] == name@);
                    assert(zs[zi].name@ == name@);
                },
                None => {
                    assert(false);
                },
            }
            assert(crate::model::zone_pair_names(mid.maps@, msel@, SelectorView::Name(name@))
                == Some((pre.maps@[mi as int].name@, name@)));
        }
        let zone_selector = Selector::Name(name);
        store.add_zone(msel, &zone_selector);
        selection.zone = Some(zone_selector);
        proof {
            let post = *store;
            let mn = pre.maps@[mi as int].name@;
            assert(post.maps@ == mid.maps@);
            assert(post.maps@.len() == pre.maps@.len());
            assert(forall|j: int|
                0 <= j < pre.maps@.len() && j != mi as int ==> post.maps@[j] == pre.maps@[j]);
            assert(post.maps@[mi as int].zones@.drop_last() =~= pre.maps@[mi as int].zones@);
            assert(post.abilities@ == pre.abilities@);
            assert(mid.progress@ == pre.progress@);
        }
    } else {
        let zone_selector = Selector::Name(name);
        proof {
            assert(resolved_index(msel@, names_of(store.maps@)) is None);
        }
        store.add_zone(msel, &zone_selector);
        selection.zone = Some(zone_selector);
    }
}

/// What creating a usage under the currently selected ability leaves
/// behind; symmetric to `new_zone_post`.
pub open spec fn new_usage_post(
    pre: ProgressStore,
    presel: SelectionView,
    post: ProgressStore,
    postsel: SelectionView,
    text: Seq<char>,
) -> bool {
    if text.len() > 0 && all_digits(text) {
        store_unchanged(pre, post) && postsel == presel
    } else {
        match presel.ability {
            None => store_unchanged(pre, post) && postsel == presel,
            Some(asl) => {
                &&& postsel.ability == presel.ability
                &&& postsel.usage == Some(SelectorView::Name(text))
                &&& postsel.map == presel.map
                &&& postsel.zone == presel.zone
                &&& post.name == pre.name
                &&& post.maps@ == pre.maps@
                &&& match resolved_index(asl, names_of(pre.abilities@)) {
                    None => post.abilities@ == pre.abilities@ && post.progress@ == pre.progress@,
                    Some(ai) => {
                        let an = pre.abilities@[ai].name@;
                        &&& post.abilities@.len() == pre.abilities@.len()
                        &&& (forall|j: int|
                            0 <= j < pre.abilities@.len() && j != ai ==> post.abilities@[j]
                                == pre.abilities@[j])
                        &&& post.abilities@[ai].name == pre.abilities@[ai].name
                        &&& post.abilities@[ai].usages@.len() == pre.abilities@[ai].usages@.len()
                            + 1
                        &&& post.abilities@[ai].usages@.drop_last()
                            == pre.abilities@[ai].usages@
                        &&& post.abilities@[ai].usages@.last().name@ == text
                        &&& (forall|k: MatrixKey|
                            in_location_cross(pre.maps@, an, text, k) ==> mat_get(post.progress@, k)
                                == Some(Target { progress: 0, target: 2 }))
                        &&& (forall|k: MatrixKey|
                            !in_location_cross(pre.maps@, an, text, k) ==> mat_get(
                                post.progress@,
                                k,
                            ) == mat_get(pre.progress@, k))
                        &&& pre.progress@.len() <= post.progress@.len() <= pre.progress@.len()
                            + total_zones(pre.maps@)
                        &&& (map_names_distinct(pre.maps@) && location_cross_fresh(
                            pre.progress@,
                            pre.maps@,
                            an,
                            text,
                        )) ==> (post.progress@.len() == pre.progress@.len() + total_zones(pre.maps@)
                            && pre.progress@.is_prefix_of(post.progress@))
                    },
                }
            },
        }
    }
}

/// Creates a usage named by the text under the currently selected
/// ability, fills the matrix for it, and selects it by name.
pub fn new_usage(store: &mut ProgressStore, selection: &mut Selection, name: String)
    ensures
        new_usage_post(*old(store), old(selection)@, *final(store), final(selection)@, name@),
{
    let ghost pre = *old(store);
    if is_all_digits(&name) {
        return ;
    }
    let asel = match &selection.ability {
        Some(a) => a,
        None => {
            return ;
        },
    };
    let found = asel.get_selected_idx(&store.abilities);
    if let Some(ai) = found {
        let mut a = store.abilities.remove(ai);
        a.add_usage(Usage::new(name.clone()));
        store.abilities.insert(ai, a);
        let ghost mid = *store;
        proof {
            assert(mid.abilities@ =~= pre.abilities@.update(ai as int, mid.abilities@[ai as int]));
            assert(names_of(mid.abilities@) =~= names_of(pre.abilities@));
            assert(resolved_index(asel@, names_of(mid.abilities@)) == Some(ai as int));
            let us = mid.abilities@[ai as int].usages@;
            assert(us.drop_last() =~= pre.abilities@[ai as int].usages@);
            assert(names_of(us)[us.len() - 1] == name@);
            lemma_first_name_index(names_of(us), name@);
            match first_name_index(names_of(us), name@) {
                Some(ui) => {
                    assert(names_of(us)[ui] == name@);
                    assert(us[ui].name@ == name@);
                },
                None => {
                    assert(false);
                },
            }
            assert(crate::model::usage_pair_names(mid.abilities@, asel@, SelectorView::Name(name@))
                == Some((pre.abilities@[ai as int].name@, name@)));
        }
        let usage_selector = Selector::Name(name);
        store.add_usage(asel, &usage_selector);
        selection.usage = Some(usage_selector);
        proof {
            let post = *store;
            assert(post.abilities@ == mid.abilities@);
            assert(post.abilities@.len() == pre.abilities@.len());
            assert(forall|j: int|
                0 <= j < pre.abilities@.len() && j != ai as int ==> post.abilities@[j]
                    == pre.abilities@[j]);
            assert(post.abilities@[ai as int].usages@.drop_last() =~= pre.abilities@[ai as int].usages@);
            assert(post.maps@ == pre.maps@);
            assert(mid.progress@ == pre.progress@);
        }
    } else {
        let usage_selector = Selector::Name(name);
        proof {
            assert(resolved_index(asel@, names_of(store.abilities@)) is None);
        }
        store.add_usage(asel, &usage_selector);
        selection.usage = Some(usage_selector);
    }
}

/// The cursor with one axis replaced.
pub open spec fn selection_with(
    presel: SelectionView,
    subject: InputSubject,
    sv: SelectorView,
) -> SelectionView {
    match subject {
        InputSubject::MapName => SelectionView { map: Some(sv), ..presel },
        InputSubject::ZoneName => SelectionView { zone: Some(sv), ..presel },
        InputSubject::AbilityName => SelectionView { ability: Some(sv), ..presel },
        InputSubject::UsageName => SelectionView { usage: Some(sv), ..presel },
    }
}

/// Points one axis of the cursor at the entity the text denotes —
/// integer-looking text by position, anything else by name — then
/// normalizes the whole cursor to durable name form.
pub fn select_subject(
    store: &ProgressStore,
    selection: &mut Selection,
    subject: &InputSubject,
    text: String,
)
    ensures
        ({
            let mid = selection_with(old(selection)@, *subject, selector_from_text(text)@);
            &&& final(selection)@.location() == pair_relative(
                mid.location(),
                map_families(store.maps@),
            )
            &&& final(selection)@.task() == pair_relative(
                mid.task(),
                ability_families(store.abilities@),
            )
        }),
{
    let sel = Selector::from(text);
    match subject {
        InputSubject::MapName => {
            selection.map = Some(sel);
        },
        InputSubject::ZoneName => {
            selection.zone = Some(sel);
        },
        InputSubject::AbilityName => {
            selection.ability = Some(sel);
        },
        InputSubject::UsageName => {
            selection.usage = Some(sel);
        },
    }
    let normalized = selection.relative(&store.maps, &store.abilities);
    *selection = normalized;
}

/// What removing a map by name does: nothing at all unless the cursor's
/// map reference resolves; otherwise the first map carrying the name is
/// excised, and — when the resolved map is the named one — the cursor
/// falls back to its first-index default. Matrix entries stay orphaned.
pub open spec fn remove_map_post(
    pre: ProgressStore,
    presel: SelectionView,
    post: ProgressStore,
    postsel: SelectionView,
    text: Seq<char>,
) -> bool {
    match presel.map {
        None => store_unchanged(pre, post) && postsel == presel,
        Some(ms) => match resolved_index(ms, names_of(pre.maps@)) {
            None => store_unchanged(pre, post) && postsel == presel,
            Some(mi) => {
                &&& (pre.maps@[mi].name@ == text ==> postsel == default_selection_view())
                &&& (pre.maps@[mi].name@ != text ==> postsel == presel)
                &&& post.name == pre.name
                &&& post.abilities@ == pre.abilities@
                &&& post.progress@ == pre.progress@
                &&& match first_name_index(names_of(pre.maps@), text) {
                    Some(i) => post.maps@ == pre.maps@.remove(i),
                    None => post.maps@ == pre.maps@,
                }
            },
        },
    }
}

/// Removes the map named by the text, resetting the cursor to its
/// first-index default when that map is the one currently selected.
pub fn remove_map(store: &mut ProgressStore, selection: &mut Selection, name: &String)
    ensures
        remove_map_post(*old(store), old(selection)@, *final(store), final(selection)@, name@),
{
    let msel = match &selection.map {
        Some(m) => m,
        None => {
            return ;
        },
    };
    let mi = match msel.get_selected_idx(&store.maps) {
        Some(i) => i,
        None => {
            return ;
        },
    };
    if store.maps[mi].name == *name {
        let d = Selection::default();
        *selection = d;
    }
    store.rm_map(name);
}

/// What removing an ability by name does; symmetric to
/// `remove_map_post`.
pub open spec fn remove_ability_post(
    pre: ProgressStore,
    presel: SelectionView,
    post: ProgressStore,
    postsel: SelectionView,
    text: Seq<char>,
) -> bool {
    match presel.ability {
        None => store_unchanged(pre, post) && postsel == presel,
        Some(asl) => match resolved_index(asl, names_of(pre.abilities@)) {
            None => store_unchanged(pre, post) && postsel == presel,
            Some(ai) => {
                &&& (pre.abilities@[ai].name@ == text ==> postsel == default_selection_view())
                &&& (pre.abilities@[ai].name@ != text ==> postsel == presel)
                &&& post.name == pre.name
                &&& post.maps@ == pre.maps@
                &&& post.progress@ == pre.progress@
                &&& match first_name_index(names_of(pre.abilities@), text) {
                    Some(i) => post.abilities@ == pre.abilities@.remove(i),
                    None => post.abilities@ == pre.abilities@,
                }
            },
        },
    }
}

/// Removes the ability named by the text, resetting the cursor to its
/// first-index default when that ability is the one currently selected.
pub fn remove_ability(store: &mut ProgressStore, selection: &mut Selection, name: &String)
    ensures
        remove_ability_post(*old(store), old(selection)@, *final(store), final(selection)@, name@),
{
    let asel = match &selection.ability {
        Some(a) => a,
        None => {
            return ;
        },
    };
    let ai = match asel.get_selected_idx(&store.abilities) {
        Some(i) => i,
        None => {
            return ;
        },
    };
    if store.abilities[ai].name == *name {
        let d = Selection::default();
        *selection = d;
    }
    store.rm_ability(name);
}

/// Whether the cursor currently rests on a zone carrying the given
/// name: its map reference resolves, and its zone reference resolves
/// within that map to a zone so named.
pub open spec fn cursor_on_zone(
    maps: Seq<GameMap>,
    presel: SelectionView,
    text: Seq<char>,
) -> bool {
    match presel.map {
        Some(ms) => match resolved_index(ms, names_of(maps)) {
            Some(mi) => match presel.zone {
                Some(zs) => match resolved_index(zs, names_of(maps[mi].zones@)) {
                    Some(zi) => maps[mi].zones@[zi].name@ == text,
                    None => false,
                },
                None => false,
            },
            None => false,
        },
        None => false,
    }
}

/// The excision `rm_zone(mn, text)` performs, stated over the map
/// sequence alone.
pub open spec fn zone_removed(
    pre_maps: Seq<GameMap>,
    post_maps: Seq<GameMap>,
    mn: Seq<char>,
    text: Seq<char>,
) -> bool {
    match first_name_index(names_of(pre_maps), mn) {
        None => post_maps == pre_maps,
        Some(mi) => match first_name_index(names_of(pre_maps[mi].zones@), text) {
            None => post_maps == pre_maps,
            Some(zi) => {
                &&& post_maps.len() == pre_maps.len()
                &&& (forall|j: int|
                    0 <= j < pre_maps.len() && j != mi ==> post_maps[j] == pre_maps[j])
                &&& post_maps[mi].name == pre_maps[mi].name
                &&& post_maps[mi].zones@ == pre_maps[mi].zones@.remove(zi)
            },
        },
    }
}

/// What removing a zone by name does. First, if the cursor rests on a
/// zone carrying the name, the cursor falls back to its first-index
/// default. Then, with the cursor as it now stands, the map its map
/// reference resolves to — if any — has its first zone carrying the
/// name excised.
pub open spec fn remove_zone_post(
    pre: ProgressStore,
    presel: SelectionView,
    post: ProgressStore,
    postsel: SelectionView,
    text: Seq<char>,
) -> bool {
    let midsel = if cursor_on_zone(pre.maps@, presel, text) {
        default_selection_view()
    } else {
        presel
    };
    &&& postsel == midsel
    &&& post.name == pre.name
    &&& post.abilities@ == pre.abilities@
    &&& post.progress@ == pre.progress@
    &&& match midsel.map {
        None => post.maps@ == pre.maps@,
        Some(ms) => match sel_to_name(ms, names_of(pre.maps@)) {
            None => post.maps@ == pre.maps@,
            Some(locked) => match locked {
                SelectorView::Name(mn) => zone_removed(pre.maps@, post.maps@, mn, text),
                SelectorView::Index(_) => post.maps@ == pre.maps@,
            },
        },
    }
}

/// Removes a zone named by the text from the map the cursor currently
/// selects, resetting the cursor first when it rests on that very zone.
pub fn remove_zone(store: &mut ProgressStore, selection: &mut Selection, name: &String)
    ensures
        remove_zone_post(*old(store), old(selection)@, *final(store), final(selection)@, name@),
{
    if let Some(msel) = &selection.map {
        if let Some(mi) = msel.get_selected_idx(&store.maps) {
            if let Some(zsel) = &selection.zone {
                if let Some(zi) = zsel.get_selected_idx(&store.maps[mi].zones) {
                    if store.maps[mi].zones[zi].name == *name {
                        let d = Selection::default();
                        *selection = d;
                    }
                }
            }
        }
    }
    if let Some(msel) = &selection.map {
        if let Some(locked) = msel.to_name(&store.maps) {
            if let Selector::Name(mn) = &locked {
                store.rm_zone(mn, name);
            }
        }
    }
}

/// Whether the cursor currently rests on a usage carrying the given
/// name; symmetric to `cursor_on_zone`.
pub open spec fn cursor_on_usage(
    abilities: Seq<Ability>,
    presel: SelectionView,
    text: Seq<char>,
) -> bool {
    match presel.ability {
        Some(asl) => match resolved_index(asl, names_of(abilities)) {
            Some(ai) => match presel.usage {
                Some(us) => match resolved_index(us, names_of(abilities[ai].usages@)) {
                    Some(ui) => abilities[ai].usages@[ui].name@ == text,
                    None => false,
                },
                None => false,
            },
            None => false,
        },
        None => false,
    }
}

/// The excision `rm_usage(an, text)` performs, stated over the ability
/// sequence alone.
pub open spec fn usage_removed(
    pre_abilities: Seq<Ability>,
    post_abilities: Seq<Ability>,
    an: Seq<char>,
    text: Seq<char>,
) -> bool {
    match first_name_index(names_of(pre_abilities), an) {
        None => post_abilities == pre_abilities,
        Some(ai) => match first_name_index(names_of(pre_abilities[ai].usages@), text) {
            None => post_abilities == pre_abilities,
            Some(ui) => {
                &&& post_abilities.len() == pre_abilities.len()
                &&& (forall|j: int|
                    0 <= j < pre_abilities.len() && j != ai ==> post_abilities[j]
                        == pre_abilities[j])
                &&& post_abilities[ai].name == pre_abilities[ai].name
                &&& post_abilities[ai].usages@ == pre_abilities[ai].usages@.remove(ui)
            },
        },
    }
}

/// What removing a usage by name does; symmetric to `remove_zone_post`.
pub open spec fn remove_usage_post(
    pre: ProgressStore,
    presel: SelectionView,
    post: ProgressStore,
    postsel: SelectionView,
    text: Seq<char>,
) -> bool {
    let midsel = if cursor_on_usage(pre.abilities@, presel, text) {
        default_selection_view()
    } else {
        presel
    };
    &&& postsel == midsel
    &&& post.name == pre.name
    &&& post.maps@ == pre.maps@
    &&& post.progress@ == pre.progress@
    &&& match midsel.ability {
        None => post.abilities@ == pre.abilities@,
        Some(asl) => match sel_to_name(asl, names_of(pre.abilities@)) {
            None => post.abilities@ == pre.abilities@,
            Some(locked) => match locked {
                SelectorView::Name(an) => usage_removed(pre.abilities@, post.abilities@, an, text),
                SelectorView::Index(_) => post.abilities@ == pre.abilities@,
            },
        },
    }
}

/// Removes a usage named by the text from the ability the cursor
/// currently selects, resetting the cursor first when it rests on that
/// very usage.
pub fn remove_usage(store: &mut ProgressStore, selection: &mut Selection, name: &String)
    ensures
        remove_usage_post(*old(store), old(selection)@, *final(store), final(selection)@, name@),
{
    if let Some(asel) = &selection.ability {
        if let Some(ai) = asel.get_selected_idx(&store.abilities) {
            if let Some(usel) = &selection.usage {
                if let Some(ui) = usel.get_selected_idx(&store.abilities[ai].usages) {
                    if store.abilities[ai].usages[ui].name == *name {
                        let d = Selection::default();
                        *selection = d;
                    }
                }
            }
        }
    }
    if let Some(asel) = &selection.ability {
        if let Some(locked) = asel.to_name(&store.abilities) {
            if let Selector::Name(an) = &locked {
                store.rm_usage(an, name);
            }
        }
    }
}

} // verus!
