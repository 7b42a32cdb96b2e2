//! The library's global laws, each proved from the contracts the
//! executable operations carry: selector round trips, navigation as a
//! cyclic walk over the flattened (parent, child) grid, backward
//! navigation as the inverse of forward navigation, and the size of the
//! cross products the matrix fills create.

use vstd::arithmetic::div_mod::{
    lemma_add_mod_noop, lemma_mod_add_multiples_vanish, lemma_mod_self_0, lemma_mod_twice,
    lemma_small_mod,
};
use vstd::prelude::*;

use crate::model::{
    ability_names_distinct, add_usage_post, add_zone_post, in_location_cross, in_task_cross,
    location_cross_fresh, map_names_distinct, mat_get, task_cross_fresh, total_usages, total_zones,
    usage_pair_names, zone_pair_names, Ability, GameMap, MatrixKey, ProgressStore, Target,
};
use crate::selection::{
    ability_families, fam_names, first_name_index, lemma_first_name_index, map_families,
    pair_normalize, pair_step_next, pair_step_prev, resolved_index,
    sel_to_index, sel_to_name, AxisPair, FamilyView, SelectorView,
};

verus! {

/// Names pairwise distinct within one collection.
pub open spec fn names_distinct(names: Seq<Seq<char>>) -> bool {
    forall|a: int, b: int| 0 <= a < b < names.len() ==> names[a] != names[b]
}

/// An in-bounds index reference, turned durable by name and locked back
/// to an index, lands on the position it started from — provided the
/// collection's names are unique, as the data model expects of
/// siblings.
pub proof fn lemma_index_name_round_trip(names: Seq<Seq<char>>, i: int)
    requires
        0 <= i < names.len(),
        names_distinct(names),
    ensures
        sel_to_name(SelectorView::Index(i), names) == Some(SelectorView::Name(names[i])),
        sel_to_index(SelectorView::Name(names[i]), names) == Some(SelectorView::Index(i)),
{
    lemma_first_name_index(names, names[i]);
    match first_name_index(names, names[i]) {
        Some(j) => {
            if j != i {
                assert(names[j] == names[i]);
                assert(false);
            }
        },
        None => {
            assert(false);
        },
    }
}

/// A name reference to a present entity, locked to its position and
/// turned durable again, carries the same name afterwards; no
/// uniqueness is needed, since the first occurrence wins in both
/// directions.
pub proof fn lemma_name_index_round_trip(names: Seq<Seq<char>>, n: Seq<char>)
    requires
        exists|i: int| 0 <= i < names.len() && names[i] == n,
    ensures
        sel_to_index(SelectorView::Name(n), names) matches Some(locked)
            && sel_to_name(locked, names) == Some(SelectorView::Name(n)),
{
    lemma_first_name_index(names, n);
    match first_name_index(names, n) {
        Some(j) => {
            assert(sel_to_index(SelectorView::Name(n), names) == Some(SelectorView::Index(j)));
            assert(sel_to_name(SelectorView::Index(j), names) == Some(SelectorView::Name(n)));
        },
        None => {
            let i = choose|i: int| 0 <= i < names.len() && names[i] == n;
            assert(names[i] == n);
            assert(false);
        },
    }
}

/// When every one of the `a` abilities carries exactly `u` usages, the
/// task cross product a new zone fills has exactly `a * u` cells.
pub proof fn lemma_uniform_task_cross_size(abilities: Seq<Ability>, u: nat)
    requires
        forall|i: int| 0 <= i < abilities.len() ==> abilities[i].usages@.len() == u,
    ensures
        total_usages(abilities) == abilities.len() * u,
    decreases abilities.len(),
{
    if abilities.len() > 0 {
        let rest = abilities.drop_last();
        assert(forall|i: int| 0 <= i < rest.len() ==> rest[i] == abilities[i]);
        lemma_uniform_task_cross_size(rest, u);
        let n = abilities.len() as int;
        assert((n - 1) * u + u == n * u) by (nonlinear_arith);
    }
}

/// When every one of the `m` maps carries exactly `z` zones, the
/// location cross product a new usage fills has exactly `m * z` cells.
pub proof fn lemma_uniform_location_cross_size(maps: Seq<GameMap>, z: nat)
    requires
        forall|i: int| 0 <= i < maps.len() ==> maps[i].zones@.len() == z,
    ensures
        total_zones(maps) == maps.len() * z,
    decreases maps.len(),
{
    if maps.len() > 0 {
        let rest = maps.drop_last();
        assert(forall|i: int| 0 <= i < rest.len() ==> rest[i] == maps[i]);
        lemma_uniform_location_cross_size(rest, z);
        let n = maps.len() as int;
        assert((n - 1) * z + z == n * z) by (nonlinear_arith);
    }
}

/// Adding a zone to a store whose `a` abilities each carry exactly `u`
/// usages — sibling names unique, none of the new keys present yet —
/// creates exactly `a * u` new entries, every one of them holding the
/// default counter of no progress towards a goal of two.
pub proof fn lemma_add_zone_uniform_count(
    pre: ProgressStore,
    post: ProgressStore,
    msel: SelectorView,
    zsel: SelectorView,
    u: nat,
)
    requires
        add_zone_post(pre, post, msel, zsel),
        zone_pair_names(pre.maps@, msel, zsel) is Some,
        ability_names_distinct(pre.abilities@),
        task_cross_fresh(
            pre.progress@,
            pre.abilities@,
            (zone_pair_names(pre.maps@, msel, zsel)->Some_0).0,
            (zone_pair_names(pre.maps@, msel, zsel)->Some_0).1,
        ),
        forall|i: int| 0 <= i < pre.abilities@.len() ==> #[trigger] pre.abilities@[i].usages@.len()
            == u,
    ensures
        post.progress@.len() == pre.progress@.len() + pre.abilities@.len() * u,
        forall|k: MatrixKey|
            in_task_cross(
                pre.abilities@,
                (zone_pair_names(pre.maps@, msel, zsel)->Some_0).0,
                (zone_pair_names(pre.maps@, msel, zsel)->Some_0).1,
                k,
            ) ==> mat_get(post.progress@, k) == Some(Target { progress: 0, target: 2 }),
{
    lemma_uniform_task_cross_size(pre.abilities@, u);
}

/// Adding a usage to a store whose `m` maps each carry exactly `z`
/// zones creates exactly `m * z` new default entries; symmetric to
/// `lemma_add_zone_uniform_count`.
pub proof fn lemma_add_usage_uniform_count(
    pre: ProgressStore,
    post: ProgressStore,
    asel: SelectorView,
    usel: SelectorView,
    z: nat,
)
    requires
        add_usage_post(pre, post, asel, usel),
        usage_pair_names(pre.abilities@, asel, usel) is Some,
        map_names_distinct(pre.maps@),
        location_cross_fresh(
            pre.progress@,
            pre.maps@,
            (usage_pair_names(pre.abilities@, asel, usel)->Some_0).0,
            (usage_pair_names(pre.abilities@, asel, usel)->Some_0).1,
        ),
        forall|i: int| 0 <= i < pre.maps@.len() ==> #[trigger] pre.maps@[i].zones@.len() == z,
    ensures
        post.progress@.len() == pre.progress@.len() + pre.maps@.len() * z,
        forall|k: MatrixKey|
            in_location_cross(
                pre.maps@,
                (usage_pair_names(pre.abilities@, asel, usel)->Some_0).0,
                (usage_pair_names(pre.abilities@, asel, usel)->Some_0).1,
                k,
            ) ==> mat_get(post.progress@, k) == Some(Target { progress: 0, target: 2 }),
{
    lemma_uniform_location_cross_size(pre.maps@, z);
}

/// How many children one axis has in all, summed across its families.
pub open spec fn total_children(fam: Seq<FamilyView>) -> nat
    decreases fam.len(),
{
    if fam.len() == 0 {
        0
    } else {
        total_children(fam.drop_last()) + fam.last().children.len()
    }
}

/// The map axis's child total is its zone total.
pub proof fn lemma_total_children_of_maps(maps: Seq<GameMap>)
    ensures
        total_children(map_families(maps)) == total_zones(maps),
    decreases maps.len(),
{
    if maps.len() > 0 {
        lemma_total_children_of_maps(maps.drop_last());
        assert(map_families(maps).drop_last() =~= map_families(maps.drop_last()));
    }
}

/// The ability axis's child total is its usage total.
pub proof fn lemma_total_children_of_abilities(abilities: Seq<Ability>)
    ensures
        total_children(ability_families(abilities)) == total_usages(abilities),
    decreases abilities.len(),
{
    if abilities.len() > 0 {
        lemma_total_children_of_abilities(abilities.drop_last());
        assert(ability_families(abilities).drop_last() =~= ability_families(
            abilities.drop_last(),
        ));
    }
}

/// A fully resolved index-form axis position.
pub open spec fn pair_valid(p: AxisPair, fam: Seq<FamilyView>) -> bool {
    match (p.parent, p.child) {
        (Some(SelectorView::Index(mi)), Some(SelectorView::Index(ci))) => 0 <= mi < fam.len() && 0
            <= ci < fam[mi].children.len(),
        _ => false,
    }
}

/// Every family has at least one child to land on.
pub open spec fn all_families_inhabited(fam: Seq<FamilyView>) -> bool {
    forall|i: int| 0 <= i < fam.len() ==> fam[i].children.len() > 0
}

/// The position of a valid axis pair in the flattened walk order:
/// all children of earlier families, then the child index.
pub open spec fn flat_pos(p: AxisPair, fam: Seq<FamilyView>) -> int {
    match (p.parent, p.child) {
        (Some(SelectorView::Index(mi)), Some(SelectorView::Index(ci))) => total_children(
            fam.take(mi),
        ) + ci,
        _ => 0,
    }
}

/// Iterated forward navigation: `n` rounds of normalize-then-step.
pub open spec fn next_steps(p: AxisPair, fam: Seq<FamilyView>, n: nat) -> AxisPair
    decreases n,
{
    if n == 0 {
        p
    } else {
        next_steps(pair_step_next(pair_normalize(p, fam), fam), fam, (n - 1) as nat)
    }
}

/// One more family in a prefix adds exactly its children.
proof fn lemma_total_children_take_step(fam: Seq<FamilyView>, k: int)
    requires
        0 <= k < fam.len(),
    ensures
        total_children(fam.take(k + 1)) == total_children(fam.take(k)) + fam[k].children.len(),
{
    assert(fam.take(k + 1).drop_last() =~= fam.take(k));
    assert(fam.take(k + 1).last() == fam[k]);
}

/// Longer prefixes never hold fewer children.
proof fn lemma_total_children_take_le(fam: Seq<FamilyView>, a: int, b: int)
    requires
        0 <= a <= b <= fam.len(),
    ensures
        total_children(fam.take(a)) <= total_children(fam.take(b)),
    decreases b - a,
{
    if a < b {
        lemma_total_children_take_le(fam, a, b - 1);
        lemma_total_children_take_step(fam, b - 1);
    }
}

/// A valid position's flat index lies within the walk.
proof fn lemma_flat_pos_bounds(p: AxisPair, fam: Seq<FamilyView>)
    requires
        pair_valid(p, fam),
    ensures
        0 <= flat_pos(p, fam) < total_children(fam),
{
    match (p.parent, p.child) {
        (Some(SelectorView::Index(mi)), Some(SelectorView::Index(ci))) => {
            lemma_total_children_take_step(fam, mi);
            lemma_total_children_take_le(fam, mi + 1, fam.len() as int);
            assert(fam.take(fam.len() as int) =~= fam);
        },
        _ => {
            assert(false);
        },
    }
}

/// A position in an earlier family flattens strictly before one in a
/// later family.
proof fn lemma_flat_lt(fam: Seq<FamilyView>, mi1: int, ci1: int, mi2: int, ci2: int)
    requires
        0 <= mi1 < fam.len(),
        0 <= ci1 < fam[mi1].children.len(),
        0 <= mi2 < fam.len(),
        0 <= ci2 < fam[mi2].children.len(),
        mi1 < mi2,
    ensures
        total_children(fam.take(mi1)) + ci1 < total_children(fam.take(mi2)) + ci2,
{
    lemma_total_children_take_step(fam, mi1);
    lemma_total_children_take_le(fam, mi1 + 1, mi2);
}

/// Two valid positions with one flat index are one position.
proof fn lemma_flat_pos_injective(p1: AxisPair, p2: AxisPair, fam: Seq<FamilyView>)
    requires
        pair_valid(p1, fam),
        pair_valid(p2, fam),
        flat_pos(p1, fam) == flat_pos(p2, fam),
    ensures
        p1 == p2,
{
    match (p1.parent, p1.child, p2.parent, p2.child) {
        (
            Some(SelectorView::Index(mi1)),
            Some(SelectorView::Index(ci1)),
            Some(SelectorView::Index(mi2)),
            Some(SelectorView::Index(ci2)),
        ) => {
            if mi1 < mi2 {
                lemma_flat_lt(fam, mi1, ci1, mi2, ci2);
                assert(false);
            }
            if mi2 < mi1 {
                lemma_flat_lt(fam, mi2, ci2, mi1, ci1);
                assert(false);
            }
        },
        _ => {
            assert(false);
        },
    }
}

/// Normalization leaves a valid index-form position untouched.
pub proof fn lemma_normalize_valid(p: AxisPair, fam: Seq<FamilyView>)
    requires
        pair_valid(p, fam),
    ensures
        pair_normalize(p, fam) == p,
{
    match (p.parent, p.child) {
        (Some(SelectorView::Index(mi)), Some(SelectorView::Index(ci))) => {
            assert(fam_names(fam).len() == fam.len());
            assert(resolved_index(SelectorView::Index(mi), fam_names(fam)) == Some(mi));
            assert(sel_to_index(SelectorView::Index(ci), fam[mi].children) == Some(
                SelectorView::Index(ci),
            ));
        },
        _ => {
            assert(false);
        },
    }
}

/// Folding the left operand of an addition modulo `m` changes nothing.
proof fn lemma_mod_add_left(x: int, y: int, m: int)
    requires
        m >= 1,
    ensures
        ((x % m) + y) % m == (x + y) % m,
{
    lemma_add_mod_noop(x % m, y, m);
    lemma_mod_twice(x, m);
    lemma_add_mod_noop(x, y, m);
}

/// One forward step moves a valid position one place along the
/// flattened walk, modulo its length.
proof fn lemma_step_next_flat(p: AxisPair, fam: Seq<FamilyView>)
    requires
        all_families_inhabited(fam),
        pair_valid(p, fam),
    ensures
        pair_valid(pair_step_next(p, fam), fam),
        flat_pos(pair_step_next(p, fam), fam) == (flat_pos(p, fam) + 1) % (total_children(
            fam,
        ) as int),
{
    let t = total_children(fam) as int;
    lemma_flat_pos_bounds(p, fam);
    let q = pair_step_next(p, fam);
    match (p.parent, p.child) {
        (Some(SelectorView::Index(mi)), Some(SelectorView::Index(ci))) => {
            let n = fam.len() as int;
            if ci + 1 < fam[mi].children.len() {
                lemma_flat_pos_bounds(q, fam);
                lemma_small_mod((flat_pos(p, fam) + 1) as nat, t as nat);
            } else {
                lemma_total_children_take_step(fam, mi);
                if mi + 1 < n {
                    lemma_small_mod((mi + 1) as nat, n as nat);
                    assert(q == (AxisPair {
                        parent: Some(SelectorView::Index(mi + 1)),
                        child: Some(SelectorView::Index(0)),
                    }));
                    assert(flat_pos(q, fam) == total_children(fam.take(mi + 1)));
                    assert(flat_pos(q, fam) == flat_pos(p, fam) + 1);
                    lemma_flat_pos_bounds(q, fam);
                    lemma_small_mod((flat_pos(p, fam) + 1) as nat, t as nat);
                } else {
                    lemma_mod_self_0(n);
                    assert((mi + 1) % n == 0);
                    assert(q == (AxisPair {
                        parent: Some(SelectorView::Index(0)),
                        child: Some(SelectorView::Index(0)),
                    }));
                    assert(fam.take(0int) =~= Seq::<FamilyView>::empty());
                    assert(flat_pos(q, fam) == 0);
                    assert(fam.take(n) =~= fam);
                    assert(flat_pos(p, fam) + 1 == t);
                    lemma_mod_self_0(t);
                }
            }
        },
        _ => {
            assert(false);
        },
    }
}

/// After `n` forward steps a valid position sits `n` places along the
/// flattened walk, modulo its length.
proof fn lemma_next_steps_flat(p: AxisPair, fam: Seq<FamilyView>, n: nat)
    requires
        all_families_inhabited(fam),
        pair_valid(p, fam),
    ensures
        pair_valid(next_steps(p, fam, n), fam),
        flat_pos(next_steps(p, fam, n), fam) == (flat_pos(p, fam) + n) % (total_children(
            fam,
        ) as int),
    decreases n,
{
    let t = total_children(fam) as int;
    lemma_flat_pos_bounds(p, fam);
    if n == 0 {
        lemma_small_mod(flat_pos(p, fam) as nat, t as nat);
    } else {
        lemma_normalize_valid(p, fam);
        let q = pair_step_next(p, fam);
        lemma_step_next_flat(p, fam);
        lemma_next_steps_flat(q, fam, (n - 1) as nat);
        lemma_mod_add_left(flat_pos(p, fam) + 1, n - 1, t);
    }
}

/// Navigation is a cyclic walk: as many forward steps as the axis has
/// children in all return a valid position to exactly where it started.
/// Every family must have a child, or the walk strands in a family it
/// cannot step out of.
pub proof fn lemma_navigation_cycles(p: AxisPair, fam: Seq<FamilyView>)
    requires
        all_families_inhabited(fam),
        pair_valid(p, fam),
    ensures
        next_steps(p, fam, total_children(fam)) == p,
{
    let t = total_children(fam) as int;
    lemma_flat_pos_bounds(p, fam);
    lemma_next_steps_flat(p, fam, total_children(fam));
    lemma_mod_add_multiples_vanish(flat_pos(p, fam), t);
    lemma_small_mod(flat_pos(p, fam) as nat, t as nat);
    lemma_flat_pos_injective(next_steps(p, fam, total_children(fam)), p, fam);
}

/// Forward zone navigation over the maps returns to its start after
/// exactly as many steps as there are zones in all, from any valid
/// index-form position, provided every map has a zone.
pub proof fn lemma_zone_navigation_cycles(p: AxisPair, maps: Seq<GameMap>)
    requires
        all_families_inhabited(map_families(maps)),
        pair_valid(p, map_families(maps)),
    ensures
        next_steps(p, map_families(maps), total_zones(maps)) == p,
{
    lemma_total_children_of_maps(maps);
    lemma_navigation_cycles(p, map_families(maps));
}

/// Forward usage navigation over the abilities returns to its start
/// after exactly as many steps as there are usages in all; symmetric to
/// `lemma_zone_navigation_cycles`.
pub proof fn lemma_usage_navigation_cycles(p: AxisPair, abilities: Seq<Ability>)
    requires
        all_families_inhabited(ability_families(abilities)),
        pair_valid(p, ability_families(abilities)),
    ensures
        next_steps(p, ability_families(abilities), total_usages(abilities)) == p,
{
    lemma_total_children_of_abilities(abilities);
    lemma_navigation_cycles(p, ability_families(abilities));
}

/// One backward step exactly undoes one forward step: from any position
/// that normalizes to a valid one — and whose forward wrap, if taken,
/// has a child to land on — stepping forward and then backward restores
/// the normalized position. The intermediate position is valid and
/// already normalized.
pub proof fn lemma_prev_inverts_next(p: AxisPair, fam: Seq<FamilyView>)
    requires
        pair_valid(pair_normalize(p, fam), fam),
        pair_normalize(p, fam).child matches Some(SelectorView::Index(ci))
            ==> (pair_normalize(p, fam).parent matches Some(SelectorView::Index(mi)) ==> (ci + 1
            == fam[mi].children.len() ==> fam[(mi + 1) % (fam.len() as int)].children.len() > 0)),
    ensures
        pair_valid(pair_step_next(pair_normalize(p, fam), fam), fam),
        pair_normalize(pair_step_next(pair_normalize(p, fam), fam), fam) == pair_step_next(
            pair_normalize(p, fam),
            fam,
        ),
        pair_step_prev(pair_step_next(pair_normalize(p, fam), fam), fam) == pair_normalize(p, fam),
{
    let np = pair_normalize(p, fam);
    let q = pair_step_next(np, fam);
    match (np.parent, np.child) {
        (Some(SelectorView::Index(mi)), Some(SelectorView::Index(ci))) => {
            let n = fam.len() as int;
            if ci + 1 < fam[mi].children.len() {
                assert(q == (AxisPair {
                    parent: Some(SelectorView::Index(mi)),
                    child: Some(SelectorView::Index(ci + 1)),
                }));
                assert(pair_step_prev(q, fam) == np);
            } else {
                let mi2 = (mi + 1) % n;
                assert(0 <= mi2 < n) by {
                    vstd::arithmetic::div_mod::lemma_mod_pos_bound(mi + 1, n);
                }
                assert(q == (AxisPair {
                    parent: Some(SelectorView::Index(mi2)),
                    child: Some(SelectorView::Index(0)),
                }));
                assert(fam[mi2].children.len() > 0);
                let pm = if mi2 == 0 {
                    n - 1
                } else {
                    mi2 - 1
                };
                assert(pm == mi) by {
                    if mi + 1 < n {
                        lemma_small_mod((mi + 1) as nat, n as nat);
                    } else {
                        lemma_mod_self_0(n);
                    }
                };
                assert(pair_step_prev(q, fam) == (AxisPair {
                    parent: Some(SelectorView::Index(mi)),
                    child: Some(SelectorView::Index(fam[mi].children.len() - 1)),
                }));
            }
            lemma_normalize_valid(q, fam);
        },
        _ => {
            assert(false);
        },
    }
}

} // verus!
