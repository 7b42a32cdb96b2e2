//! The entity collections: maps owning zones, abilities owning usages,
//! and the progress/target counter attached to each resolved quadruple.

use vstd::prelude::*;

use crate::selection::{
    first_name_index, lemma_first_name_index, lemma_first_name_index_is, names_of, resolved_index,
    Selection, Selector, SelectionView, SelectorView,
};

verus! {

/// A shared capability: an entity that carries a name. The selector
/// resolves references generically over all four entity kinds through it.
pub trait Nameable {
    spec fn spec_name(&self) -> Seq<char>;

    fn name<'a>(&'a self) -> (r: &'a String)
        ensures
            r@ == self.spec_name(),
    ;
}

/// A sub-location within a map.
pub struct Zone {
    pub name: String,
}

impl Zone {
    pub fn new(name: String) -> (z: Zone)
        ensures
            z.name == name,
    {
        Zone { name }
    }
}

impl PartialEq for Zone {
    fn eq(&self, other: &Zone) -> (r: bool) {
        self.name == other.name
    }
}

impl Eq for Zone {

}

impl vstd::std_specs::cmp::PartialEqSpecImpl for Zone {
    open spec fn obeys_eq_spec() -> bool {
        true
    }

    open spec fn eq_spec(&self, other: &Zone) -> bool {
        self.name@ == other.name@
    }
}

impl Nameable for Zone {
    open spec fn spec_name(&self) -> Seq<char> {
        self.name@
    }

    fn name<'a>(&'a self) -> (r: &'a String) {
        &self.name
    }
}

/// A top-level location grouping; owns an ordered list of zones.
pub struct GameMap {
    pub name: String,
    pub zones: Vec<Zone>,
}

impl GameMap {
    pub fn new(name: String) -> (m: GameMap)
        ensures
            m.name == name,
            m.zones@ =~= Seq::<Zone>::empty(),
    {
        GameMap { name, zones: Vec::new() }
    }

    pub fn add_zone(&mut self, z: Zone)
        ensures
            final(self).name == old(self).name,
            final(self).zones@ == old(self).zones@.push(z),
    {
        self.zones.push(z)
    }
}

impl PartialEq for GameMap {
    /// Identity is the name alone: the zones a map owns are not part of
    /// it.
    fn eq(&self, other: &GameMap) -> (r: bool) {
        self.name == other.name
    }
}

impl Eq for GameMap {

}

impl vstd::std_specs::cmp::PartialEqSpecImpl for GameMap {
    open spec fn obeys_eq_spec() -> bool {
        true
    }

    open spec fn eq_spec(&self, other: &GameMap) -> bool {
        self.name@ == other.name@
    }
}

impl Nameable for GameMap {
    open spec fn spec_name(&self) -> Seq<char> {
        self.name@
    }

    fn name<'a>(&'a self) -> (r: &'a String) {
        &self.name
    }
}

/// A specific task instance within an ability.
pub struct Usage {
    pub name: String,
}

impl Usage {
    pub fn new(name: String) -> (u: Usage)
        ensures
            u.name == name,
    {
        Usage { name }
    }
}

impl PartialEq for Usage {
    fn eq(&self, other: &Usage) -> (r: bool) {
        self.name == other.name
    }
}

impl Eq for Usage {

}

impl vstd::std_specs::cmp::PartialEqSpecImpl for Usage {
    open spec fn obeys_eq_spec() -> bool {
        true
    }

    open spec fn eq_spec(&self, other: &Usage) -> bool {
        self.name@ == other.name@
    }
}

impl Nameable for Usage {
    open spec fn spec_name(&self) -> Seq<char> {
        self.name@
    }

    fn name<'a>(&'a self) -> (r: &'a String) {
        &self.name
    }
}

/// A top-level task grouping; owns an ordered list of usages.
pub struct Ability {
    pub name: String,
    pub usages: Vec<Usage>,
}

impl Ability {
    pub fn new(name: String) -> (a: Ability)
        ensures
            a.name == name,
            a.usages@ =~= Seq::<Usage>::empty(),
    {
        Ability { name, usages: Vec::new() }
    }

    pub fn add_usage(&mut self, u: Usage)
        ensures
            final(self).name == old(self).name,
            final(self).usages@ == old(self).usages@.push(u),
    {
        self.usages.push(u);
    }
}

impl PartialEq for Ability {
    /// Identity is the name alone: the usages an ability owns are not
    /// part of it.
    fn eq(&self, other: &Ability) -> (r: bool) {
        self.name == other.name
    }
}

impl Eq for Ability {

}

impl vstd::std_specs::cmp::PartialEqSpecImpl for Ability {
    open spec fn obeys_eq_spec() -> bool {
        true
    }

    open spec fn eq_spec(&self, other: &Ability) -> bool {
        self.name@ == other.name@
    }
}

impl Nameable for Ability {
    open spec fn spec_name(&self) -> Seq<char> {
        self.name@
    }

    fn name<'a>(&'a self) -> (r: &'a String) {
        &self.name
    }
}

/// A progress/goal counter pair attached to one
/// (map, zone, ability, usage) quadruple. No invariant ties progress
/// to target: progress may exceed the target or go negative, and
/// callers interpret the magnitude for display only. The target,
/// however, is clamped at zero when changed by a delta.
#[derive(Clone, Copy, PartialEq, Eq, Structural, Debug)]
pub struct Target {
    pub progress: i32,
    pub target: i32,
}

impl Target {
    pub fn zero_progress(&mut self)
        ensures
            *final(self) == (Target { progress: 0, target: old(self).target }),
    {
        self.progress = 0;
    }

    pub fn zero_target(&mut self)
        ensures
            *final(self) == (Target { progress: old(self).progress, target: 0 }),
    {
        self.target = 0;
    }

    pub fn match_progress_to_target(&mut self)
        ensures
            *final(self) == (Target { progress: old(self).target, target: old(self).target }),
    {
        self.progress = self.target;
    }

    pub fn match_target_to_progress(&mut self)
        ensures
            *final(self) == (Target { progress: old(self).progress, target: old(self).progress }),
    {
        self.target = self.progress;
    }

    pub fn change_progress(&mut self, delta: i32)
        requires
            i32::MIN <= old(self).progress + delta <= i32::MAX,
        ensures
            final(self).progress == old(self).progress + delta,
            final(self).target == old(self).target,
    {
        self.progress = self.progress + delta;
    }

    /// Moves the target by `delta`, clamping at zero: a negative target
    /// has no sensible display meaning.
    pub fn change_target(&mut self, delta: i32)
        requires
            i32::MIN <= old(self).target + delta <= i32::MAX,
        ensures
            final(self).target == if old(self).target + delta >= 0 {
                old(self).target + delta
            } else {
                0
            },
            final(self).progress == old(self).progress,
    {
        let moved = self.target + delta;
        self.target = if moved >= 0 {
            moved
        } else {
            0
        };
    }
}

impl Default for Target {
    /// A fresh counter: no progress yet, a goal of two.
    fn default() -> (t: Target)
        ensures
            t == (Target { progress: 0, target: 2 }),
    {
        Target { progress: 0, target: 2 }
    }
}

/// The resolved-name key of one progress matrix entry:
/// (map, zone, ability, usage).
pub type MatrixKey = (Seq<char>, Seq<char>, Seq<char>, Seq<char>);

/// One cell of the sparse progress matrix: a counter keyed by the four
/// resolved names, so the cell survives reordering of the collections.
pub struct ProgressEntry {
    pub map_name: String,
    pub zone_name: String,
    pub ability_name: String,
    pub usage_name: String,
    pub target: Target,
}

/// The key of a matrix entry.
pub open spec fn entry_key(e: ProgressEntry) -> MatrixKey {
    (e.map_name@, e.zone_name@, e.ability_name@, e.usage_name@)
}

/// The position of the first matrix entry carrying key `k`, if any.
pub open spec fn find_entry(s: Seq<ProgressEntry>, k: MatrixKey) -> Option<int>
    decreases s.len(),
{
    if s.len() == 0 {
        None
    } else if entry_key(s[0]) == k {
        Some(0int)
    } else {
        match find_entry(s.drop_first(), k) {
            Some(j) => Some(j + 1),
            None => None,
        }
    }
}

/// What the matrix holds at key `k`: the counter of the first entry
/// carrying the key, or nothing.
pub open spec fn mat_get(s: Seq<ProgressEntry>, k: MatrixKey) -> Option<Target> {
    match find_entry(s, k) {
        Some(i) => Some(s[i].target),
        None => None,
    }
}

/// `find_entry` finds the first occurrence: the returned position
/// carries the key, nothing before it does, and a miss means the key is
/// absent altogether.
pub proof fn lemma_find_entry(s: Seq<ProgressEntry>, k: MatrixKey)
    ensures
        match find_entry(s, k) {
            Some(i) => 0 <= i < s.len() && entry_key(s[i]) == k && (forall|j: int|
                0 <= j < i ==> entry_key(s[j]) != k),
            None => forall|j: int| 0 <= j < s.len() ==> entry_key(s[j]) != k,
        },
    decreases s.len(),
{
    if s.len() > 0 && entry_key(s[0]) != k {
        let rest = s.drop_first();
        lemma_find_entry(rest, k);
        match find_entry(rest, k) {
            Some(i) => {
                assert(rest[i] == s[i + 1]);
                assert forall|j: int| 0 <= j < i + 1 implies entry_key(s[j]) != k by {
                    if j > 0 {
                        assert(rest[j - 1] == s[j]);
                    }
                }
            },
            None => {
                assert forall|j: int| 0 <= j < s.len() implies entry_key(s[j]) != k by {
                    if j > 0 {
                        assert(rest[j - 1] == s[j]);
                    }
                }
            },
        }
    }
}

/// A scan that stops at the first hit determines `find_entry`.
pub proof fn lemma_find_entry_is(s: Seq<ProgressEntry>, k: MatrixKey, i: int)
    requires
        0 <= i < s.len(),
        entry_key(s[i]) == k,
        forall|j: int| 0 <= j < i ==> entry_key(s[j]) != k,
    ensures
        find_entry(s, k) == Some(i),
{
    lemma_find_entry(s, k);
}

/// Replacing the first entry with a key, or appending a fresh one,
/// changes the matrix at that key alone.
pub proof fn lemma_mat_insert_effect(s: Seq<ProgressEntry>, s2: Seq<ProgressEntry>, e: ProgressEntry)
    requires
        match find_entry(s, entry_key(e)) {
            Some(i) => s2 == s.update(i, e),
            None => s2 == s.push(e),
        },
    ensures
        mat_get(s2, entry_key(e)) == Some(e.target),
        forall|k: MatrixKey| k != entry_key(e) ==> mat_get(s2, k) == mat_get(s, k),
{
    let ke = entry_key(e);
    lemma_find_entry(s, ke);
    let ie: int = match find_entry(s, ke) {
        Some(i) => i,
        None => s.len() as int,
    };
    assert(s2.len() == if find_entry(s, ke) is Some {
        s.len() as int
    } else {
        s.len() as int + 1
    });
    assert(s2[ie] == e);
    assert forall|j: int| 0 <= j < ie implies entry_key(s2[j]) != ke by {
        assert(s2[j] == s[j]);
    }
    lemma_find_entry_is(s2, ke, ie);
    assert forall|k: MatrixKey| k != ke implies mat_get(s2, k) == mat_get(s, k) by {
        lemma_find_entry(s, k);
        lemma_find_entry(s2, k);
        match find_entry(s, k) {
            Some(j) => {
                assert(j != ie);
                assert(s2[j] == s[j]);
                assert forall|l: int| 0 <= l < j implies entry_key(s2[l]) != k by {
                    if l != ie {
                        assert(s2[l] == s[l]);
                    }
                }
                lemma_find_entry_is(s2, k, j);
            },
            None => {
                match find_entry(s2, k) {
                    Some(j2) => {
                        assert(entry_key(s2[j2]) == k);
                        if j2 != ie {
                            assert(s2[j2] == s[j2]);
                        }
                        assert(false);
                    },
                    None => {},
                }
            },
        }
    }
}

/// The position in `vs` of the first entity named `n`, if any.
fn find_by_name<S: Nameable>(vs: &Vec<S>, n: &String) -> (r: Option<usize>)
    ensures
        match r {
            Some(i) => first_name_index(names_of(vs@), n@) == Some(i as int) && i < vs@.len(),
            None => first_name_index(names_of(vs@), n@) is None,
        },
{
    let ghost names = names_of(vs@);
    let mut i: usize = 0;
    while i < vs.len()
        invariant
            0 <= i <= vs@.len(),
            names == names_of(vs@),
            names.len() == vs@.len(),
            forall|k: int| 0 <= k < i ==> names[k] != n@,
        decreases vs@.len() - i,
    {
        assert(names[i as int] == vs@[i as int].spec_name());
        if *vs[i].name() == *n {
            proof {
                lemma_first_name_index_is(names, n@, i as int);
            }
            return Some(i);
        }
        i += 1;
    }
    proof {
        lemma_first_name_index(names, n@);
    }
    None
}

/// The position in the matrix of the first entry keyed by the four
/// given names, if any.
fn matrix_find(
    entries: &Vec<ProgressEntry>,
    mn: &String,
    zn: &String,
    an: &String,
    un: &String,
) -> (r: Option<usize>)
    ensures
        match r {
            Some(i) => find_entry(entries@, (mn@, zn@, an@, un@)) == Some(i as int) && i
                < entries@.len(),
            None => find_entry(entries@, (mn@, zn@, an@, un@)) is None,
        },
{
    let ghost k: MatrixKey = (mn@, zn@, an@, un@);
    let mut i: usize = 0;
    while i < entries.len()
        invariant
            0 <= i <= entries@.len(),
            k == (mn@, zn@, an@, un@),
            forall|j: int| 0 <= j < i ==> entry_key(entries@[j]) != k,
        decreases entries@.len() - i,
    {
        let e = &entries[i];
        if e.map_name == *mn && e.zone_name == *zn && e.ability_name == *an && e.usage_name
            == *un {
            proof {
                lemma_find_entry_is(entries@, k, i as int);
            }
            return Some(i);
        }
        assert(entry_key(entries@[i as int]) != k);
        i += 1;
    }
    proof {
        lemma_find_entry(entries@, k);
    }
    None
}

/// Stores `e` under its key: the first entry already carrying the key
/// is replaced, otherwise `e` is appended.
fn matrix_insert(entries: &mut Vec<ProgressEntry>, e: ProgressEntry)
    ensures
        match find_entry(old(entries)@, entry_key(e)) {
            Some(i) => final(entries)@ == old(entries)@.update(i, e),
            None => final(entries)@ == old(entries)@.push(e),
        },
        mat_get(final(entries)@, entry_key(e)) == Some(e.target),
        forall|k: MatrixKey|
            k != entry_key(e) ==> mat_get(final(entries)@, k) == mat_get(old(entries)@, k),
{
    let found = matrix_find(entries, &e.map_name, &e.zone_name, &e.ability_name, &e.usage_name);
    match found {
        Some(i) => {
            entries.remove(i);
            entries.insert(i, e);
            proof {
                assert(final(entries)@ =~= old(entries)@.update(i as int, e));
                lemma_mat_insert_effect(old(entries)@, final(entries)@, e);
            }
        },
        None => {
            entries.push(e);
            proof {
                lemma_mat_insert_effect(old(entries)@, final(entries)@, e);
            }
        },
    }
}

/// How many usages exist across all abilities.
pub open spec fn total_usages(abilities: Seq<Ability>) -> nat
    decreases abilities.len(),
{
    if abilities.len() == 0 {
        0
    } else {
        total_usages(abilities.drop_last()) + abilities.last().usages@.len()
    }
}

/// How many zones exist across all maps.
pub open spec fn total_zones(maps: Seq<GameMap>) -> nat
    decreases maps.len(),
{
    if maps.len() == 0 {
        0
    } else {
        total_zones(maps.drop_last()) + maps.last().zones@.len()
    }
}

/// The (map name, zone name) pair the two selectors resolve to: the map
/// selector against the maps, the zone selector against the zones of
/// the resolved map.
pub open spec fn zone_pair_names(
    maps: Seq<GameMap>,
    msel: SelectorView,
    zsel: SelectorView,
) -> Option<(Seq<char>, Seq<char>)> {
    match resolved_index(msel, names_of(maps)) {
        None => None,
        Some(mi) => match resolved_index(zsel, names_of(maps[mi].zones@)) {
            None => None,
            Some(zi) => Some((maps[mi].name@, maps[mi].zones@[zi].name@)),
        },
    }
}

/// The (ability name, usage name) pair the two selectors resolve to.
pub open spec fn usage_pair_names(
    abilities: Seq<Ability>,
    asel: SelectorView,
    usel: SelectorView,
) -> Option<(Seq<char>, Seq<char>)> {
    match resolved_index(asel, names_of(abilities)) {
        None => None,
        Some(ai) => match resolved_index(usel, names_of(abilities[ai].usages@)) {
            None => None,
            Some(ui) => Some((abilities[ai].name@, abilities[ai].usages@[ui].name@)),
        },
    }
}

/// Whether `k` pairs the given map and zone names with some live
/// (ability, usage) of the task axis.
pub open spec fn in_task_cross(
    abilities: Seq<Ability>,
    mn: Seq<char>,
    zn: Seq<char>,
    k: MatrixKey,
) -> bool {
    &&& k.0 == mn
    &&& k.1 == zn
    &&& exists|ai: int, ui: int|
        0 <= ai < abilities.len() && 0 <= ui < abilities[ai].usages@.len() && abilities[ai].name@
            == k.2 && abilities[ai].usages@[ui].name@ == k.3
}

/// Whether `k` pairs the given ability and usage names with some live
/// (map, zone) of the location axis.
pub open spec fn in_location_cross(
    maps: Seq<GameMap>,
    an: Seq<char>,
    un: Seq<char>,
    k: MatrixKey,
) -> bool {
    &&& k.2 == an
    &&& k.3 == un
    &&& exists|mi: int, zi: int|
        0 <= mi < maps.len() && 0 <= zi < maps[mi].zones@.len() && maps[mi].name@ == k.0
            && maps[mi].zones@[zi].name@ == k.1
}

/// Ability names pairwise distinct, and usage names distinct within
/// each ability: the uniqueness the data model expects of siblings.
pub open spec fn ability_names_distinct(abilities: Seq<Ability>) -> bool {
    &&& forall|i: int, j: int|
        0 <= i < j < abilities.len() ==> abilities[i].name@ != abilities[j].name@
    &&& forall|i: int, u: int, v: int|
        0 <= i < abilities.len() && 0 <= u < v < abilities[i].usages@.len()
            ==> abilities[i].usages@[u].name@ != abilities[i].usages@[v].name@
}

/// Map names pairwise distinct, and zone names distinct within each
/// map.
pub open spec fn map_names_distinct(maps: Seq<GameMap>) -> bool {
    &&& forall|i: int, j: int| 0 <= i < j < maps.len() ==> maps[i].name@ != maps[j].name@
    &&& forall|i: int, u: int, v: int|
        0 <= i < maps.len() && 0 <= u < v < maps[i].zones@.len() ==> maps[i].zones@[u].name@
            != maps[i].zones@[v].name@
}

/// No key of the task cross product for (mn, zn) is present yet.
pub open spec fn task_cross_fresh(
    entries: Seq<ProgressEntry>,
    abilities: Seq<Ability>,
    mn: Seq<char>,
    zn: Seq<char>,
) -> bool {
    forall|k: MatrixKey| in_task_cross(abilities, mn, zn, k) ==> find_entry(entries, k) is None
}

/// No key of the location cross product for (an, un) is present yet.
pub open spec fn location_cross_fresh(
    entries: Seq<ProgressEntry>,
    maps: Seq<GameMap>,
    an: Seq<char>,
    un: Seq<char>,
) -> bool {
    forall|k: MatrixKey| in_location_cross(maps, an, un, k) ==> find_entry(entries, k) is None
}

/// What adding a zone leaves behind: when both selectors resolve, every
/// key pairing the resolved (map, zone) with a live (ability, usage)
/// holds a fresh default counter, every other key is untouched, and —
/// when sibling names are unique and no such key existed before —
/// exactly one entry per (ability, usage) pair has been appended.
pub open spec fn add_zone_post(
    pre: ProgressStore,
    post: ProgressStore,
    msel: SelectorView,
    zsel: SelectorView,
) -> bool {
    &&& post.name == pre.name
    &&& post.maps@ == pre.maps@
    &&& post.abilities@ == pre.abilities@
    &&& match zone_pair_names(pre.maps@, msel, zsel) {
        None => post.progress@ == pre.progress@,
        Some(names) => {
            let mn = names.0;
            let zn = names.1;
            &&& forall|k: MatrixKey|
                in_task_cross(pre.abilities@, mn, zn, k) ==> mat_get(post.progress@, k) == Some(
                    Target { progress: 0, target: 2 },
                )
            &&& forall|k: MatrixKey|
                !in_task_cross(pre.abilities@, mn, zn, k) ==> mat_get(post.progress@, k)
                    == mat_get(pre.progress@, k)
            &&& pre.progress@.len() <= post.progress@.len() <= pre.progress@.len()
                + total_usages(pre.abilities@)
            &&& (ability_names_distinct(pre.abilities@) && task_cross_fresh(
                pre.progress@,
                pre.abilities@,
                mn,
                zn,
            )) ==> {
                &&& post.progress@.len() == pre.progress@.len() + total_usages(pre.abilities@)
                &&& pre.progress@.is_prefix_of(post.progress@)
            }
        },
    }
}

/// What adding a usage leaves behind, symmetric to `add_zone_post`.
pub open spec fn add_usage_post(
    pre: ProgressStore,
    post: ProgressStore,
    asel: SelectorView,
    usel: SelectorView,
) -> bool {
    &&& post.name == pre.name
    &&& post.maps@ == pre.maps@
    &&& post.abilities@ == pre.abilities@
    &&& match usage_pair_names(pre.abilities@, asel, usel) {
        None => post.progress@ == pre.progress@,
        Some(names) => {
            let an = names.0;
            let un = names.1;
            &&& forall|k: MatrixKey|
                in_location_cross(pre.maps@, an, un, k) ==> mat_get(post.progress@, k) == Some(
                    Target { progress: 0, target: 2 },
                )
            &&& forall|k: MatrixKey|
                !in_location_cross(pre.maps@, an, un, k) ==> mat_get(post.progress@, k)
                    == mat_get(pre.progress@, k)
            &&& pre.progress@.len() <= post.progress@.len() <= pre.progress@.len() + total_zones(
                pre.maps@,
            )
            &&& (map_names_distinct(pre.maps@) && location_cross_fresh(
                pre.progress@,
                pre.maps@,
                an,
                un,
            )) ==> {
                &&& post.progress@.len() == pre.progress@.len() + total_zones(pre.maps@)
                &&& pre.progress@.is_prefix_of(post.progress@)
            }
        },
    }
}

/// The whole tracked state: the two entity axes and the sparse progress
/// matrix, keyed by resolved names so entries survive reordering.
/// Removal of an entity does not purge its matrix entries: orphaned
/// entries stay in the matrix and are filtered at read time, since a
/// lookup always resolves through the live collections first.
pub struct ProgressStore {
    pub name: String,
    pub maps: Vec<GameMap>,
    pub abilities: Vec<Ability>,
    pub progress: Vec<ProgressEntry>,
}

impl ProgressStore {
    pub fn new(name: String) -> (s: ProgressStore)
        ensures
            s.name == name,
            s.maps@ =~= Seq::<GameMap>::empty(),
            s.abilities@ =~= Seq::<Ability>::empty(),
            s.progress@ =~= Seq::<ProgressEntry>::empty(),
    {
        ProgressStore { name, maps: Vec::new(), abilities: Vec::new(), progress: Vec::new() }
    }

    /// Appends a map. A map with no zones contributes nothing to the
    /// matrix, so no entries are created.
    pub fn add_map(&mut self, m: GameMap)
        ensures
            final(self).name == old(self).name,
            final(self).maps@ == old(self).maps@.push(m),
            final(self).abilities@ == old(self).abilities@,
            final(self).progress@ == old(self).progress@,
    {
        self.maps.push(m);
    }

    /// Appends an ability; symmetric to `add_map`.
    pub fn add_ability(&mut self, a: Ability)
        ensures
            final(self).name == old(self).name,
            final(self).maps@ == old(self).maps@,
            final(self).abilities@ == old(self).abilities@.push(a),
            final(self).progress@ == old(self).progress@,
    {
        self.abilities.push(a);
    }

    /// For the zone the two selectors resolve to, inserts a default
    /// counter for every live (ability, usage) pair. A no-op when either
    /// selector fails to resolve. The zone itself must already hang off
    /// its map; this fills the matrix only.
    pub fn add_zone(&mut self, map_sel: &Selector, zone_sel: &Selector)
        ensures
            add_zone_post(*old(self), *final(self), map_sel@, zone_sel@),
    {
        let ghost pre = *old(self);
        let mi = match map_sel.get_selected_idx(&self.maps) {
            Some(mi) => mi,
            None => {
                return ;
            },
        };
        let zi = match zone_sel.get_selected_idx(&self.maps[mi].zones) {
            Some(zi) => zi,
            None => {
                return ;
            },
        };
        let mname = self.maps[mi].name.clone();
        let zname = self.maps[mi].zones[zi].name.clone();
        let ghost mn = mname@;
        let ghost zn = zname@;
        let ghost abs = pre.abilities@;
        let ghost entries0 = pre.progress@;
        proof {
            assert(zone_pair_names(pre.maps@, map_sel@, zone_sel@) == Some((mn, zn)));
        }
        let mut ai: usize = 0;
        while ai < self.abilities.len()
            invariant
                0 <= ai <= abs.len(),
                self.name == pre.name,
                self.maps@ == pre.maps@,
                self.abilities@ == abs,
                mn == mname@,
                zn == zname@,
                task_fill_inv(entries0, self.progress@, abs, mn, zn, ai as int, 0),
            decreases abs.len() - ai,
        {
            let nusages = self.abilities[ai].usages.len();
            let mut ui: usize = 0;
            while ui < nusages
                invariant
                    0 <= ui <= nusages,
                    0 <= ai < abs.len(),
                    nusages == abs[ai as int].usages@.len(),
                    self.name == pre.name,
                    self.maps@ == pre.maps@,
                    self.abilities@ == abs,
                    mn == mname@,
                    zn == zname@,
                    task_fill_inv(entries0, self.progress@, abs, mn, zn, ai as int, ui as int),
                decreases nusages - ui,
            {
                let e = ProgressEntry {
                    map_name: mname.clone(),
                    zone_name: zname.clone(),
                    ability_name: self.abilities[ai].name.clone(),
                    usage_name: self.abilities[ai].usages[ui].name.clone(),
                    target: Target { progress: 0, target: 2 },
                };
                let ghost cur = self.progress@;
                matrix_insert(&mut self.progress, e);
                proof {
                    lemma_task_fill_step(entries0, cur, self.progress@, abs, mn, zn, ai as int, ui as int, e);
                }
                ui += 1;
            }
            proof {
                lemma_task_fill_ability_boundary(entries0, self.progress@, abs, mn, zn, ai as int);
            }
            ai += 1;
        }
        proof {
            lemma_task_fill_complete(entries0, self.progress@, abs, mn, zn);
        }
    }

    /// For the usage the two selectors resolve to, inserts a default
    /// counter for every live (map, zone) pair; symmetric to `add_zone`.
    pub fn add_usage(&mut self, ability_sel: &Selector, usage_sel: &Selector)
        ensures
            add_usage_post(*old(self), *final(self), ability_sel@, usage_sel@),
    {
        let ghost pre = *old(self);
        let ai = match ability_sel.get_selected_idx(&self.abilities) {
            Some(ai) => ai,
            None => {
                return ;
            },
        };
        let ui = match usage_sel.get_selected_idx(&self.abilities[ai].usages) {
            Some(ui) => ui,
            None => {
                return ;
            },
        };
        let aname = self.abilities[ai].name.clone();
        let uname = self.abilities[ai].usages[ui].name.clone();
        let ghost an = aname@;
        let ghost un = uname@;
        let ghost mps = pre.maps@;
        let ghost entries0 = pre.progress@;
        proof {
            assert(usage_pair_names(pre.abilities@, ability_sel@, usage_sel@) == Some((an, un)));
        }
        let mut mi: usize = 0;
        while mi < self.maps.len()
            invariant
                0 <= mi <= mps.len(),
                self.name == pre.name,
                self.maps@ == mps,
                self.abilities@ == pre.abilities@,
                an == aname@,
                un == uname@,
                location_fill_inv(entries0, self.progress@, mps, an, un, mi as int, 0),
            decreases mps.len() - mi,
        {
            let nzones = self.maps[mi].zones.len();
            let mut zi: usize = 0;
            while zi < nzones
                invariant
                    0 <= zi <= nzones,
                    0 <= mi < mps.len(),
                    nzones == mps[mi as int].zones@.len(),
                    self.name == pre.name,
                    self.maps@ == mps,
                    self.abilities@ == pre.abilities@,
                    an == aname@,
                    un == uname@,
                    location_fill_inv(entries0, self.progress@, mps, an, un, mi as int, zi as int),
                decreases nzones - zi,
            {
                let e = ProgressEntry {
                    map_name: self.maps[mi].name.clone(),
                    zone_name: self.maps[mi].zones[zi].name.clone(),
                    ability_name: aname.clone(),
                    usage_name: uname.clone(),
                    target: Target { progress: 0, target: 2 },
                };
                let ghost cur = self.progress@;
                matrix_insert(&mut self.progress, e);
                proof {
                    lemma_location_fill_step(entries0, cur, self.progress@, mps, an, un, mi as int, zi as int, e);
                }
                zi += 1;
            }
            proof {
                lemma_location_fill_map_boundary(entries0, self.progress@, mps, an, un, mi as int);
            }
            mi += 1;
        }
        proof {
            lemma_location_fill_complete(entries0, self.progress@, mps, an, un);
        }
    }

    /// The counter of the cell a complete cursor resolves to, if the
    /// cursor resolves and the cell exists.
    pub fn get_target(&self, sel: &Selection) -> (r: Option<&Target>)
        ensures
            match selection_key(self.maps@, self.abilities@, sel@) {
                Some(k) => match r {
                    Some(t) => mat_get(self.progress@, k) == Some(*t),
                    None => mat_get(self.progress@, k) is None,
                },
                None => r is None,
            },
    {
        let msel = match &sel.map {
            Some(x) => x,
            None => {
                return None;
            },
        };
        let zsel = match &sel.zone {
            Some(x) => x,
            None => {
                return None;
            },
        };
        let asel = match &sel.ability {
            Some(x) => x,
            None => {
                return None;
            },
        };
        let usel = match &sel.usage {
            Some(x) => x,
            None => {
                return None;
            },
        };
        let mi = match msel.get_selected_idx(&self.maps) {
            Some(i) => i,
            None => {
                return None;
            },
        };
        let ai = match asel.get_selected_idx(&self.abilities) {
            Some(i) => i,
            None => {
                return None;
            },
        };
        let zi = match zsel.get_selected_idx(&self.maps[mi].zones) {
            Some(i) => i,
            None => {
                return None;
            },
        };
        let ui = match usel.get_selected_idx(&self.abilities[ai].usages) {
            Some(i) => i,
            None => {
                return None;
            },
        };
        match matrix_find(
            &self.progress,
            &self.maps[mi].name,
            &self.maps[mi].zones[zi].name,
            &self.abilities[ai].name,
            &self.abilities[ai].usages[ui].name,
        ) {
            Some(j) => Some(&self.progress[j].target),
            None => None,
        }
    }


    /// The counter of the cell a complete cursor resolves to, borrowed
    /// for mutation: the store afterwards holds, at that cell alone,
    /// whatever the caller wrote through the borrow.
    pub fn get_target_mut(&mut self, sel: &Selection) -> (r: Option<&mut Target>)
        ensures
            match r {
                Some(t) => {
                    let k = selection_key(old(self).maps@, old(self).abilities@, sel@)->Some_0;
                    let j = find_entry(old(self).progress@, k)->Some_0;
                    &&& selection_key(old(self).maps@, old(self).abilities@, sel@) is Some
                    &&& find_entry(old(self).progress@, k) is Some
                    &&& *t == old(self).progress@[j].target
                    &&& final(self).name == old(self).name
                    &&& final(self).maps@ == old(self).maps@
                    &&& final(self).abilities@ == old(self).abilities@
                    &&& final(self).progress@ == old(self).progress@.update(
                        j,
                        ProgressEntry { target: *final(t), ..old(self).progress@[j] },
                    )
                },
                None => {
                    &&& *final(self) == *old(self)
                    &&& match selection_key(old(self).maps@, old(self).abilities@, sel@) {
                        Some(k) => mat_get(old(self).progress@, k) is None,
                        None => true,
                    }
                },
            },
    {
        let msel = match &sel.map {
            Some(x) => x,
            None => {
                return None;
            },
        };
        let zsel = match &sel.zone {
            Some(x) => x,
            None => {
                return None;
            },
        };
        let asel = match &sel.ability {
            Some(x) => x,
            None => {
                return None;
            },
        };
        let usel = match &sel.usage {
            Some(x) => x,
            None => {
                return None;
            },
        };
        let mi = match msel.get_selected_idx(&self.maps) {
            Some(i) => i,
            None => {
                return None;
            },
        };
        let ai = match asel.get_selected_idx(&self.abilities) {
            Some(i) => i,
            None => {
                return None;
            },
        };
        let zi = match zsel.get_selected_idx(&self.maps[mi].zones) {
            Some(i) => i,
            None => {
                return None;
            },
        };
        let ui = match usel.get_selected_idx(&self.abilities[ai].usages) {
            Some(i) => i,
            None => {
                return None;
            },
        };
        let j = match matrix_find(
            &self.progress,
            &self.maps[mi].name,
            &self.maps[mi].zones[zi].name,
            &self.abilities[ai].name,
            &self.abilities[ai].usages[ui].name,
        ) {
            Some(j) => j,
            None => {
                return None;
            },
        };
        Some(&mut self.progress[j].target)
    
    }

    /// Excises the first map carrying the given name, if any. Matrix
    /// entries keyed by it stay orphaned: lookups resolve through the
    /// live maps first and can no longer reach them.
    pub fn rm_map(&mut self, name: &String)
        ensures
            final(self).name == old(self).name,
            final(self).abilities@ == old(self).abilities@,
            final(self).progress@ == old(self).progress@,
            match first_name_index(names_of(old(self).maps@), name@) {
                Some(i) => final(self).maps@ == old(self).maps@.remove(i),
                None => final(self).maps@ == old(self).maps@,
            },
    {
        match find_by_name(&self.maps, name) {
            Some(i) => {
                self.maps.remove(i);
            },
            None => {},
        }
    }

    /// Excises the first ability carrying the given name, if any;
    /// symmetric to `rm_map`.
    pub fn rm_ability(&mut self, name: &String)
        ensures
            final(self).name == old(self).name,
            final(self).maps@ == old(self).maps@,
            final(self).progress@ == old(self).progress@,
            match first_name_index(names_of(old(self).abilities@), name@) {
                Some(i) => final(self).abilities@ == old(self).abilities@.remove(i),
                None => final(self).abilities@ == old(self).abilities@,
            },
    {
        match find_by_name(&self.abilities, name) {
            Some(i) => {
                self.abilities.remove(i);
            },
            None => {},
        }
    }

    /// Excises the first zone named `name` from the first map named
    /// `map_name`, if both exist; matrix entries are left as they are.
    pub fn rm_zone(&mut self, map_name: &String, name: &String)
        ensures
            final(self).name == old(self).name,
            final(self).abilities@ == old(self).abilities@,
            final(self).progress@ == old(self).progress@,
            match first_name_index(names_of(old(self).maps@), map_name@) {
                None => final(self).maps@ == old(self).maps@,
                Some(mi) => match first_name_index(
                    names_of(old(self).maps@[mi].zones@),
                    name@,
                ) {
                    None => final(self).maps@ == old(self).maps@,
                    Some(zi) => {
                        &&& final(self).maps@.len() == old(self).maps@.len()
                        &&& forall|j: int|
                            0 <= j < old(self).maps@.len() && j != mi ==> final(self).maps@[j]
                                == old(self).maps@[j]
                        &&& final(self).maps@[mi].name == old(self).maps@[mi].name
                        &&& final(self).maps@[mi].zones@ == old(self).maps@[mi].zones@.remove(zi)
                    },
                },
            },
    {
        let mi = match find_by_name(&self.maps, map_name) {
            Some(i) => i,
            None => {
                return ;
            },
        };
        let mut m = self.maps.remove(mi);
        let found = find_by_name(&m.zones, name);
        match found {
            Some(zi) => {
                m.zones.remove(zi);
                self.maps.insert(mi, m);
            },
            None => {
                self.maps.insert(mi, m);
                proof {
                    assert(self.maps@ =~= old(self).maps@);
                }
            },
        }
    }

    /// Excises the first usage named `name` from the first ability named
    /// `ability_name`, if both exist; symmetric to `rm_zone`.
    pub fn rm_usage(&mut self, ability_name: &String, name: &String)
        ensures
            final(self).name == old(self).name,
            final(self).maps@ == old(self).maps@,
            final(self).progress@ == old(self).progress@,
            match first_name_index(names_of(old(self).abilities@), ability_name@) {
                None => final(self).abilities@ == old(self).abilities@,
                Some(ai) => match first_name_index(
                    names_of(old(self).abilities@[ai].usages@),
                    name@,
                ) {
                    None => final(self).abilities@ == old(self).abilities@,
                    Some(ui) => {
                        &&& final(self).abilities@.len() == old(self).abilities@.len()
                        &&& forall|j: int|
                            0 <= j < old(self).abilities@.len() && j != ai
                                ==> final(self).abilities@[j] == old(self).abilities@[j]
                        &&& final(self).abilities@[ai].name == old(self).abilities@[ai].name
                        &&& final(self).abilities@[ai].usages@
                            == old(self).abilities@[ai].usages@.remove(ui)
                    },
                },
            },
    {
        let ai = match find_by_name(&self.abilities, ability_name) {
            Some(i) => i,
            None => {
                return ;
            },
        };
        let mut a = self.abilities.remove(ai);
        let found = find_by_name(&a.usages, name);
        match found {
            Some(ui) => {
                a.usages.remove(ui);
                self.abilities.insert(ai, a);
            },
            None => {
                self.abilities.insert(ai, a);
                proof {
                    assert(self.abilities@ =~= old(self).abilities@);
                }
            },
        }
    }
}


/// How many (ability, usage) pairs precede position (bi, vi) in the
/// cross-product fill order.
spec fn processed_usages(abilities: Seq<Ability>, bi: int, vi: int) -> int {
    total_usages(abilities.take(bi)) + vi
}

/// Whether `k` belongs to the part of the task cross product strictly
/// before fill position (bi, vi).
spec fn in_task_cross_upto(
    abilities: Seq<Ability>,
    mn: Seq<char>,
    zn: Seq<char>,
    k: MatrixKey,
    bi: int,
    vi: int,
) -> bool {
    &&& k.0 == mn
    &&& k.1 == zn
    &&& exists|ai: int, ui: int|
        0 <= ai < abilities.len() && 0 <= ui < abilities[ai].usages@.len() && (ai < bi || (ai == bi
            && ui < vi)) && abilities[ai].name@ == k.2 && abilities[ai].usages@[ui].name@ == k.3
}

/// The fill loop's state after the pairs before (bi, vi) have been
/// inserted.
spec fn task_fill_inv(
    entries0: Seq<ProgressEntry>,
    cur: Seq<ProgressEntry>,
    abilities: Seq<Ability>,
    mn: Seq<char>,
    zn: Seq<char>,
    bi: int,
    vi: int,
) -> bool {
    &&& forall|k: MatrixKey|
        in_task_cross_upto(abilities, mn, zn, k, bi, vi) ==> mat_get(cur, k) == Some(
            Target { progress: 0, target: 2 },
        )
    &&& forall|k: MatrixKey|
        !in_task_cross_upto(abilities, mn, zn, k, bi, vi) ==> mat_get(cur, k) == mat_get(
            entries0,
            k,
        )
    &&& entries0.len() <= cur.len() <= entries0.len() + processed_usages(abilities, bi, vi)
    &&& (ability_names_distinct(abilities) && task_cross_fresh(entries0, abilities, mn, zn)) ==> (
    cur.len() == entries0.len() + processed_usages(abilities, bi, vi) && entries0.is_prefix_of(cur))
}

/// One fill step: inserting the (bi, vi) pair's default entry advances
/// the loop state to position (bi, vi + 1).
proof fn lemma_task_fill_step(
    entries0: Seq<ProgressEntry>,
    cur: Seq<ProgressEntry>,
    cur2: Seq<ProgressEntry>,
    abilities: Seq<Ability>,
    mn: Seq<char>,
    zn: Seq<char>,
    bi: int,
    vi: int,
    e: ProgressEntry,
)
    requires
        0 <= bi < abilities.len(),
        0 <= vi < abilities[bi].usages@.len(),
        task_fill_inv(entries0, cur, abilities, mn, zn, bi, vi),
        entry_key(e) == (mn, zn, abilities[bi].name@, abilities[bi].usages@[vi].name@),
        e.target == (Target { progress: 0, target: 2 }),
        match find_entry(cur, entry_key(e)) {
            Some(i) => cur2 == cur.update(i, e),
            None => cur2 == cur.push(e),
        },
        mat_get(cur2, entry_key(e)) == Some(e.target),
        forall|k: MatrixKey| k != entry_key(e) ==> mat_get(cur2, k) == mat_get(cur, k),
    ensures
        task_fill_inv(entries0, cur2, abilities, mn, zn, bi, vi + 1),
{
    let ke = entry_key(e);
    lemma_find_entry(cur, ke);
    match find_entry(cur, ke) {
        Some(i) => {
            assert(cur2 == cur.update(i, e));
            assert(cur2.len() == cur.len());
        },
        None => {
            assert(cur2 == cur.push(e));
            assert(cur2.len() == cur.len() + 1);
        },
    }
    assert(in_task_cross_upto(abilities, mn, zn, ke, bi, vi + 1));
    assert forall|k: MatrixKey|
        in_task_cross_upto(abilities, mn, zn, k, bi, vi + 1) implies mat_get(cur2, k) == Some(
        Target { progress: 0, target: 2 },
    ) by {
        if k != ke {
            let (ai, ui) = choose|ai: int, ui: int|
                0 <= ai < abilities.len() && 0 <= ui < abilities[ai].usages@.len() && (ai < bi || (
                ai == bi && ui < vi + 1)) && abilities[ai].name@ == k.2
                    && abilities[ai].usages@[ui].name@ == k.3;
            if ai == bi && ui == vi {
                assert(k == ke);
            } else {
                assert(in_task_cross_upto(abilities, mn, zn, k, bi, vi));
            }
        }
    }
    assert forall|k: MatrixKey|
        !in_task_cross_upto(abilities, mn, zn, k, bi, vi + 1) implies mat_get(cur2, k) == mat_get(
        entries0,
        k,
    ) by {
        assert(k != ke);
        assert(!in_task_cross_upto(abilities, mn, zn, k, bi, vi));
    }
    assert(cur2.len() <= cur.len() + 1);
    if ability_names_distinct(abilities) && task_cross_fresh(entries0, abilities, mn, zn) {
        assert(find_entry(cur, ke) is None) by {
            lemma_find_entry(cur, ke);
            match find_entry(cur, ke) {
                Some(i) => {
                    assert(mat_get(cur, ke) is Some);
                    if in_task_cross_upto(abilities, mn, zn, ke, bi, vi) {
                        let (ai, ui) = choose|ai: int, ui: int|
                            0 <= ai < abilities.len() && 0 <= ui < abilities[ai].usages@.len() && (
                            ai < bi || (ai == bi && ui < vi)) && abilities[ai].name@ == ke.2
                                && abilities[ai].usages@[ui].name@ == ke.3;
                        if ai < bi {
                            assert(abilities[ai].name@ == abilities[bi].name@);
                            assert(false);
                        } else {
                            assert(ai == bi && ui < vi);
                            assert(abilities[bi].usages@[ui].name@
                                == abilities[bi].usages@[vi].name@);
                            assert(false);
                        }
                    } else {
                        assert(mat_get(cur, ke) == mat_get(entries0, ke));
                        assert(in_task_cross(abilities, mn, zn, ke));
                        assert(find_entry(entries0, ke) is None);
                        assert(false);
                    }
                },
                None => {},
            }
        }
        assert(cur2 == cur.push(e));
        assert(cur2.len() == entries0.len() + processed_usages(abilities, bi, vi + 1));
        assert(entries0.is_prefix_of(cur2)) by {
            assert(entries0.is_prefix_of(cur));
            assert(cur2.subrange(0, entries0.len() as int) =~= cur.subrange(
                0,
                entries0.len() as int,
            ));
        }
    }
}

/// Finishing one ability's usages is the same loop state as starting
/// the next ability.
proof fn lemma_task_fill_ability_boundary(
    entries0: Seq<ProgressEntry>,
    cur: Seq<ProgressEntry>,
    abilities: Seq<Ability>,
    mn: Seq<char>,
    zn: Seq<char>,
    bi: int,
)
    requires
        0 <= bi < abilities.len(),
        task_fill_inv(entries0, cur, abilities, mn, zn, bi, abilities[bi].usages@.len() as int),
    ensures
        task_fill_inv(entries0, cur, abilities, mn, zn, bi + 1, 0),
{
    let vl = abilities[bi].usages@.len() as int;
    assert(abilities.take(bi + 1).drop_last() =~= abilities.take(bi));
    assert(abilities.take(bi + 1).last() == abilities[bi]);
    assert(processed_usages(abilities, bi + 1, 0) == processed_usages(abilities, bi, vl));
    assert forall|k: MatrixKey|
        in_task_cross_upto(abilities, mn, zn, k, bi + 1, 0) implies in_task_cross_upto(
        abilities,
        mn,
        zn,
        k,
        bi,
        vl,
    ) by {
        let (ai, ui) = choose|ai: int, ui: int|
            0 <= ai < abilities.len() && 0 <= ui < abilities[ai].usages@.len() && (ai < bi + 1 || (
            ai == bi + 1 && ui < 0)) && abilities[ai].name@ == k.2 && abilities[ai].usages@[ui].name@
                == k.3;
        assert(ai < bi || (ai == bi && ui < vl));
    }
    assert forall|k: MatrixKey|
        in_task_cross_upto(abilities, mn, zn, k, bi, vl) implies in_task_cross_upto(
        abilities,
        mn,
        zn,
        k,
        bi + 1,
        0,
    ) by {
    }
}

/// Having filled past the last ability is having filled the whole task
/// cross product.
proof fn lemma_task_fill_complete(
    entries0: Seq<ProgressEntry>,
    cur: Seq<ProgressEntry>,
    abilities: Seq<Ability>,
    mn: Seq<char>,
    zn: Seq<char>,
)
    requires
        task_fill_inv(entries0, cur, abilities, mn, zn, abilities.len() as int, 0),
    ensures
        forall|k: MatrixKey|
            in_task_cross(abilities, mn, zn, k) ==> mat_get(cur, k) == Some(
                Target { progress: 0, target: 2 },
            ),
        forall|k: MatrixKey|
            !in_task_cross(abilities, mn, zn, k) ==> mat_get(cur, k) == mat_get(entries0, k),
        entries0.len() <= cur.len() <= entries0.len() + total_usages(abilities),
        (ability_names_distinct(abilities) && task_cross_fresh(entries0, abilities, mn, zn)) ==> (
        cur.len() == entries0.len() + total_usages(abilities) && entries0.is_prefix_of(cur)),
{
    let n = abilities.len() as int;
    assert(abilities.take(n) =~= abilities);
    assert(processed_usages(abilities, n, 0) == total_usages(abilities));
    assert forall|k: MatrixKey| in_task_cross(abilities, mn, zn, k) implies in_task_cross_upto(
        abilities,
        mn,
        zn,
        k,
        n,
        0,
    ) by {
    }
    assert forall|k: MatrixKey|
        in_task_cross_upto(abilities, mn, zn, k, n, 0) implies in_task_cross(
        abilities,
        mn,
        zn,
        k,
    ) by {
    }
}

/// How many (map, zone) pairs precede position (bi, vi) in the
/// cross-product fill order.
spec fn processed_zones(maps: Seq<GameMap>, bi: int, vi: int) -> int {
    total_zones(maps.take(bi)) + vi
}

/// Whether `k` belongs to the part of the location cross product
/// strictly before fill position (bi, vi).
spec fn in_location_cross_upto(
    maps: Seq<GameMap>,
    an: Seq<char>,
    un: Seq<char>,
    k: MatrixKey,
    bi: int,
    vi: int,
) -> bool {
    &&& k.2 == an
    &&& k.3 == un
    &&& exists|mi: int, zi: int|
        0 <= mi < maps.len() && 0 <= zi < maps[mi].zones@.len() && (mi < bi || (mi == bi && zi
            < vi)) && maps[mi].name@ == k.0 && maps[mi].zones@[zi].name@ == k.1
}

/// The fill loop's state after the pairs before (bi, vi) have been
/// inserted.
spec fn location_fill_inv(
    entries0: Seq<ProgressEntry>,
    cur: Seq<ProgressEntry>,
    maps: Seq<GameMap>,
    an: Seq<char>,
    un: Seq<char>,
    bi: int,
    vi: int,
) -> bool {
    &&& forall|k: MatrixKey|
        in_location_cross_upto(maps, an, un, k, bi, vi) ==> mat_get(cur, k) == Some(
            Target { progress: 0, target: 2 },
        )
    &&& forall|k: MatrixKey|
        !in_location_cross_upto(maps, an, un, k, bi, vi) ==> mat_get(cur, k) == mat_get(
            entries0,
            k,
        )
    &&& entries0.len() <= cur.len() <= entries0.len() + processed_zones(maps, bi, vi)
    &&& (map_names_distinct(maps) && location_cross_fresh(entries0, maps, an, un)) ==> (cur.len()
        == entries0.len() + processed_zones(maps, bi, vi) && entries0.is_prefix_of(cur))
}

/// One fill step: inserting the (bi, vi) pair's default entry advances
/// the loop state to position (bi, vi + 1).
proof fn lemma_location_fill_step(
    entries0: Seq<ProgressEntry>,
    cur: Seq<ProgressEntry>,
    cur2: Seq<ProgressEntry>,
    maps: Seq<GameMap>,
    an: Seq<char>,
    un: Seq<char>,
    bi: int,
    vi: int,
    e: ProgressEntry,
)
    requires
        0 <= bi < maps.len(),
        0 <= vi < maps[bi].zones@.len(),
        location_fill_inv(entries0, cur, maps, an, un, bi, vi),
        entry_key(e) == (maps[bi].name@, maps[bi].zones@[vi].name@, an, un),
        e.target == (Target { progress: 0, target: 2 }),
        match find_entry(cur, entry_key(e)) {
            Some(i) => cur2 == cur.update(i, e),
            None => cur2 == cur.push(e),
        },
        mat_get(cur2, entry_key(e)) == Some(e.target),
        forall|k: MatrixKey| k != entry_key(e) ==> mat_get(cur2, k) == mat_get(cur, k),
    ensures
        location_fill_inv(entries0, cur2, maps, an, un, bi, vi + 1),
{
    let ke = entry_key(e);
    lemma_find_entry(cur, ke);
    match find_entry(cur, ke) {
        Some(i) => {
            assert(cur2 == cur.update(i, e));
            assert(cur2.len() == cur.len());
        },
        None => {
            assert(cur2 == cur.push(e));
            assert(cur2.len() == cur.len() + 1);
        },
    }
    assert(in_location_cross_upto(maps, an, un, ke, bi, vi + 1));
    assert forall|k: MatrixKey|
        in_location_cross_upto(maps, an, un, k, bi, vi + 1) implies mat_get(cur2, k) == Some(
        Target { progress: 0, target: 2 },
    ) by {
        if k != ke {
            let (mi, zi) = choose|mi: int, zi: int|
                0 <= mi < maps.len() && 0 <= zi < maps[mi].zones@.len() && (mi < bi || (mi == bi
                    && zi < vi + 1)) && maps[mi].name@ == k.0 && maps[mi].zones@[zi].name@ == k.1;
            if mi == bi && zi == vi {
                assert(k == ke);
            } else {
                assert(in_location_cross_upto(maps, an, un, k, bi, vi));
            }
        }
    }
    assert forall|k: MatrixKey|
        !in_location_cross_upto(maps, an, un, k, bi, vi + 1) implies mat_get(cur2, k) == mat_get(
        entries0,
        k,
    ) by {
        assert(k != ke);
        assert(!in_location_cross_upto(maps, an, un, k, bi, vi));
    }
    if map_names_distinct(maps) && location_cross_fresh(entries0, maps, an, un) {
        assert(find_entry(cur, ke) is None) by {
            lemma_find_entry(cur, ke);
            match find_entry(cur, ke) {
                Some(i) => {
                    assert(mat_get(cur, ke) is Some);
                    if in_location_cross_upto(maps, an, un, ke, bi, vi) {
                        let (mi, zi) = choose|mi: int, zi: int|
                            0 <= mi < maps.len() && 0 <= zi < maps[mi].zones@.len() && (mi < bi || (
                            mi == bi && zi < vi)) && maps[mi].name@ == ke.0
                                && maps[mi].zones@[zi].name@ == ke.1;
                        if mi < bi {
                            assert(maps[mi].name@ == maps[bi].name@);
                            assert(false);
                        } else {
                            assert(mi == bi && zi < vi);
                            assert(maps[bi].zones@[zi].name@ == maps[bi].zones@[vi].name@);
                            assert(false);
                        }
                    } else {
                        assert(mat_get(cur, ke) == mat_get(entries0, ke));
                        assert(in_location_cross(maps, an, un, ke));
                        assert(find_entry(entries0, ke) is None);
                        assert(false);
                    }
                },
                None => {},
            }
        }
        assert(cur2 == cur.push(e));
        assert(cur2.len() == entries0.len() + processed_zones(maps, bi, vi + 1));
        assert(entries0.is_prefix_of(cur2)) by {
            assert(entries0.is_prefix_of(cur));
            assert(cur2.subrange(0, entries0.len() as int) =~= cur.subrange(
                0,
                entries0.len() as int,
            ));
        }
    }
}

/// Finishing one map's zones is the same loop state as starting the
/// next map.
proof fn lemma_location_fill_map_boundary(
    entries0: Seq<ProgressEntry>,
    cur: Seq<ProgressEntry>,
    maps: Seq<GameMap>,
    an: Seq<char>,
    un: Seq<char>,
    bi: int,
)
    requires
        0 <= bi < maps.len(),
        location_fill_inv(entries0, cur, maps, an, un, bi, maps[bi].zones@.len() as int),
    ensures
        location_fill_inv(entries0, cur, maps, an, un, bi + 1, 0),
{
    let vl = maps[bi].zones@.len() as int;
    assert(maps.take(bi + 1).drop_last() =~= maps.take(bi));
    assert(maps.take(bi + 1).last() == maps[bi]);
    assert(processed_zones(maps, bi + 1, 0) == processed_zones(maps, bi, vl));
    assert forall|k: MatrixKey|
        in_location_cross_upto(maps, an, un, k, bi + 1, 0) implies in_location_cross_upto(
        maps,
        an,
        un,
        k,
        bi,
        vl,
    ) by {
        let (mi, zi) = choose|mi: int, zi: int|
            0 <= mi < maps.len() && 0 <= zi < maps[mi].zones@.len() && (mi < bi + 1 || (mi == bi + 1
                && zi < 0)) && maps[mi].name@ == k.0 && maps[mi].zones@[zi].name@ == k.1;
        assert(mi < bi || (mi == bi && zi < vl));
    }
    assert forall|k: MatrixKey|
        in_location_cross_upto(maps, an, un, k, bi, vl) implies in_location_cross_upto(
        maps,
        an,
        un,
        k,
        bi + 1,
        0,
    ) by {
    }
}

/// Having filled past the last map is having filled the whole location
/// cross product.
proof fn lemma_location_fill_complete(
    entries0: Seq<ProgressEntry>,
    cur: Seq<ProgressEntry>,
    maps: Seq<GameMap>,
    an: Seq<char>,
    un: Seq<char>,
)
    requires
        location_fill_inv(entries0, cur, maps, an, un, maps.len() as int, 0),
    ensures
        forall|k: MatrixKey|
            in_location_cross(maps, an, un, k) ==> mat_get(cur, k) == Some(
                Target { progress: 0, target: 2 },
            ),
        forall|k: MatrixKey|
            !in_location_cross(maps, an, un, k) ==> mat_get(cur, k) == mat_get(entries0, k),
        entries0.len() <= cur.len() <= entries0.len() + total_zones(maps),
        (map_names_distinct(maps) && location_cross_fresh(entries0, maps, an, un)) ==> (cur.len()
            == entries0.len() + total_zones(maps) && entries0.is_prefix_of(cur)),
{
    let n = maps.len() as int;
    assert(maps.take(n) =~= maps);
    assert(processed_zones(maps, n, 0) == total_zones(maps));
    assert forall|k: MatrixKey| in_location_cross(maps, an, un, k) implies in_location_cross_upto(
        maps,
        an,
        un,
        k,
        n,
        0,
    ) by {
    }
    assert forall|k: MatrixKey|
        in_location_cross_upto(maps, an, un, k, n, 0) implies in_location_cross(
        maps,
        an,
        un,
        k,
    ) by {
    }
}

/// The matrix key a complete cursor resolves to: all four references
/// present, map and ability resolved against the top-level collections,
/// zone and usage against the children of the resolved parents. Any
/// absence or resolution failure yields nothing.
pub open spec fn selection_key(
    maps: Seq<GameMap>,
    abilities: Seq<Ability>,
    sel: SelectionView,
) -> Option<MatrixKey> {
    match (sel.map, sel.zone, sel.ability, sel.usage) {
        (Some(ms), Some(zs), Some(asl), Some(us)) => {
            match (resolved_index(ms, names_of(maps)), resolved_index(asl, names_of(abilities))) {
                (Some(mi), Some(ai)) => {
                    match (resolved_index(zs, names_of(maps[mi].zones@)), resolved_index(
                        us,
                        names_of(abilities[ai].usages@),
                    )) {
                        (Some(zi), Some(ui)) => Some(
                            (
                                maps[mi].name@,
                                maps[mi].zones@[zi].name@,
                                abilities[ai].name@,
                                abilities[ai].usages@[ui].name@,
                            ),
                        ),
                        _ => None,
                    }
                },
                _ => None,
            }
        },
        _ => None,
    }
}

} // verus!
