//! References into ordered collections, by stable name or by position,
//! and the four-axis cursor built from them.

use vstd::prelude::*;

use crate::model::{Ability, GameMap, Nameable};

verus! {

/// A reference to one element of an ordered collection: either a
/// position, or a name to be looked up at resolution time. Neither form
/// is inherently valid; validity is decided against a collection when
/// the reference is resolved.
pub enum Selector {
    Index(usize),
    Name(String),
}

/// The mathematical shape of a `Selector`: position as an unbounded
/// integer, name as a character sequence.
pub enum SelectorView {
    Index(int),
    Name(Seq<char>),
}

impl View for Selector {
    type V = SelectorView;

    open spec fn view(&self) -> SelectorView {
        match self {
            Selector::Index(i) => SelectorView::Index(*i as int),
            Selector::Name(n) => SelectorView::Name(n@),
        }
    }
}

/// The position of the first element of `names` equal to `n`, if any.
pub open spec fn first_name_index(names: Seq<Seq<char>>, n: Seq<char>) -> Option<int>
    decreases names.len(),
{
    if names.len() == 0 {
        None
    } else if names[0] == n {
        Some(0int)
    } else {
        match first_name_index(names.drop_first(), n) {
            Some(j) => Some(j + 1),
            None => None,
        }
    }
}

/// What a selector resolves to against a collection with the given
/// names: an in-bounds index stands for itself, a name stands for the
/// first position carrying it, and anything else resolves to nothing.
pub open spec fn resolved_index(sel: SelectorView, names: Seq<Seq<char>>) -> Option<int> {
    match sel {
        SelectorView::Index(i) => if 0 <= i < names.len() {
            Some(i)
        } else {
            None
        },
        SelectorView::Name(n) => first_name_index(names, n),
    }
}

/// `first_name_index` finds the first occurrence: the returned position
/// carries the name, nothing before it does, and a miss means the name
/// is absent altogether.
pub proof fn lemma_first_name_index(names: Seq<Seq<char>>, n: Seq<char>)
    ensures
        match first_name_index(names, n) {
            Some(j) => 0 <= j < names.len() && names[j] == n && (forall|k: int|
                0 <= k < j ==> names[k] != n),
            None => forall|k: int| 0 <= k < names.len() ==> names[k] != n,
        },
    decreases names.len(),
{
    if names.len() > 0 && names[0] != n {
        let rest = names.drop_first();
        lemma_first_name_index(rest, n);
        match first_name_index(rest, n) {
            Some(j) => {
                assert(rest[j] == names[j + 1]);
                assert forall|k: int| 0 <= k < j + 1 implies names[k] != n by {
                    if k > 0 {
                        assert(rest[k - 1] == names[k]);
                    }
                }
            },
            None => {
                assert forall|k: int| 0 <= k < names.len() implies names[k] != n by {
                    if k > 0 {
                        assert(rest[k - 1] == names[k]);
                    }
                }
            },
        }
    }
}

/// A find that stops at the first hit determines `first_name_index`.
pub proof fn lemma_first_name_index_is(names: Seq<Seq<char>>, n: Seq<char>, j: int)
    requires
        0 <= j < names.len(),
        names[j] == n,
        forall|k: int| 0 <= k < j ==> names[k] != n,
    ensures
        first_name_index(names, n) == Some(j),
{
    lemma_first_name_index(names, n);
}

/// The names of the elements of a collection, in order.
pub open spec fn names_of<S: Nameable>(vs: Seq<S>) -> Seq<Seq<char>> {
    vs.map(|i: int, s: S| s.spec_name())
}

/// Resolving, then locking to the resolved position.
pub open spec fn sel_to_index(sel: SelectorView, names: Seq<Seq<char>>) -> Option<SelectorView> {
    match resolved_index(sel, names) {
        Some(j) => Some(SelectorView::Index(j)),
        None => None,
    }
}

/// Resolving, then taking the resolved element's name.
pub open spec fn sel_to_name(sel: SelectorView, names: Seq<Seq<char>>) -> Option<SelectorView> {
    match resolved_index(sel, names) {
        Some(j) => Some(SelectorView::Name(names[j])),
        None => None,
    }
}

impl Selector {
    /// The position this selector resolves to in `vs`, if any: an index
    /// must be in bounds, a name is looked up front to back.
    pub fn get_selected_idx<S: Nameable>(&self, vs: &Vec<S>) -> (r: Option<usize>)
        ensures
            match r {
                Some(i) => resolved_index(self@, names_of(vs@)) == Some(i as int) && i
                    < vs@.len(),
                None => resolved_index(self@, names_of(vs@)) is None,
            },
    {
        match self {
            Selector::Name(name) => {
                let ghost names = names_of(vs@);
                let mut i: usize = 0;
                while i < vs.len()
                    invariant
                        0 <= i <= vs@.len(),
                        self@ == SelectorView::Name(name@),
                        names == names_of(vs@),
                        names.len() == vs@.len(),
                        forall|k: int| 0 <= k < i ==> names[k] != name@,
                    decreases vs@.len() - i,
                {
                    assert(names[i as int] == vs@[i as int].spec_name());
                    if *vs[i].name() == *name {
                        proof {
                            lemma_first_name_index_is(names, name@, i as int);
                        }
                        return Some(i);
                    }
                    i += 1;
                }
                proof {
                    lemma_first_name_index(names, name@);
                }
                None
            },
            Selector::Index(idx) => {
                if *idx < vs.len() {
                    Some(*idx)
                } else {
                    None
                }
            },
        }
    }

    /// The element this selector resolves to in `vs`, if any.
    pub fn get_selected<'a, S: Nameable>(&self, vs: &'a Vec<S>) -> (r: Option<&'a S>)
        ensures
            match r {
                Some(s) => {
                    &&& resolved_index(self@, names_of(vs@)) matches Some(j)
                    &&& *s == vs@[resolved_index(self@, names_of(vs@))->Some_0]
                },
                None => resolved_index(self@, names_of(vs@)) is None,
            },
    {
        match self.get_selected_idx(vs) {
            Some(i) => Some(&vs[i]),
            None => None,
        }
    }

    /// The element this selector resolves to in `vs`, borrowed for
    /// mutation: afterwards the collection holds, at that position
    /// alone, whatever the caller wrote through the borrow.
    pub fn get_selected_mut<'a, S: Nameable>(&self, vs: &'a mut Vec<S>) -> (r: Option<&'a mut S>)
        ensures
            match r {
                Some(s) => {
                    let j = resolved_index(self@, names_of(old(vs)@))->Some_0;
                    &&& resolved_index(self@, names_of(old(vs)@)) is Some
                    &&& *s == old(vs)@[j]
                    &&& final(vs)@ == old(vs)@.update(j, *final(s))
                },
                None => {
                    &&& resolved_index(self@, names_of(old(vs)@)) is None
                    &&& final(vs)@ == old(vs)@
                },
            },
    {
        match self.get_selected_idx(vs) {
            Some(i) => Some(&mut vs[i]),
            None => None,
        }
    }

    /// Locks this reference to its current position, for index
    /// arithmetic; nothing if it does not resolve.
    pub fn to_index<S: Nameable>(&self, vs: &Vec<S>) -> (r: Option<Selector>)
        ensures
            match r {
                Some(s) => {
                    &&& Some(s@) == sel_to_index(self@, names_of(vs@))
                    &&& s@ matches SelectorView::Index(j) && 0 <= j < vs@.len()
                },
                None => sel_to_index(self@, names_of(vs@)) is None,
            },
    {
        proof {
            match self@ {
                SelectorView::Name(n) => lemma_first_name_index(names_of(vs@), n),
                _ => (),
            }
        }
        match self.get_selected_idx(vs) {
            Some(i) => Some(Selector::Index(i)),
            None => None,
        }
    }

    /// Makes this reference durable across position shifts by replacing
    /// it with the resolved element's name; nothing if it does not
    /// resolve.
    pub fn to_name<S: Nameable>(&self, vs: &Vec<S>) -> (r: Option<Selector>)
        ensures
            match r {
                Some(s) => Some(s@) == sel_to_name(self@, names_of(vs@)),
                None => sel_to_name(self@, names_of(vs@)) is None,
            },
    {
        proof {
            match self@ {
                SelectorView::Name(n) => lemma_first_name_index(names_of(vs@), n),
                _ => (),
            }
        }
        match self.get_selected_idx(vs) {
            Some(i) => Some(Selector::Name(vs[i].name().clone())),
            None => None,
        }
    }
}

impl Default for Selector {
    /// The first position.
    fn default() -> (r: Selector)
        ensures
            r@ == SelectorView::Index(0),
    {
        Selector::Index(0)
    }
}

/// One axis of a cursor: a parent reference (map or ability) and a
/// child reference (zone or usage) interpreted relative to the parent.
pub struct AxisPair {
    pub parent: Option<SelectorView>,
    pub child: Option<SelectorView>,
}

/// The name structure one axis navigates over: each parent's name and
/// the names of its children, in display order.
pub struct FamilyView {
    pub name: Seq<char>,
    pub children: Seq<Seq<char>>,
}

/// The parent names of a family sequence, in order.
pub open spec fn fam_names(fam: Seq<FamilyView>) -> Seq<Seq<char>> {
    fam.map(|i: int, f: FamilyView| f.name)
}

/// The name structure of the map axis.
pub open spec fn map_families(maps: Seq<GameMap>) -> Seq<FamilyView> {
    maps.map(|i: int, m: GameMap| FamilyView { name: m.name@, children: names_of(m.zones@) })
}

/// The name structure of the ability axis.
pub open spec fn ability_families(abilities: Seq<Ability>) -> Seq<FamilyView> {
    abilities.map(
        |i: int, a: Ability| FamilyView { name: a.name@, children: names_of(a.usages@) },
    )
}

/// Index-form snapshot of one axis: the child is resolved against the
/// children of the resolved parent, and is dropped whenever the parent
/// is absent or does not resolve.
pub open spec fn pair_absolute(p: AxisPair, fam: Seq<FamilyView>) -> AxisPair {
    match p.parent {
        None => AxisPair { parent: None, child: None },
        Some(ps) => AxisPair {
            parent: sel_to_index(ps, fam_names(fam)),
            child: match (p.child, resolved_index(ps, fam_names(fam))) {
                (Some(cs), Some(mi)) => sel_to_index(cs, fam[mi].children),
                _ => None,
            },
        },
    }
}

/// Name-form snapshot of one axis, symmetric to `pair_absolute`.
pub open spec fn pair_relative(p: AxisPair, fam: Seq<FamilyView>) -> AxisPair {
    match p.parent {
        None => AxisPair { parent: None, child: None },
        Some(ps) => AxisPair {
            parent: sel_to_name(ps, fam_names(fam)),
            child: match (p.child, resolved_index(ps, fam_names(fam))) {
                (Some(cs), Some(mi)) => sel_to_name(cs, fam[mi].children),
                _ => None,
            },
        },
    }
}

/// The four-axis cursor: one optional reference per axis level. The
/// zone reference is meaningful only relative to the map the map
/// reference resolves to, and the usage reference only relative to the
/// resolved ability.
pub struct Selection {
    pub map: Option<Selector>,
    pub zone: Option<Selector>,
    pub ability: Option<Selector>,
    pub usage: Option<Selector>,
}

/// The mathematical shape of a cursor.
pub struct SelectionView {
    pub map: Option<SelectorView>,
    pub zone: Option<SelectorView>,
    pub ability: Option<SelectorView>,
    pub usage: Option<SelectorView>,
}

/// The view of an optional selector.
pub open spec fn opt_view(o: Option<Selector>) -> Option<SelectorView> {
    match o {
        Some(s) => Some(s@),
        None => None,
    }
}

impl View for Selection {
    type V = SelectionView;

    open spec fn view(&self) -> SelectionView {
        SelectionView {
            map: opt_view(self.map),
            zone: opt_view(self.zone),
            ability: opt_view(self.ability),
            usage: opt_view(self.usage),
        }
    }
}

impl SelectionView {
    /// The location axis of this cursor: map and zone.
    pub open spec fn location(self) -> AxisPair {
        AxisPair { parent: self.map, child: self.zone }
    }

    /// The task axis of this cursor: ability and usage.
    pub open spec fn task(self) -> AxisPair {
        AxisPair { parent: self.ability, child: self.usage }
    }
}

impl Selection {
    /// An empty cursor: nothing selected on any axis.
    pub fn new() -> (r: Selection)
        ensures
            r@ == (SelectionView { map: None, zone: None, ability: None, usage: None }),
    {
        Selection { map: None, zone: None, ability: None, usage: None }
    }

    /// An index-form snapshot of this cursor, child axes scoped to the
    /// currently resolved parents; used for position arithmetic and for
    /// deciding cell highlight. Does not mutate the cursor.
    pub fn absolute(&self, maps: &Vec<GameMap>, abilities: &Vec<Ability>) -> (r: Selection)
        ensures
            r@.location() == pair_absolute(self@.location(), map_families(maps@)),
            r@.task() == pair_absolute(self@.task(), ability_families(abilities@)),
    {
        proof {
            assert(fam_names(map_families(maps@)) =~= names_of(maps@));
            assert(fam_names(ability_families(abilities@)) =~= names_of(abilities@));
        }
        let mut nmap: Option<Selector> = None;
        let mut nzone: Option<Selector> = None;
        let mut nability: Option<Selector> = None;
        let mut nusage: Option<Selector> = None;
        if let Some(map) = &self.map {
            if let Some(mi) = map.get_selected_idx(maps) {
                proof {
                    assert(map_families(maps@)[mi as int].children == names_of(
                        maps@[mi as int].zones@,
                    ));
                }
                if let Some(zone) = &self.zone {
                    nzone = zone.to_index(&maps[mi].zones);
                }
            }
            nmap = map.to_index(maps);
        }
        if let Some(ability) = &self.ability {
            if let Some(ai) = ability.get_selected_idx(abilities) {
                proof {
                    assert(ability_families(abilities@)[ai as int].children == names_of(
                        abilities@[ai as int].usages@,
                    ));
                }
                if let Some(usage) = &self.usage {
                    nusage = usage.to_index(&abilities[ai].usages);
                }
            }
            nability = ability.to_index(abilities);
        }
        Selection { map: nmap, zone: nzone, ability: nability, usage: nusage }
    }

    /// A name-form snapshot of this cursor, durable across reordering
    /// of the backing collections; symmetric to `absolute`.
    pub fn relative(&self, maps: &Vec<GameMap>, abilities: &Vec<Ability>) -> (r: Selection)
        ensures
            r@.location() == pair_relative(self@.location(), map_families(maps@)),
            r@.task() == pair_relative(self@.task(), ability_families(abilities@)),
    {
        proof {
            assert(fam_names(map_families(maps@)) =~= names_of(maps@));
            assert(fam_names(ability_families(abilities@)) =~= names_of(abilities@));
        }
        let mut nmap: Option<Selector> = None;
        let mut nzone: Option<Selector> = None;
        let mut nability: Option<Selector> = None;
        let mut nusage: Option<Selector> = None;
        if let Some(map) = &self.map {
            if let Some(mi) = map.get_selected_idx(maps) {
                proof {
                    assert(map_families(maps@)[mi as int].children == names_of(
                        maps@[mi as int].zones@,
                    ));
                }
                if let Some(zone) = &self.zone {
                    nzone = zone.to_name(&maps[mi].zones);
                }
            }
            nmap = map.to_name(maps);
        }
        if let Some(ability) = &self.ability {
            if let Some(ai) = ability.get_selected_idx(abilities) {
                proof {
                    assert(ability_families(abilities@)[ai as int].children == names_of(
                        abilities@[ai as int].usages@,
                    ));
                }
                if let Some(usage) = &self.usage {
                    nusage = usage.to_name(&abilities[ai].usages);
                }
            }
            nability = ability.to_name(abilities);
        }
        Selection { map: nmap, zone: nzone, ability: nability, usage: nusage }
    }
}

impl Default for Selection {
    /// The first-index cursor: every axis at position zero.
    fn default() -> (r: Selection)
        ensures
            r@ == (SelectionView {
                map: Some(SelectorView::Index(0)),
                zone: Some(SelectorView::Index(0)),
                ability: Some(SelectorView::Index(0)),
                usage: Some(SelectorView::Index(0)),
            }),
    {
        Selection {
            map: Some(Selector::default()),
            zone: Some(Selector::default()),
            ability: Some(Selector::default()),
            usage: Some(Selector::default()),
        }
    }
}

/// Navigation-time normalization of one axis, as performed at the start
/// of every directional move: the parent is locked to index form (or
/// dropped if it does not resolve), and the child is then locked
/// against the resolved parent's children. A child is left untouched
/// when the parent is absent or does not resolve.
pub open spec fn pair_normalize(p: AxisPair, fam: Seq<FamilyView>) -> AxisPair {
    match p.parent {
        None => p,
        Some(ps) => match resolved_index(ps, fam_names(fam)) {
            None => AxisPair { parent: None, child: p.child },
            Some(mi) => AxisPair {
                parent: Some(SelectorView::Index(mi)),
                child: match p.child {
                    None => None,
                    Some(cs) => sel_to_index(cs, fam[mi].children),
                },
            },
        },
    }
}

/// One forward step over a normalized axis: the child advances within
/// the parent; past the last child the parent wraps to the next family
/// (modulo the family count) and the child restarts at zero. Anything
/// not fully resolved in index form is left as it is.
pub open spec fn pair_step_next(p: AxisPair, fam: Seq<FamilyView>) -> AxisPair {
    match (p.parent, p.child) {
        (Some(SelectorView::Index(mi)), Some(SelectorView::Index(ci))) => if 0 <= mi < fam.len()
            && 0 <= ci < fam[mi].children.len() {
            if ci + 1 < fam[mi].children.len() {
                AxisPair {
                    parent: Some(SelectorView::Index(mi)),
                    child: Some(SelectorView::Index(ci + 1)),
                }
            } else {
                AxisPair {
                    parent: Some(SelectorView::Index((mi + 1) % (fam.len() as int))),
                    child: Some(SelectorView::Index(0)),
                }
            }
        } else {
            p
        },
        _ => p,
    }
}

/// One backward step over a normalized axis: the child retreats within
/// the parent; past child zero the parent wraps to the previous family
/// (modulo the family count) and the child restarts at that family's
/// last position. When that family has no child to land on, the step
/// softly does nothing, like every other unresolvable move.
pub open spec fn pair_step_prev(p: AxisPair, fam: Seq<FamilyView>) -> AxisPair {
    match (p.parent, p.child) {
        (Some(SelectorView::Index(mi)), Some(SelectorView::Index(ci))) => if 0 <= mi < fam.len()
            && 0 <= ci < fam[mi].children.len() {
            if ci == 0 {
                let pm = if mi == 0 {
                    fam.len() - 1
                } else {
                    mi - 1
                };
                if fam[pm].children.len() == 0 {
                    p
                } else {
                    AxisPair {
                        parent: Some(SelectorView::Index(pm)),
                        child: Some(SelectorView::Index(fam[pm].children.len() - 1)),
                    }
                }
            } else {
                AxisPair {
                    parent: Some(SelectorView::Index(mi)),
                    child: Some(SelectorView::Index(ci - 1)),
                }
            }
        } else {
            p
        },
        _ => p,
    }
}

impl Selection {
    /// Moves the location axis one zone forward, wrapping from the last
    /// zone of a map to the first zone of the next map. A no-op when the
    /// axis does not resolve; the task axis is never touched.
    pub fn next_zone(&mut self, maps: &Vec<GameMap>)
        ensures
            final(self)@.location() == pair_step_next(
                pair_normalize(old(self)@.location(), map_families(maps@)),
                map_families(maps@),
            ),
            final(self)@.ability == old(self)@.ability,
            final(self)@.usage == old(self)@.usage,
    {
        proof {
            assert(fam_names(map_families(maps@)) =~= names_of(maps@));
        }
        if let Some(ms) = &self.map {
            let nm = ms.to_index(maps);
            self.map = nm;
            if let Some(Selector::Index(mi)) = &self.map {
                let mi: usize = *mi;
                proof {
                    assert(map_families(maps@)[mi as int].children == names_of(
                        maps@[mi as int].zones@,
                    ));
                }
                if let Some(zs) = &self.zone {
                    let nz = zs.to_index(&maps[mi].zones);
                    self.zone = nz;
                }
            }
        }
        if let (Some(Selector::Index(mi0)), Some(Selector::Index(zi0))) = (&self.map, &self.zone) {
            let mi: usize = *mi0;
            let zi: usize = *zi0;
            let n = maps.len();
            assert(mi < n);
            if zi < maps[mi].zones.len() - 1 {
                self.zone = Some(Selector::Index(zi + 1));
            } else {
                self.map = Some(Selector::Index((mi + 1) % n));
                self.zone = Some(Selector::Index(0));
            }
        }
    }

    /// Moves the location axis one zone backward, wrapping from zone
    /// zero to the last zone of the previous map. A no-op when the axis
    /// does not resolve, and also when the previous map has no zone to
    /// land on: no move ever raises.
    pub fn prev_zone(&mut self, maps: &Vec<GameMap>)
        ensures
            final(self)@.location() == pair_step_prev(
                pair_normalize(old(self)@.location(), map_families(maps@)),
                map_families(maps@),
            ),
            final(self)@.ability == old(self)@.ability,
            final(self)@.usage == old(self)@.usage,
    {
        proof {
            assert(fam_names(map_families(maps@)) =~= names_of(maps@));
        }
        if let Some(ms) = &self.map {
            let nm = ms.to_index(maps);
            self.map = nm;
            if let Some(Selector::Index(mi)) = &self.map {
                let mi: usize = *mi;
                proof {
                    assert(map_families(maps@)[mi as int].children == names_of(
                        maps@[mi as int].zones@,
                    ));
                }
                if let Some(zs) = &self.zone {
                    let nz = zs.to_index(&maps[mi].zones);
                    self.zone = nz;
                }
            }
        }
        if let (Some(Selector::Index(mi0)), Some(Selector::Index(zi0))) = (&self.map, &self.zone) {
            let mi: usize = *mi0;
            let zi: usize = *zi0;
            if zi == 0 {
                let pm: usize = if mi == 0 {
                    maps.len() - 1
                } else {
                    mi - 1
                };
                let pz = maps[pm].zones.len();
                if pz > 0 {
                    self.zone = Some(Selector::Index(pz - 1));
                    self.map = Some(Selector::Index(pm));
                }
            } else {
                self.zone = Some(Selector::Index(zi - 1));
            }
        }
    }

    /// Moves the task axis one usage forward, wrapping from the last
    /// usage of an ability to the first usage of the next ability;
    /// symmetric to `next_zone` and independent of the location axis.
    pub fn next_usage(&mut self, abilities: &Vec<Ability>)
        ensures
            final(self)@.task() == pair_step_next(
                pair_normalize(old(self)@.task(), ability_families(abilities@)),
                ability_families(abilities@),
            ),
            final(self)@.map == old(self)@.map,
            final(self)@.zone == old(self)@.zone,
    {
        proof {
            assert(fam_names(ability_families(abilities@)) =~= names_of(abilities@));
        }
        if let Some(asel) = &self.ability {
            let na = asel.to_index(abilities);
            self.ability = na;
            if let Some(Selector::Index(ai)) = &self.ability {
                let ai: usize = *ai;
                proof {
                    assert(ability_families(abilities@)[ai as int].children == names_of(
                        abilities@[ai as int].usages@,
                    ));
                }
                if let Some(us) = &self.usage {
                    let nu = us.to_index(&abilities[ai].usages);
                    self.usage = nu;
                }
            }
        }
        if let (Some(Selector::Index(ai0)), Some(Selector::Index(ui0))) = (
            &self.ability,
            &self.usage,
        ) {
            let ai: usize = *ai0;
            let ui: usize = *ui0;
            let n = abilities.len();
            assert(ai < n);
            if ui < abilities[ai].usages.len() - 1 {
                self.usage = Some(Selector::Index(ui + 1));
            } else {
                self.ability = Some(Selector::Index((ai + 1) % n));
                self.usage = Some(Selector::Index(0));
            }
        }
    }

    /// Moves the task axis one usage backward, wrapping from usage zero
    /// to the last usage of the previous ability; symmetric to
    /// `prev_zone`, including the soft no-op when the previous ability
    /// has no usage to land on.
    pub fn prev_usage(&mut self, abilities: &Vec<Ability>)
        ensures
            final(self)@.task() == pair_step_prev(
                pair_normalize(old(self)@.task(), ability_families(abilities@)),
                ability_families(abilities@),
            ),
            final(self)@.map == old(self)@.map,
            final(self)@.zone == old(self)@.zone,
    {
        proof {
            assert(fam_names(ability_families(abilities@)) =~= names_of(abilities@));
        }
        if let Some(asel) = &self.ability {
            let na = asel.to_index(abilities);
            self.ability = na;
            if let Some(Selector::Index(ai)) = &self.ability {
                let ai: usize = *ai;
                proof {
                    assert(ability_families(abilities@)[ai as int].children == names_of(
                        abilities@[ai as int].usages@,
                    ));
                }
                if let Some(us) = &self.usage {
                    let nu = us.to_index(&abilities[ai].usages);
                    self.usage = nu;
                }
            }
        }
        if let (Some(Selector::Index(ai0)), Some(Selector::Index(ui0))) = (
            &self.ability,
            &self.usage,
        ) {
            let ai: usize = *ai0;
            let ui: usize = *ui0;
            if ui == 0 {
                let pa: usize = if ai == 0 {
                    abilities.len() - 1
                } else {
                    ai - 1
                };
                let pu = abilities[pa].usages.len();
                if pu > 0 {
                    self.usage = Some(Selector::Index(pu - 1));
                    self.ability = Some(Selector::Index(pa));
                }
            } else {
                self.usage = Some(Selector::Index(ui - 1));
            }
        }
    }
}

impl PartialEq for Selector {
    /// Two references are equal only in the same representation: an
    /// index and a name pointing at the same element are not equal
    /// until normalized to one form.
    fn eq(&self, other: &Selector) -> (r: bool) {
        match (self, other) {
            (Selector::Index(a), Selector::Index(b)) => a == b,
            (Selector::Name(a), Selector::Name(b)) => *a == *b,
            _ => false,
        }
    }
}

impl Eq for Selector {

}

impl vstd::std_specs::cmp::PartialEqSpecImpl for Selector {
    open spec fn obeys_eq_spec() -> bool {
        true
    }

    open spec fn eq_spec(&self, other: &Selector) -> bool {
        self@ == other@
    }
}

/// Value equality of two optional selectors.
fn opt_selector_eq(a: &Option<Selector>, b: &Option<Selector>) -> (r: bool)
    ensures
        r == (opt_view(*a) == opt_view(*b)),
{
    match (a, b) {
        (Some(x), Some(y)) => *x == *y,
        (None, None) => true,
        _ => false,
    }
}

impl PartialEq for Selection {
    /// Cursors are equal only when all four references are equal by
    /// value, representation included.
    fn eq(&self, other: &Selection) -> (r: bool) {
        opt_selector_eq(&self.map, &other.map) && opt_selector_eq(&self.zone, &other.zone)
            && opt_selector_eq(&self.ability, &other.ability) && opt_selector_eq(
            &self.usage,
            &other.usage,
        )
    }
}

impl Eq for Selection {

}

impl vstd::std_specs::cmp::PartialEqSpecImpl for Selection {
    open spec fn obeys_eq_spec() -> bool {
        true
    }

    open spec fn eq_spec(&self, other: &Selection) -> bool {
        self@ == other@
    }
}

/// A decimal digit.
pub open spec fn is_digit_char(c: char) -> bool {
    48 <= c as int <= 57
}

/// The value of a decimal digit.
pub open spec fn digit_val(c: char) -> int {
    c as int - 48
}

/// Whether every character is a decimal digit.
pub open spec fn all_digits(cs: Seq<char>) -> bool {
    forall|i: int| 0 <= i < cs.len() ==> is_digit_char(cs[i])
}

/// The number a digit string denotes, most significant digit first.
pub open spec fn digits_val(cs: Seq<char>) -> int
    decreases cs.len(),
{
    if cs.len() == 0 {
        0
    } else {
        10 * digits_val(cs.drop_last()) + digit_val(cs.last())
    }
}

/// The digits of a candidate number: a single leading plus sign is
/// tolerated, as in the standard unsigned parse.
pub open spec fn index_digits(cs: Seq<char>) -> Seq<char> {
    if cs.len() > 0 && cs[0] == '+' {
        cs.drop_first()
    } else {
        cs
    }
}

/// Whether free-form text reads as a position: at least one digit,
/// nothing but digits after the optional sign, and a value a position
/// can hold.
pub open spec fn parses_as_index(cs: Seq<char>) -> bool {
    &&& index_digits(cs).len() > 0
    &&& all_digits(index_digits(cs))
    &&& digits_val(index_digits(cs)) <= usize::MAX
}

/// A digit string denotes a non-negative number.
pub proof fn lemma_digits_val_nonneg(cs: Seq<char>)
    requires
        all_digits(cs),
    ensures
        digits_val(cs) >= 0,
    decreases cs.len(),
{
    if cs.len() > 0 {
        lemma_digits_val_nonneg(cs.drop_last());
    }
}

/// Extending a digit string never shrinks its value.
pub proof fn lemma_digits_val_prefix(cs: Seq<char>, k: int)
    requires
        all_digits(cs),
        0 <= k <= cs.len(),
    ensures
        digits_val(cs.take(k)) <= digits_val(cs),
    decreases cs.len() - k,
{
    if k < cs.len() {
        lemma_digits_val_prefix(cs, k + 1);
        assert(cs.take(k + 1).drop_last() =~= cs.take(k));
        assert(all_digits(cs.take(k)));
        lemma_digits_val_nonneg(cs.take(k));
        assert(digits_val(cs.take(k + 1)) == 10 * digits_val(cs.take(k)) + digit_val(
            cs.take(k + 1).last(),
        ));
    } else {
        assert(cs.take(k) =~= cs);
    }
}

/// Reads text as an unsigned position exactly as the selector parse
/// rule demands; nothing when the text is not a number or the number
/// does not fit.
fn parse_unsigned(s: &String) -> (r: Option<usize>)
    ensures
        match r {
            Some(v) => parses_as_index(s@) && v == digits_val(index_digits(s@)),
            None => !parses_as_index(s@),
        },
{
    let slice = s.as_str();
    let n = slice.unicode_len();
    let start: usize = if n > 0 && slice.get_char(0) == '+' {
        1
    } else {
        0
    };
    let ghost ds = index_digits(s@);
    proof {
        assert(ds =~= s@.subrange(start as int, n as int));
    }
    if start >= n {
        return None;
    }
    let mut i: usize = start;
    let mut val: usize = 0;
    while i < n
        invariant
            start <= i <= n,
            n == s@.len(),
            start <= 1,
            ds == index_digits(s@),
            ds =~= s@.subrange(start as int, n as int),
            slice@ == s@,
            all_digits(s@.subrange(start as int, i as int)),
            val == digits_val(s@.subrange(start as int, i as int)),
        decreases n - i,
    {
        let c = slice.get_char(i);
        let code = c as u32;
        if code < 48 || code > 57 {
            assert(ds[i - start] == s@[i as int]);
            return None;
        }
        let d = (code - 48) as usize;
        let ghost prefix = s@.subrange(start as int, i as int);
        let ghost prefix1 = s@.subrange(start as int, i as int + 1);
        proof {
            assert(prefix1.drop_last() =~= prefix);
            assert(prefix1.last() == s@[i as int]);
        }
        let next = match val.checked_mul(10) {
            Some(v10) => v10.checked_add(d),
            None => None,
        };
        match next {
            Some(v) => {
                val = v;
                i += 1;
            },
            None => {
                proof {
                    assert(digits_val(prefix1) > usize::MAX);
                    if all_digits(ds) {
                        lemma_digits_val_prefix(ds, i + 1 - start);
                        assert(ds.take(i + 1 - start) =~= prefix1);
                    }
                }
                return None;
            },
        }
    }
    proof {
        assert(s@.subrange(start as int, i as int) =~= ds);
    }
    Some(val)
}

/// The selector free-form text denotes: integer-looking text is a
/// position, anything else is a name.
pub open spec fn selector_from_text(s: String) -> Selector {
    if parses_as_index(s@) {
        Selector::Index(digits_val(index_digits(s@)) as usize)
    } else {
        Selector::Name(s)
    }
}

impl From<String> for Selector {
    /// Parses free-form user text: an unsigned integer becomes an index
    /// reference, anything else a name reference.
    fn from(s: String) -> (r: Selector) {
        match parse_unsigned(&s) {
            Some(v) => Selector::Index(v),
            None => Selector::Name(s),
        }
    }
}

impl vstd::std_specs::convert::FromSpecImpl<String> for Selector {
    open spec fn obeys_from_spec() -> bool {
        true
    }

    open spec fn from_spec(s: String) -> Selector {
        selector_from_text(s)
    }
}

} // verus!
