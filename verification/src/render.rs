//! The read side the display layer consumes: a classification of one
//! counter into display bands, and the full grid of resolved cells with
//! their cursor-highlight flags. Drawing itself stays with the caller.

use vstd::prelude::*;

use crate::model::{mat_get, MatrixKey, ProgressStore, Target};
use crate::selection::{
    ability_families, map_families, names_of, pair_absolute, resolved_index, AxisPair, Selection,
    SelectionView, Selector, SelectorView,
};

verus! {

/// A shared display capability: anything that can draw itself given a
/// selection flag. The display layer implements it for its own cell and
/// table types.
pub trait Renderable<T, S> {
    fn render(&self, selected: S) -> T;
}

/// The display band of one counter, in rising order of completion: no
/// goal set; progress within a quarter of the goal in magnitude; under
/// the goal; at or past it.
#[derive(Clone, Copy, PartialEq, Eq, Structural, Debug)]
pub enum TargetGrade {
    Unset,
    Low,
    Partial,
    Met,
}

/// The magnitude of a counter value.
pub open spec fn abs_val(p: int) -> int {
    if p >= 0 {
        p
    } else {
        -p
    }
}

impl Target {
    /// The display band of this counter.
    pub open spec fn spec_grade(self) -> TargetGrade {
        if self.target == 0 {
            TargetGrade::Unset
        } else if 4 * abs_val(self.progress as int) <= self.target {
            TargetGrade::Low
        } else if self.progress < self.target {
            TargetGrade::Partial
        } else {
            TargetGrade::Met
        }
    }

    /// Classifies this counter for display.
    pub fn grade(&self) -> (g: TargetGrade)
        ensures
            g == self.spec_grade(),
    {
        if self.target == 0 {
            return TargetGrade::Unset;
        }
        let p = self.progress as i64;
        let pa: i64 = if p < 0 {
            -p
        } else {
            p
        };
        if 4 * pa <= self.target as i64 {
            TargetGrade::Low
        } else if self.progress < self.target {
            TargetGrade::Partial
        } else {
            TargetGrade::Met
        }
    }
}

/// One cell of the display grid: the counter resolved for its
/// coordinate, or nothing where the matrix has no entry, and whether
/// the cursor rests on the cell.
pub struct CellInfo {
    pub target: Option<Target>,
    pub selected: bool,
}

/// The matrix key of the cell at the given coordinates.
pub open spec fn cell_key(store: ProgressStore, mi: int, zi: int, ai: int, ui: int) -> MatrixKey {
    (
        store.maps@[mi].name@,
        store.maps@[mi].zones@[zi].name@,
        store.abilities@[ai].name@,
        store.abilities@[ai].usages@[ui].name@,
    )
}

/// Whether the cursor, normalized to index form, rests on the cell at
/// the given coordinates; representation matters, so the comparison is
/// made after normalizing both sides to indices.
pub open spec fn cell_selected(
    cursor: SelectionView,
    store: ProgressStore,
    mi: int,
    zi: int,
    ai: int,
    ui: int,
) -> bool {
    &&& pair_absolute(cursor.location(), map_families(store.maps@)) == (AxisPair {
        parent: Some(SelectorView::Index(mi)),
        child: Some(SelectorView::Index(zi)),
    })
    &&& pair_absolute(cursor.task(), ability_families(store.abilities@)) == (AxisPair {
        parent: Some(SelectorView::Index(ai)),
        child: Some(SelectorView::Index(ui)),
    })
}

/// The cell at the given coordinates, correctly resolved and flagged.
pub open spec fn cell_ok(
    c: CellInfo,
    store: ProgressStore,
    cursor: SelectionView,
    mi: int,
    zi: int,
    ai: int,
    ui: int,
) -> bool {
    &&& c.target == mat_get(store.progress@, cell_key(store, mi, zi, ai, ui))
    &&& c.selected == cell_selected(cursor, store, mi, zi, ai, ui)
}

/// A full run of usage cells for one (map, zone, ability) coordinate.
pub open spec fn usage_cells_ok(
    ru: Seq<CellInfo>,
    store: ProgressStore,
    cursor: SelectionView,
    mi: int,
    zi: int,
    ai: int,
) -> bool {
    &&& ru.len() == store.abilities@[ai].usages@.len()
    &&& forall|ui: int| 0 <= ui < ru.len() ==> cell_ok(#[trigger] ru[ui], store, cursor, mi, zi, ai, ui)
}

/// A full run of ability blocks for one (map, zone) coordinate.
pub open spec fn ability_rows_ok(
    ra: Seq<Vec<CellInfo>>,
    store: ProgressStore,
    cursor: SelectionView,
    mi: int,
    zi: int,
) -> bool {
    &&& ra.len() == store.abilities@.len()
    &&& forall|ai: int| 0 <= ai < ra.len() ==> usage_cells_ok(#[trigger] ra[ai]@, store, cursor, mi, zi, ai)
}

/// A full run of zone rows for one map.
pub open spec fn zone_rows_ok(
    rz: Seq<Vec<Vec<CellInfo>>>,
    store: ProgressStore,
    cursor: SelectionView,
    mi: int,
) -> bool {
    &&& rz.len() == store.maps@[mi].zones@.len()
    &&& forall|zi: int| 0 <= zi < rz.len() ==> ability_rows_ok(#[trigger] rz[zi]@, store, cursor, mi, zi)
}

/// The whole display grid, one entry per map.
pub open spec fn rows_ok(
    r: Seq<Vec<Vec<Vec<CellInfo>>>>,
    store: ProgressStore,
    cursor: SelectionView,
) -> bool {
    &&& r.len() == store.maps@.len()
    &&& forall|mi: int| 0 <= mi < r.len() ==> zone_rows_ok(#[trigger] r[mi]@, store, cursor, mi)
}

impl ProgressStore {
    /// The display grid: for every (map, zone) row and every
    /// (ability, usage) column, the resolved counter — or nothing where
    /// the matrix has no entry — and whether the cursor rests there,
    /// decided by normalizing both the cursor and the cell coordinate to
    /// index form.
    pub fn render_rows(&self, cursor: &Selection) -> (r: Vec<Vec<Vec<Vec<CellInfo>>>>)
        ensures
            rows_ok(r@, *self, cursor@),
    {
        let abs_sel = cursor.absolute(&self.maps, &self.abilities);
        let mut rows: Vec<Vec<Vec<Vec<CellInfo>>>> = Vec::new();
        let mut mi: usize = 0;
        while mi < self.maps.len()
            invariant
                0 <= mi <= self.maps@.len(),
                abs_sel@.location() == pair_absolute(cursor@.location(), map_families(self.maps@)),
                abs_sel@.task() == pair_absolute(cursor@.task(), ability_families(self.abilities@)),
                rows@.len() == mi,
                forall|m: int| 0 <= m < mi ==> zone_rows_ok(#[trigger] rows@[m]@, *self, cursor@, m),
            decreases self.maps@.len() - mi,
        {
            let mut zrows: Vec<Vec<Vec<CellInfo>>> = Vec::new();
            let mut zi: usize = 0;
            while zi < self.maps[mi].zones.len()
                invariant
                    0 <= mi < self.maps@.len(),
                    0 <= zi <= self.maps@[mi as int].zones@.len(),
                    abs_sel@.location() == pair_absolute(
                        cursor@.location(),
                        map_families(self.maps@),
                    ),
                    abs_sel@.task() == pair_absolute(
                        cursor@.task(),
                        ability_families(self.abilities@),
                    ),
                    zrows@.len() == zi,
                    forall|z: int|
                        0 <= z < zi ==> ability_rows_ok(
                            #[trigger] zrows@[z]@,
                            *self,
                            cursor@,
                            mi as int,
                            z,
                        ),
                decreases self.maps@[mi as int].zones@.len() - zi,
            {
                let mut arows: Vec<Vec<CellInfo>> = Vec::new();
                let mut ai: usize = 0;
                while ai < self.abilities.len()
                    invariant
                        0 <= mi < self.maps@.len(),
                        0 <= zi < self.maps@[mi as int].zones@.len(),
                        0 <= ai <= self.abilities@.len(),
                        abs_sel@.location() == pair_absolute(
                            cursor@.location(),
                            map_families(self.maps@),
                        ),
                        abs_sel@.task() == pair_absolute(
                            cursor@.task(),
                            ability_families(self.abilities@),
                        ),
                        arows@.len() == ai,
                        forall|a: int|
                            0 <= a < ai ==> usage_cells_ok(
                                #[trigger] arows@[a]@,
                                *self,
                                cursor@,
                                mi as int,
                                zi as int,
                                a,
                            ),
                    decreases self.abilities@.len() - ai,
                {
                    let mut ucells: Vec<CellInfo> = Vec::new();
                    let mut ui: usize = 0;
                    while ui < self.abilities[ai].usages.len()
                        invariant
                            0 <= mi < self.maps@.len(),
                            0 <= zi < self.maps@[mi as int].zones@.len(),
                            0 <= ai < self.abilities@.len(),
                            0 <= ui <= self.abilities@[ai as int].usages@.len(),
                            abs_sel@.location() == pair_absolute(
                                cursor@.location(),
                                map_families(self.maps@),
                            ),
                            abs_sel@.task() == pair_absolute(
                                cursor@.task(),
                                ability_families(self.abilities@),
                            ),
                            ucells@.len() == ui,
                            forall|u: int|
                                0 <= u < ui ==> cell_ok(
                                    #[trigger] ucells@[u],
                                    *self,
                                    cursor@,
                                    mi as int,
                                    zi as int,
                                    ai as int,
                                    u,
                                ),
                        decreases self.abilities@[ai as int].usages@.len() - ui,
                    {
                        let cell_sel = Selection {
                            map: Some(Selector::Index(mi)),
                            zone: Some(Selector::Index(zi)),
                            ability: Some(Selector::Index(ai)),
                            usage: Some(Selector::Index(ui)),
                        };
                        let selected = cell_sel == abs_sel;
                        proof {
                            assert(resolved_index(
                                SelectorView::Index(mi as int),
                                names_of(self.maps@),
                            ) == Some(mi as int));
                            assert(resolved_index(
                                SelectorView::Index(ai as int),
                                names_of(self.abilities@),
                            ) == Some(ai as int));
                            assert(resolved_index(
                                SelectorView::Index(zi as int),
                                names_of(self.maps@[mi as int].zones@),
                            ) == Some(zi as int));
                            assert(resolved_index(
                                SelectorView::Index(ui as int),
                                names_of(self.abilities@[ai as int].usages@),
                            ) == Some(ui as int));
                        }
                        let tgt = match self.get_target(&cell_sel) {
                            Some(t) => Some(*t),
                            None => None,
                        };
                        ucells.push(CellInfo { target: tgt, selected });
                        ui += 1;
                    }
                    arows.push(ucells);
                    ai += 1;
                }
                zrows.push(arows);
                zi += 1;
            }
            rows.push(zrows);
            mi += 1;
        }
        rows
    }
}

} // verus!
