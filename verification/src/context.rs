//! The reorder group: registries, order store, drag state and hover state
//! behind one handle.
//!
//! A group is constructed once with its initial per-list panel orders and a
//! fixed orientation.  The presentation layer registers geometry as elements
//! mount and unmount, reports the drag lifecycle (start, pointer moves, end)
//! and reads the resulting order and styling queries back.  Everything runs
//! on one logical thread: each operation completes before the next event is
//! handled, so the two list writes of a cross-list commit are never observed
//! half done.

use vstd::prelude::*;

use crate::geometry::{Orientation, Rect};
use crate::hover::{
    hover_info_eq, no_list_geometry, resolve_hover, resolved_target, HoverInfo, HoverInfoView,
    HoverPosition,
};
use crate::registry::Table;
use crate::reorder::{
    col_of, cols_contain, ids_multiset, order_wf, reorder_panel_order, row_in_col, spec_reorder,
};

verus! {

/// The mathematical value of a [`DragReorderContext`].
pub struct DragReorderContextView {
    pub orientation: Orientation,
    pub column_rects: Seq<Option<Rect>>,
    pub panels: Map<Seq<char>, Rect>,
    pub panel_order: Seq<Seq<Seq<char>>>,
    pub currently_dragged_panel: Option<Seq<char>>,
    pub draggable: Map<Seq<char>, bool>,
    pub hover_info: Option<HoverInfoView>,
}

/// One drag-reorder group: the list and panel geometry registries, the
/// ordered id lists, the drag state and the published hover target.
pub struct DragReorderContext {
    orientation: Orientation,
    column_rects: Vec<Option<Rect>>,
    panels: Table<Rect>,
    panel_order: Vec<Vec<String>>,
    currently_dragged_panel: Option<String>,
    draggable: Table<bool>,
    hover_info: Option<HoverInfo>,
}

impl View for DragReorderContext {
    type V = DragReorderContextView;

    closed spec fn view(&self) -> DragReorderContextView {
        DragReorderContextView {
            orientation: self.orientation,
            column_rects: self.column_rects@,
            panels: self.panels@,
            panel_order: self.panel_order.deep_view(),
            currently_dragged_panel: match self.currently_dragged_panel {
                Some(d) => Some(d@),
                None => None,
            },
            draggable: self.draggable@,
            hover_info: match self.hover_info {
                Some(h) => Some(h@),
                None => None,
            },
        }
    }
}

/// The styling signal a panel derives from the published hover target:
/// the hovered side, shown only at the hovered panel itself, never at the
/// dragged panel, and not when the drop would put the dragged panel right
/// back where it already is (hovering just above its next neighbor or
/// just below its previous one).
pub open spec fn spec_hover_position_for(
    v: DragReorderContextView,
    id: Seq<char>,
) -> Option<HoverPosition> {
    match (v.hover_info, v.currently_dragged_panel) {
        (Some(h), Some(d)) => match h.panel {
            Some(p) => if p.id == id && d != id && !neighbour_suppressed(
                v.panel_order,
                d,
                id,
                p.position,
            ) {
                Some(p.position)
            } else {
                None
            },
            None => None,
        },
        _ => None,
    }
}

/// The hovered panel sits right next to the dragged panel on the hovered
/// side, so the indicated drop would not move anything.
pub open spec fn neighbour_suppressed(
    cols: Seq<Seq<Seq<char>>>,
    dragged: Seq<char>,
    id: Seq<char>,
    pos: HoverPosition,
) -> bool {
    &&& cols_contain(cols, dragged)
    &&& {
        let ci = col_of(cols, dragged);
        let ri = row_in_col(cols[ci], dragged);
        match pos {
            HoverPosition::Above => ri + 1 < cols[ci].len() && cols[ci][ri + 1] == id,
            HoverPosition::Below => 0 < ri && cols[ci][ri - 1] == id,
        }
    }
}

impl DragReorderContext {
    /// The group's invariant: the lists hold every id exactly once, each
    /// list has a geometry slot, and a published hover target names a
    /// valid list.
    pub closed spec fn wf(self) -> bool {
        &&& order_wf(self@.panel_order)
        &&& self@.column_rects.len() == self@.panel_order.len()
        &&& self.panels.wf()
        &&& self.draggable.wf()
        &&& match self@.hover_info {
            Some(h) => 0 <= h.column_index < self@.panel_order.len(),
            None => true,
        }
    }

    /// How many lists the group has; fixed for the group's lifetime.
    pub fn column_count(&self) -> (n: usize)
        ensures
            n == self@.panel_order.len(),
    {
        proof {
            assert(self@.panel_order.len() == self.panel_order@.len());
        }
        self.panel_order.len()
    }

    /// Read access to one list's current panel order.
    pub fn column(&self, index: usize) -> (col: &Vec<String>)
        requires
            index < self@.panel_order.len(),
        ensures
            col.deep_view() == self@.panel_order[index as int],
    {
        proof {
            assert(self@.panel_order.len() == self.panel_order@.len());
            assert(self.panel_order.deep_view()[index as int] == self.panel_order@[
                index as int].deep_view());
        }
        &self.panel_order[index]
    }

    /// The currently published hover target, if any.
    pub fn current_hover(&self) -> (r: &Option<HoverInfo>)
        ensures
            match r {
                Some(h) => self@.hover_info == Some(h@),
                None => self@.hover_info is None,
            },
    {
        &self.hover_info
    }

    /// Records the geometry of a list's element; `None` reports that the
    /// element is unmounted, which skips the list during hover resolution.
    pub fn register_list(&mut self, index: usize, rect: Option<Rect>)
        requires
            old(self).wf(),
            index < old(self)@.column_rects.len(),
        ensures
            final(self).wf(),
            final(self)@ == (DragReorderContextView {
                column_rects: old(self)@.column_rects.update(index as int, rect),
                ..old(self)@
            }),
    {
        proof {
            assert(self@.column_rects.len() == self.column_rects@.len());
        }
        self.column_rects[index] = rect;
    }

    /// Forgets a list's element geometry.
    pub fn unregister_list(&mut self, index: usize)
        requires
            old(self).wf(),
            index < old(self)@.column_rects.len(),
        ensures
            final(self).wf(),
            final(self)@ == (DragReorderContextView {
                column_rects: old(self)@.column_rects.update(index as int, None),
                ..old(self)@
            }),
    {
        self.register_list(index, None);
    }

    /// Records the geometry of a panel's element; the last registration
    /// for an id wins, and `None` is the same as unregistering.
    pub fn register_panel(&mut self, id: String, rect: Option<Rect>)
        requires
            old(self).wf(),
        ensures
            final(self).wf(),
            final(self)@ == (DragReorderContextView {
                panels: match rect {
                    Some(r) => old(self)@.panels.insert(id@, r),
                    None => old(self)@.panels.remove(id@),
                },
                ..old(self)@
            }),
    {
        match rect {
            Some(r) => self.panels.put(id, r),
            None => self.panels.remove(&id),
        }
    }

    /// Forgets a panel's element geometry; the panel is skipped during
    /// hover resolution until it is registered again.
    pub fn unregister_panel(&mut self, id: &String)
        requires
            old(self).wf(),
        ensures
            final(self).wf(),
            final(self)@ == (DragReorderContextView {
                panels: old(self)@.panels.remove(id@),
                ..old(self)@
            }),
    {
        self.panels.remove(id);
    }

    /// Sets a panel's draggable flag; the core only records the flag, the
    /// presentation layer decides when to toggle it.
    pub fn set_draggable(&mut self, id: String, can_drag: bool)
        requires
            old(self).wf(),
        ensures
            final(self).wf(),
            final(self)@ == (DragReorderContextView {
                draggable: old(self)@.draggable.insert(id@, can_drag),
                ..old(self)@
            }),
    {
        self.draggable.put(id, can_drag);
    }

    /// Reads a panel's draggable flag; a panel never toggled is not
    /// draggable.
    pub fn draggable(&self, id: &String) -> (r: bool)
        requires
            self.wf(),
        ensures
            r == (self@.draggable.dom().contains(id@) && self@.draggable[id@]),
    {
        match self.draggable.get(id) {
            Some(b) => b,
            None => false,
        }
    }

    /// Whether this panel is the one currently being dragged.
    pub fn is_dragging(&self, id: &String) -> (r: bool)
        ensures
            r == (self@.currently_dragged_panel == Some(id@)),
    {
        match &self.currently_dragged_panel {
            Some(d) => *d == *id,
            None => false,
        }
    }

    /// Begins a drag of the given panel.  A dragstart while another drag
    /// is still in progress replaces that drag: the last start wins, as
    /// with every other registration here.
    pub fn on_drag_start(&mut self, id: String)
        requires
            old(self).wf(),
        ensures
            final(self).wf(),
            final(self)@ == (DragReorderContextView {
                currently_dragged_panel: Some(id@),
                ..old(self)@
            }),
    {
        self.currently_dragged_panel = Some(id);
    }

    /// Resolves the pointer position to a hover target and publishes it
    /// only when it differs from the last published one; with no list
    /// geometry registered nothing is resolved and nothing is published.
    /// Returns whether a new target was published.
    pub fn on_pointer_move(&mut self, x: i32, y: i32) -> (changed: bool)
        requires
            old(self).wf(),
            old(self)@.currently_dragged_panel is Some,
        ensures
            final(self).wf(),
            final(self)@ == (DragReorderContextView {
                hover_info: final(self)@.hover_info,
                ..old(self)@
            }),
            no_list_geometry(old(self)@.column_rects) ==> final(self)@.hover_info == old(
                self,
            )@.hover_info && !changed,
            !no_list_geometry(old(self)@.column_rects) ==> exists|h: HoverInfoView|
                {
                    &&& #[trigger] resolved_target(
                        old(self)@.column_rects,
                        old(self)@.panels,
                        old(self)@.panel_order,
                        old(self)@.orientation,
                        x as int,
                        y as int,
                        h,
                    )
                    &&& final(self)@.hover_info == Some(h)
                    &&& changed == (old(self)@.hover_info != Some(h))
                },
    {
        proof {
            assert(self@.column_rects.len() == self.column_rects@.len());
            assert(self@.panel_order.len() == self.panel_order@.len());
        }
        match resolve_hover(
            &self.column_rects,
            &self.panels,
            &self.panel_order,
            self.orientation,
            x,
            y,
        ) {
            None => {
                false
            },
            Some(h) => {
                proof {
                    assert(!no_list_geometry(self@.column_rects));
                }
                let same = match &self.hover_info {
                    Some(prev) => hover_info_eq(prev, &h),
                    None => false,
                };
                let ghost hv = h@;
                if same {
                    proof {
                        assert(self@.hover_info == Some(hv));
                    }
                    false
                } else {
                    self.hover_info = Some(h);
                    proof {
                        assert(final(self)@.hover_info == Some(hv));
                    }
                    true
                }
            },
        }
    }

    /// Ends the drag: hands the dragged id and the last published hover
    /// target to the reorder engine.  With no published target, or with
    /// no drag in progress, the lists stay exactly as they are (an
    /// abandoned drag).  The drag state itself is cleared separately by
    /// [`Self::clear_after_drag`] on the next tick.
    pub fn on_drag_end(&mut self)
        requires
            old(self).wf(),
        ensures
            final(self).wf(),
            final(self)@ == (DragReorderContextView {
                panel_order: final(self)@.panel_order,
                ..old(self)@
            }),
            final(self)@.panel_order == match (
                old(self)@.currently_dragged_panel,
                old(self)@.hover_info,
            ) {
                (Some(d), Some(h)) => spec_reorder(
                    old(self)@.panel_order,
                    d,
                    h.column_index,
                    h.panel,
                ),
                _ => old(self)@.panel_order,
            },
            ids_multiset(final(self)@.panel_order) == ids_multiset(old(self)@.panel_order),
            order_wf(final(self)@.panel_order),
    {
        match (&self.currently_dragged_panel, &self.hover_info) {
            (Some(d), Some(h)) => {
                reorder_panel_order(&mut self.panel_order, d, h);
            },
            _ => {},
        }
    }

    /// The deferred end-of-drag cleanup, run one tick after the drop so
    /// the reorder engine has consumed the final hover state first.  It
    /// only acts when the given panel is still the dragged one, so a
    /// stale cleanup for an earlier drag cannot disturb a newer one; run
    /// twice it does nothing the second time.
    pub fn clear_after_drag(&mut self, id: &String)
        requires
            old(self).wf(),
        ensures
            final(self).wf(),
            old(self)@.currently_dragged_panel == Some(id@) ==> final(self)@ == (
            DragReorderContextView {
                currently_dragged_panel: None,
                hover_info: None,
                draggable: old(self)@.draggable.insert(id@, false),
                ..old(self)@
            }),
            old(self)@.currently_dragged_panel != Some(id@) ==> final(self)@ == old(self)@,
    {
        let still_dragged = match &self.currently_dragged_panel {
            Some(d) => *d == *id,
            None => false,
        };
        if still_dragged {
            self.hover_info = None;
            self.draggable.put(id.clone(), false);
            self.currently_dragged_panel = None;
        }
    }

    /// The styling signal for one panel: on which side of it the dragged
    /// panel would land, when that is worth showing.
    pub fn hover_position_for(&self, id: &String) -> (r: Option<HoverPosition>)
        requires
            self.wf(),
        ensures
            r == spec_hover_position_for(self@, id@),
    {
        let h = match &self.hover_info {
            Some(h) => h,
            None => {
                return None;
            },
        };
        let p = match &h.panel {
            Some(p) => p,
            None => {
                return None;
            },
        };
        let d = match &self.currently_dragged_panel {
            Some(d) => d,
            None => {
                return None;
            },
        };
        if !(p.id == *id) {
            return None;
        }
        if *d == *id {
            return None;
        }
        let ghost dv = d@;
        let ghost cols0 = self@.panel_order;
        let n = self.panel_order.len();
        let mut c: usize = 0;
        let mut found = false;
        let mut dc: usize = 0;
        let mut dr: usize = 0;
        while c < n && !found
            invariant
                n == self.panel_order@.len(),
                c <= n,
                cols0 == self.panel_order.deep_view(),
                dv == d@,
                !found ==> forall|j: int| 0 <= j < c ==> !(#[trigger] cols0[j]).contains(dv),
                found ==> {
                    &&& (dc as int) < cols0.len()
                    &&& (dr as int) < cols0[dc as int].len()
                    &&& cols0[dc as int][dr as int] == dv
                },
            decreases n - c,
        {
            let here = &self.panel_order[c];
            proof {
                assert(here.deep_view() == self.panel_order@[c as int].deep_view());
                assert(cols0[c as int] == here.deep_view());
            }
            match crate::hover::index_of_id(here, d) {
                Some(r) => {
                    proof {
                        assert(cols0[c as int][r as int] == dv);
                    }
                    dc = c;
                    dr = r;
                    found = true;
                },
                None => {
                    proof {
                        assert(!cols0[c as int].contains(dv)) by {
                            if cols0[c as int].contains(dv) {
                                let q = choose|q: int|
                                    0 <= q < cols0[c as int].len() && cols0[c as int][q] == dv;
                                assert(here.deep_view()[q] == dv);
                            }
                        }
                    }
                },
            }
            c += 1;
        }
        if !found {
            proof {
                assert(!cols_contain(cols0, dv)) by {
                    if cols_contain(cols0, dv) {
                        let cc = choose|cc: int|
                            0 <= cc < cols0.len() && (#[trigger] cols0[cc]).contains(dv);
                    }
                }
            }
            return Some(p.position);
        }
        proof {
            crate::reorder::lemma_location_unique(cols0, dv, dc as int, dr as int);
        }
        let dragged_col = &self.panel_order[dc];
        proof {
            assert(dragged_col.deep_view() == cols0[dc as int]);
            assert((dr as int) < dragged_col.len());
        }
        let suppressed = match p.position {
            HoverPosition::Above => {
                if dr + 1 < dragged_col.len() {
                    let e = dragged_col[dr + 1] == *id;
                    proof {
                        assert(dragged_col.deep_view()[dr + 1] == dragged_col@[dr + 1]@);
                    }
                    e
                } else {
                    false
                }
            },
            HoverPosition::Below => {
                if dr > 0 {
                    let e = dragged_col[dr - 1] == *id;
                    proof {
                        assert(dragged_col.deep_view()[dr - 1] == dragged_col@[dr - 1]@);
                    }
                    e
                } else {
                    false
                }
            },
        };
        if suppressed {
            None
        } else {
            Some(p.position)
        }
    }
}

/// Creates a reorder group from its initial per-list panel orders and its
/// orientation.  The list count is fixed for the group's lifetime; every
/// list starts with no registered geometry.  The given orders must hold
/// each panel id exactly once across all lists.
pub fn provide_drag_reorder(panel_order: Vec<Vec<String>>, orientation: Orientation) -> (ctx:
    DragReorderContext)
    requires
        order_wf(panel_order.deep_view()),
    ensures
        ctx.wf(),
        ctx@.orientation == orientation,
        ctx@.panel_order == panel_order.deep_view(),
        ctx@.column_rects.len() == panel_order@.len(),
        forall|j: int| 0 <= j < ctx@.column_rects.len() ==> ctx@.column_rects[j] is None,
        ctx@.panels == Map::<Seq<char>, Rect>::empty(),
        ctx@.draggable == Map::<Seq<char>, bool>::empty(),
        ctx@.currently_dragged_panel is None,
        ctx@.hover_info is None,
{
    let n = panel_order.len();
    let mut column_rects: Vec<Option<Rect>> = Vec::new();
    let mut i: usize = 0;
    while i < n
        invariant
            i <= n,
            column_rects@.len() == i,
            forall|j: int| 0 <= j < i ==> column_rects@[j] is None,
        decreases n - i,
    {
        column_rects.push(None);
        i += 1;
    }
    proof {
        assert(panel_order.deep_view().len() == panel_order@.len());
    }
    DragReorderContext {
        orientation,
        column_rects,
        panels: Table::new(),
        panel_order,
        currently_dragged_panel: None,
        draggable: Table::new(),
        hover_info: None,
    }
}

} // verus!
