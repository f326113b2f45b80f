//! The hover resolver: pointer coordinates to a live drop target.
//!
//! While a panel is dragged, each pointer move is resolved in two steps:
//! the nearest list is chosen by comparing the pointer to every registered
//! list box along the primary axis, then the nearest panel within that
//! list's current order is chosen along the secondary axis.  Ties go to the
//! earliest candidate.  The pointer's side of the chosen panel's center
//! classifies the target as above or below that panel; a list with no
//! locatable panel yields an append target.

use vstd::prelude::*;

use crate::geometry::{
    primary_dist, secondary_center2, secondary_dist, secondary_pointer2, Orientation, Rect,
};
use crate::registry::Table;

verus! {

/// A hovering panel's position, either above or below the hovered neighbor.
#[derive(Clone, Copy, Debug, PartialEq, Eq, Structural)]
pub enum HoverPosition {
    Above,
    Below,
}

/// The neighbor named by a hover target: dropping would land the dragged
/// panel on the given side of this panel.
pub struct HoveredPanel {
    pub id: String,
    pub position: HoverPosition,
}

/// The mathematical value of a [`HoveredPanel`].
pub struct HoveredPanelView {
    pub id: Seq<char>,
    pub position: HoverPosition,
}

impl View for HoveredPanel {
    type V = HoveredPanelView;

    open spec fn view(&self) -> HoveredPanelView {
        HoveredPanelView { id: self.id@, position: self.position }
    }
}

/// The live drop target: a list, and optionally the neighbor the drop
/// would land next to.  `panel == None` means "append at the end".
pub struct HoverInfo {
    pub column_index: usize,
    pub panel: Option<HoveredPanel>,
}

/// The mathematical value of a [`HoverInfo`].
pub struct HoverInfoView {
    pub column_index: int,
    pub panel: Option<HoveredPanelView>,
}

impl View for HoverInfo {
    type V = HoverInfoView;

    open spec fn view(&self) -> HoverInfoView {
        HoverInfoView {
            column_index: self.column_index as int,
            panel: match self.panel {
                Some(p) => Some(p@),
                None => None,
            },
        }
    }
}

/// No list of the group has registered geometry; the resolver then has no
/// candidate and publishes nothing.
pub open spec fn no_list_geometry(rects: Seq<Option<Rect>>) -> bool {
    forall|j: int| 0 <= j < rects.len() ==> rects[j] is None
}

/// Column `c` is the first list whose registered box minimizes the primary
/// distance to the pointer over all registered lists.
pub open spec fn is_closest_column(
    rects: Seq<Option<Rect>>,
    o: Orientation,
    x: int,
    y: int,
    c: int,
) -> bool {
    &&& 0 <= c < rects.len()
    &&& rects[c] is Some
    &&& forall|j: int|
        0 <= j < rects.len() && (#[trigger] rects[j]) is Some ==> primary_dist(
            rects[c]->Some_0,
            o,
            x,
            y,
        ) <= primary_dist(rects[j]->Some_0, o, x, y)
    &&& forall|j: int|
        0 <= j < c && (#[trigger] rects[j]) is Some ==> primary_dist(rects[c]->Some_0, o, x, y)
            < primary_dist(rects[j]->Some_0, o, x, y)
}

/// Row `r` holds the first panel of the list that has registered geometry
/// and minimizes the secondary distance to the pointer.
pub open spec fn is_closest_panel(
    col: Seq<Seq<char>>,
    panels: Map<Seq<char>, Rect>,
    o: Orientation,
    x: int,
    y: int,
    r: int,
) -> bool {
    &&& 0 <= r < col.len()
    &&& panels.dom().contains(col[r])
    &&& forall|q: int|
        0 <= q < col.len() && panels.dom().contains(#[trigger] col[q]) ==> secondary_dist(
            panels[col[r]],
            o,
            x,
            y,
        ) <= secondary_dist(panels[col[q]], o, x, y)
    &&& forall|q: int|
        0 <= q < r && panels.dom().contains(#[trigger] col[q]) ==> secondary_dist(
            panels[col[r]],
            o,
            x,
            y,
        ) < secondary_dist(panels[col[q]], o, x, y)
}

/// What the hover resolver publishes for a pointer position: the nearest
/// registered list, and within it either the nearest locatable panel with
/// the pointer's side of its center, or an append target when no panel of
/// that list has registered geometry.
pub open spec fn resolved_target(
    rects: Seq<Option<Rect>>,
    panels: Map<Seq<char>, Rect>,
    order: Seq<Seq<Seq<char>>>,
    o: Orientation,
    x: int,
    y: int,
    h: HoverInfoView,
) -> bool {
    &&& is_closest_column(rects, o, x, y, h.column_index)
    &&& h.column_index < order.len()
    &&& match h.panel {
        None => forall|q: int|
            0 <= q < order[h.column_index].len() ==> !panels.dom().contains(
                #[trigger] order[h.column_index][q],
            ),
        Some(p) => exists|r: int|
            {
                &&& #[trigger] is_closest_panel(order[h.column_index], panels, o, x, y, r)
                &&& p.id == order[h.column_index][r]
                &&& p.position == (if secondary_pointer2(o, x, y) < secondary_center2(
                    panels[p.id],
                    o,
                ) {
                    HoverPosition::Above
                } else {
                    HoverPosition::Below
                })
            },
    }
}

/// A hover target naming a neighbor names a panel that is a member of the
/// target list and has registered geometry, so the target is
/// self-consistent at the moment it is resolved.
pub proof fn lemma_hover_names_member(
    rects: Seq<Option<Rect>>,
    panels: Map<Seq<char>, Rect>,
    order: Seq<Seq<Seq<char>>>,
    o: Orientation,
    x: int,
    y: int,
    h: HoverInfoView,
)
    requires
        resolved_target(rects, panels, order, o, x, y, h),
    ensures
        0 <= h.column_index < order.len(),
        match h.panel {
            Some(p) => order[h.column_index].contains(p.id) && panels.dom().contains(p.id),
            None => true,
        },
{
    match h.panel {
        Some(p) => {
            let r = choose|r: int|
                {
                    &&& #[trigger] is_closest_panel(order[h.column_index], panels, o, x, y, r)
                    &&& p.id == order[h.column_index][r]
                    &&& p.position == (if secondary_pointer2(o, x, y) < secondary_center2(
                        panels[p.id],
                        o,
                    ) {
                        HoverPosition::Above
                    } else {
                        HoverPosition::Below
                    })
                };
            assert(order[h.column_index][r] == p.id);
        },
        None => {},
    }
}

/// Picks the registered list box nearest the pointer on the primary axis,
/// keeping the first minimum; `None` when no list has registered geometry.
pub fn closest_column(
    column_rects: &Vec<Option<Rect>>,
    o: Orientation,
    x: i32,
    y: i32,
) -> (r: Option<usize>)
    ensures
        match r {
            None => forall|j: int| 0 <= j < column_rects@.len() ==> column_rects@[j] is None,
            Some(c) => is_closest_column(column_rects@, o, x as int, y as int, c as int),
        },
{
    let n = column_rects.len();
    let mut best: Option<usize> = None;
    let mut best_dist: i64 = 0;
    let mut i: usize = 0;
    while i < n
        invariant
            n == column_rects@.len(),
            i <= n,
            match best {
                None => forall|j: int| 0 <= j < i ==> column_rects@[j] is None,
                Some(c) => {
                    &&& c < i
                    &&& column_rects@[c as int] is Some
                    &&& best_dist == primary_dist(column_rects@[c as int]->Some_0, o, x as int, y as int)
                    &&& forall|j: int|
                        0 <= j < i && (#[trigger] column_rects@[j]) is Some ==> best_dist
                            <= primary_dist(column_rects@[j]->Some_0, o, x as int, y as int)
                    &&& forall|j: int|
                        0 <= j < c && (#[trigger] column_rects@[j]) is Some ==> best_dist
                            < primary_dist(column_rects@[j]->Some_0, o, x as int, y as int)
                },
            },
        decreases n - i,
    {
        if let Some(rect) = column_rects[i] {
            let d = crate::geometry::primary_distance(&rect, o, x, y);
            match best {
                None => {
                    best = Some(i);
                    best_dist = d;
                },
                Some(_) => {
                    if d < best_dist {
                        best = Some(i);
                        best_dist = d;
                    }
                },
            }
        }
        i += 1;
    }
    best
}

/// Finds the first row of the list whose id equals the given id.
pub fn index_of_id(col: &Vec<String>, id: &String) -> (r: Option<usize>)
    ensures
        match r {
            None => forall|q: int| 0 <= q < col.deep_view().len() ==> col.deep_view()[q] != id@,
            Some(i) => {
                &&& i < col.deep_view().len()
                &&& col.deep_view()[i as int] == id@
                &&& forall|q: int| 0 <= q < i ==> col.deep_view()[q] != id@
            },
        },
{
    let n = col.len();
    let mut i: usize = 0;
    while i < n
        invariant
            n == col@.len(),
            i <= n,
            forall|q: int| 0 <= q < i ==> col.deep_view()[q] != id@,
        decreases n - i,
    {
        if col[i] == *id {
            proof {
                assert(col.deep_view()[i as int] == col@[i as int]@);
            }
            return Some(i);
        }
        proof {
            assert(col.deep_view()[i as int] == col@[i as int]@);
        }
        i += 1;
    }
    None
}

/// Picks the panel of the list nearest the pointer on the secondary axis,
/// among the panels with registered geometry, keeping the first minimum.
/// Returns the row and the panel's registered box.
pub fn closest_panel(
    col: &Vec<String>,
    panels: &Table<Rect>,
    o: Orientation,
    x: i32,
    y: i32,
) -> (r: Option<(usize, Rect)>)
    requires
        panels.wf(),
    ensures
        match r {
            None => forall|q: int|
                0 <= q < col.deep_view().len() ==> !panels@.dom().contains(
                    #[trigger] col.deep_view()[q],
                ),
            Some(p) => {
                &&& is_closest_panel(col.deep_view(), panels@, o, x as int, y as int, p.0 as int)
                &&& p.1 == panels@[col.deep_view()[p.0 as int]]
            },
        },
{
    let n = col.len();
    let mut best: Option<(usize, Rect)> = None;
    let mut best_dist: i64 = 0;
    let mut i: usize = 0;
    while i < n
        invariant
            n == col@.len(),
            i <= n,
            panels.wf(),
            match best {
                None => forall|q: int|
                    0 <= q < i ==> !panels@.dom().contains(#[trigger] col.deep_view()[q]),
                Some(p) => {
                    &&& p.0 < i
                    &&& panels@.dom().contains(col.deep_view()[p.0 as int])
                    &&& p.1 == panels@[col.deep_view()[p.0 as int]]
                    &&& best_dist == secondary_dist(p.1, o, x as int, y as int)
                    &&& forall|q: int|
                        0 <= q < i && panels@.dom().contains(#[trigger] col.deep_view()[q])
                            ==> best_dist <= secondary_dist(
                            panels@[col.deep_view()[q]],
                            o,
                            x as int,
                            y as int,
                        )
                    &&& forall|q: int|
                        0 <= q < p.0 && panels@.dom().contains(#[trigger] col.deep_view()[q])
                            ==> best_dist < secondary_dist(
                            panels@[col.deep_view()[q]],
                            o,
                            x as int,
                            y as int,
                        )
                },
            },
        decreases n - i,
    {
        proof {
            assert(col.deep_view()[i as int] == col@[i as int]@);
        }
        if let Some(rect) = panels.get(&col[i]) {
            let d = crate::geometry::secondary_distance(&rect, o, x, y);
            match best {
                None => {
                    best = Some((i, rect));
                    best_dist = d;
                },
                Some(_) => {
                    if d < best_dist {
                        best = Some((i, rect));
                        best_dist = d;
                    }
                },
            }
        }
        i += 1;
    }
    best
}

/// Resolves pointer coordinates to the current hover target, or `None`
/// when no list has registered geometry (nothing is published then).
pub fn resolve_hover(
    column_rects: &Vec<Option<Rect>>,
    panels: &Table<Rect>,
    panel_order: &Vec<Vec<String>>,
    o: Orientation,
    x: i32,
    y: i32,
) -> (r: Option<HoverInfo>)
    requires
        panels.wf(),
        column_rects@.len() == panel_order@.len(),
    ensures
        match r {
            None => forall|j: int| 0 <= j < column_rects@.len() ==> column_rects@[j] is None,
            Some(h) => resolved_target(
                column_rects@,
                panels@,
                panel_order.deep_view(),
                o,
                x as int,
                y as int,
                h@,
            ),
        },
{
    let ci = match closest_column(column_rects, o, x, y) {
        None => {
            return None;
        },
        Some(c) => c,
    };
    let col = &panel_order[ci];
    proof {
        assert(panel_order.deep_view()[ci as int] == panel_order@[ci as int].deep_view());
    }
    match closest_panel(col, panels, o, x, y) {
        None => Some(HoverInfo { column_index: ci, panel: None }),
        Some(p) => {
            let above = crate::geometry::before_secondary_center(&p.1, o, x, y);
            let id = col[p.0].clone();
            proof {
                assert(col.deep_view()[p.0 as int] == col@[p.0 as int]@);
            }
            let position = if above {
                HoverPosition::Above
            } else {
                HoverPosition::Below
            };
            Some(HoverInfo { column_index: ci, panel: Some(HoveredPanel { id, position }) })
        },
    }
}

/// Value equality of two hover targets, used to publish a newly resolved
/// target only when it differs from the last published one.
pub fn hover_info_eq(a: &HoverInfo, b: &HoverInfo) -> (r: bool)
    ensures
        r <==> a@ == b@,
{
    if a.column_index != b.column_index {
        return false;
    }
    match (&a.panel, &b.panel) {
        (None, None) => true,
        (Some(pa), Some(pb)) => pa.id == pb.id && pa.position == pb.position,
        _ => false,
    }
}

} // verus!
