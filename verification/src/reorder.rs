//! The reorder engine: rewriting the ordered id lists on drop.
//!
//! A completed drag hands the engine the dragged id and the last published
//! hover target.  The dragged id is removed from the list that holds it and
//! inserted into the target list, either at the hovered neighbor's side or
//! at the end when no neighbor was named or the neighbor has meanwhile left
//! the target list.  Moving within one list first corrects the insertion
//! index for the removal that shifts the later rows down by one.

use vstd::prelude::*;

use crate::hover::{HoverInfo, HoverPosition, HoveredPanelView};

verus! {

use vstd::multiset::Multiset;
use vstd::seq_lib::group_to_multiset_ensures;

/// Each list holds an id at most once.
pub open spec fn col_wf(col: Seq<Seq<char>>) -> bool {
    forall|r1: int, r2: int|
        #![trigger col[r1], col[r2]]
        0 <= r1 < r2 < col.len() ==> col[r1] != col[r2]
}

/// No id appears in two different lists.
pub open spec fn cols_disjoint(cols: Seq<Seq<Seq<char>>>) -> bool {
    forall|c1: int, c2: int, id: Seq<char>|
        #![trigger cols[c1].contains(id), cols[c2].contains(id)]
        0 <= c1 < c2 < cols.len() && cols[c1].contains(id) ==> !cols[c2].contains(id)
}

/// Every id of the group sits in exactly one place: lists are duplicate
/// free and pairwise disjoint.
pub open spec fn order_wf(cols: Seq<Seq<Seq<char>>>) -> bool {
    &&& forall|c: int| 0 <= c < cols.len() ==> col_wf(#[trigger] cols[c])
    &&& cols_disjoint(cols)
}

/// Some list of the group holds the id.
pub open spec fn cols_contain(cols: Seq<Seq<Seq<char>>>, id: Seq<char>) -> bool {
    exists|c: int| 0 <= c < cols.len() && (#[trigger] cols[c]).contains(id)
}

/// The list holding the id (unique under `order_wf`).
pub open spec fn col_of(cols: Seq<Seq<Seq<char>>>, id: Seq<char>) -> int {
    choose|c: int| 0 <= c < cols.len() && (#[trigger] cols[c]).contains(id)
}

/// The row holding the id within one list (unique under `col_wf`).
pub open spec fn row_in_col(col: Seq<Seq<char>>, id: Seq<char>) -> int {
    choose|r: int| 0 <= r < col.len() && col[r] == id
}

/// The corrected insertion index for a drop: the hovered neighbor's row
/// (or the row after it for `Below`), the end of the target list when no
/// neighbor was named or it is gone, minus one when the dragged id leaves
/// an earlier row of the same list.
pub open spec fn insert_position(
    cols: Seq<Seq<Seq<char>>>,
    id: Seq<char>,
    to: int,
    nb: Option<HoveredPanelView>,
) -> int {
    let target = cols[to];
    let base = match nb {
        Some(p) => if target.contains(p.id) {
            let nr = row_in_col(target, p.id);
            if p.position is Above {
                nr
            } else {
                nr + 1
            }
        } else {
            target.len() as int
        },
        None => target.len() as int,
    };
    if col_of(cols, id) == to && row_in_col(cols[col_of(cols, id)], id) < base {
        base - 1
    } else {
        base
    }
}

/// The lists after a committed drop of `id` on target list `to` with
/// hovered neighbor `nb`; unchanged when no list holds `id`.
pub open spec fn spec_reorder(
    cols: Seq<Seq<Seq<char>>>,
    id: Seq<char>,
    to: int,
    nb: Option<HoveredPanelView>,
) -> Seq<Seq<Seq<char>>> {
    if !cols_contain(cols, id) {
        cols
    } else {
        let fi = col_of(cols, id);
        let fr = row_in_col(cols[fi], id);
        let ins = insert_position(cols, id, to, nb);
        if fi == to {
            cols.update(to, cols[to].remove(fr).insert(ins, id))
        } else {
            cols.update(fi, cols[fi].remove(fr)).update(to, cols[to].insert(ins, id))
        }
    }
}

/// All ids of the group, with multiplicity, in list order.
pub open spec fn ids_multiset(cols: Seq<Seq<Seq<char>>>) -> Multiset<Seq<char>>
    decreases cols.len(),
{
    if cols.len() == 0 {
        Multiset::empty()
    } else {
        cols.first().to_multiset().add(ids_multiset(cols.drop_first()))
    }
}

/// The location `choose` picks for a held id is a real occurrence.
pub proof fn lemma_location(cols: Seq<Seq<Seq<char>>>, id: Seq<char>)
    requires
        cols_contain(cols, id),
    ensures
        0 <= col_of(cols, id) < cols.len(),
        cols[col_of(cols, id)].contains(id),
        0 <= row_in_col(cols[col_of(cols, id)], id) < cols[col_of(cols, id)].len(),
        cols[col_of(cols, id)][row_in_col(cols[col_of(cols, id)], id)] == id,
{
    let fi = col_of(cols, id);
    assert(0 <= fi < cols.len() && cols[fi].contains(id));
    let r = choose|r: int| 0 <= r < cols[fi].len() && cols[fi][r] == id;
    assert(cols[fi][r] == id);
}

/// Under well-formedness an occurrence determines the picked location.
pub proof fn lemma_location_unique(cols: Seq<Seq<Seq<char>>>, id: Seq<char>, c: int, r: int)
    requires
        order_wf(cols),
        0 <= c < cols.len(),
        0 <= r < cols[c].len(),
        cols[c][r] == id,
    ensures
        cols_contain(cols, id),
        col_of(cols, id) == c,
        row_in_col(cols[c], id) == r,
{
    assert(cols[c].contains(id));
    assert(cols_contain(cols, id));
    let fi = col_of(cols, id);
    assert(cols[fi].contains(id));
    if fi < c {
        assert(!cols[c].contains(id));
    } else if c < fi {
        assert(!cols[fi].contains(id));
    }
    let fr = row_in_col(cols[c], id);
    assert(cols[c][fr] == id);
    assert(col_wf(cols[c]));
    if fr < r {
        assert(cols[c][fr] != cols[c][r]);
    } else if r < fr {
        assert(cols[c][r] != cols[c][fr]);
    }
}

/// A row occurrence within a duplicate-free list determines the picked row.
pub proof fn lemma_row_unique(col: Seq<Seq<char>>, id: Seq<char>, r: int)
    requires
        col_wf(col),
        0 <= r < col.len(),
        col[r] == id,
    ensures
        col.contains(id),
        row_in_col(col, id) == r,
{
    assert(col.contains(id));
    let fr = row_in_col(col, id);
    assert(col[fr] == id);
    if fr < r {
        assert(col[fr] != col[r]);
    } else if r < fr {
        assert(col[r] != col[fr]);
    }
}

/// The corrected insertion index fits the list it lands in.
pub proof fn lemma_insert_position_bounds(
    cols: Seq<Seq<Seq<char>>>,
    id: Seq<char>,
    to: int,
    nb: Option<HoveredPanelView>,
)
    requires
        order_wf(cols),
        cols_contain(cols, id),
        0 <= to < cols.len(),
    ensures
        0 <= insert_position(cols, id, to, nb),
        col_of(cols, id) == to ==> insert_position(cols, id, to, nb) <= cols[to].len() - 1,
        col_of(cols, id) != to ==> insert_position(cols, id, to, nb) <= cols[to].len(),
{
    lemma_location(cols, id);
    let fi = col_of(cols, id);
    let fr = row_in_col(cols[fi], id);
    let target = cols[to];
    match nb {
        Some(p) => {
            if target.contains(p.id) {
                let nr = row_in_col(target, p.id);
                assert(target[nr] == p.id);
            }
        },
        None => {},
    }
}

/// Removing a row keeps a list duplicate free and removes exactly the
/// removed row's id from its membership.
proof fn lemma_col_remove(col: Seq<Seq<char>>, r: int)
    requires
        col_wf(col),
        0 <= r < col.len(),
    ensures
        col_wf(col.remove(r)),
        forall|x: Seq<char>|
            #[trigger] col.remove(r).contains(x) <==> (col.contains(x) && x != col[r]),
{
    let t = col.remove(r);
    col.remove_ensures(r);
    assert forall|r1: int, r2: int|
        #![trigger t[r1], t[r2]]
        0 <= r1 < r2 < t.len() implies t[r1] != t[r2] by {
        let a0 = if r1 < r {
            r1
        } else {
            r1 + 1
        };
        let b0 = if r2 < r {
            r2
        } else {
            r2 + 1
        };
        assert(t[r1] == col[a0] && t[r2] == col[b0]);
    }
    assert forall|x: Seq<char>| #[trigger]
        t.contains(x) implies (col.contains(x) && x != col[r]) by {
        let i = choose|i: int| 0 <= i < t.len() && t[i] == x;
        let i0 = if i < r {
            i
        } else {
            i + 1
        };
        assert(col[i0] == x);
        if i0 < r {
            assert(col[i0] != col[r]);
        } else {
            assert(col[r] != col[i0]);
        }
    }
    assert forall|x: Seq<char>| col.contains(x) && x != col[r] implies #[trigger]
        t.contains(x) by {
        let i = choose|i: int| 0 <= i < col.len() && col[i] == x;
        if i < r {
            assert(t[i] == x);
        } else {
            assert(t[i - 1] == x);
        }
    }
}

/// Inserting a fresh id keeps a list duplicate free and adds exactly that
/// id to its membership.
proof fn lemma_col_insert(col: Seq<Seq<char>>, i: int, id: Seq<char>)
    requires
        col_wf(col),
        !col.contains(id),
        0 <= i <= col.len(),
    ensures
        col_wf(col.insert(i, id)),
        forall|x: Seq<char>|
            #[trigger] col.insert(i, id).contains(x) <==> (col.contains(x) || x == id),
{
    let t = col.insert(i, id);
    col.insert_ensures(i, id);
    assert forall|j: int| 0 <= j < t.len() implies #[trigger] t[j] == (if j < i {
        col[j]
    } else if j == i {
        id
    } else {
        col[j - 1]
    }) by {
        if j < i {
        } else if j == i {
        } else {
            assert(t[(j - 1) + 1] == col[j - 1]);
        }
    }
    assert forall|r1: int, r2: int|
        #![trigger t[r1], t[r2]]
        0 <= r1 < r2 < t.len() implies t[r1] != t[r2] by {
        if r1 == i {
            assert(t[r2] == col[r2 - 1]);
            if t[r2] == id {
                assert(col.contains(id));
            }
        } else if r2 == i {
            if t[r1] == id {
                assert(col.contains(id));
            }
        } else {
            let a0 = if r1 < i {
                r1
            } else {
                r1 - 1
            };
            let b0 = if r2 < i {
                r2
            } else {
                r2 - 1
            };
            assert(t[r1] == col[a0] && t[r2] == col[b0]);
        }
    }
    assert forall|x: Seq<char>| #[trigger] t.contains(x) implies (col.contains(x) || x == id) by {
        let j = choose|j: int| 0 <= j < t.len() && t[j] == x;
        if j != i {
            let j0 = if j < i {
                j
            } else {
                j - 1
            };
            assert(col[j0] == x);
        }
    }
    assert forall|x: Seq<char>| col.contains(x) || x == id implies #[trigger] t.contains(x) by {
        if x == id {
            assert(t[i] == x);
        } else {
            let j = choose|j: int| 0 <= j < col.len() && col[j] == x;
            if j < i {
                assert(t[j] == x);
            } else {
                assert(t[j + 1] == x);
            }
        }
    }
}

/// Replacing one list changes the group's id multiset by exactly the
/// difference between the old and new list contents.
proof fn lemma_ids_multiset_update(
    cols: Seq<Seq<Seq<char>>>,
    c: int,
    ncol: Seq<Seq<char>>,
    x: Seq<char>,
)
    requires
        0 <= c < cols.len(),
    ensures
        ids_multiset(cols.update(c, ncol)).count(x) + cols[c].to_multiset().count(x)
            == ids_multiset(cols).count(x) + ncol.to_multiset().count(x),
    decreases cols.len(),
{
    let u = cols.update(c, ncol);
    if c == 0 {
        assert(u.first() == ncol);
        assert(u.drop_first() =~= cols.drop_first());
    } else {
        assert(u.first() == cols.first());
        assert(u.drop_first() =~= cols.drop_first().update(c - 1, ncol));
        lemma_ids_multiset_update(cols.drop_first(), c - 1, ncol, x);
        assert(cols.drop_first()[c - 1] == cols[c]);
    }
}

/// Conservation: a committed drop neither loses nor duplicates an id; the
/// multiset of all panel ids across all lists is invariant.
pub proof fn lemma_reorder_conserves(
    cols: Seq<Seq<Seq<char>>>,
    id: Seq<char>,
    to: int,
    nb: Option<HoveredPanelView>,
)
    requires
        order_wf(cols),
        0 <= to < cols.len(),
    ensures
        ids_multiset(spec_reorder(cols, id, to, nb)) == ids_multiset(cols),
{
    broadcast use group_to_multiset_ensures;

    if !cols_contain(cols, id) {
    } else {
        lemma_location(cols, id);
        lemma_insert_position_bounds(cols, id, to, nb);
        let fi = col_of(cols, id);
        let fr = row_in_col(cols[fi], id);
        let ins = insert_position(cols, id, to, nb);
        let res = spec_reorder(cols, id, to, nb);
        if fi == to {
            let ncol = cols[to].remove(fr).insert(ins, id);
            assert(cols[to].remove(fr).to_multiset() == cols[to].to_multiset().remove(id));
            assert(ncol.to_multiset() == cols[to].to_multiset().remove(id).insert(id));
            assert forall|x: Seq<char>| #[trigger]
                ids_multiset(res).count(x) == ids_multiset(cols).count(x) by {
                lemma_ids_multiset_update(cols, to, ncol, x);
                assert(cols[to].to_multiset().count(id) > 0);
            }
            assert(ids_multiset(res) =~= ids_multiset(cols));
        } else {
            let mid = cols.update(fi, cols[fi].remove(fr));
            let ncol = cols[to].insert(ins, id);
            assert(mid[to] == cols[to]);
            assert(cols[fi].remove(fr).to_multiset() == cols[fi].to_multiset().remove(id));
            assert(ncol.to_multiset() == cols[to].to_multiset().insert(id));
            assert forall|x: Seq<char>| #[trigger]
                ids_multiset(res).count(x) == ids_multiset(cols).count(x) by {
                lemma_ids_multiset_update(cols, fi, cols[fi].remove(fr), x);
                lemma_ids_multiset_update(mid, to, ncol, x);
                assert(cols[fi].to_multiset().count(id) > 0);
            }
            assert(ids_multiset(res) =~= ids_multiset(cols));
        }
    }
}

/// Membership in the reordered lists, list by list: the dragged id now
/// sits in the target list alone; every other id is where it was.
proof fn lemma_reorder_membership(
    cols: Seq<Seq<Seq<char>>>,
    id: Seq<char>,
    to: int,
    nb: Option<HoveredPanelView>,
)
    requires
        order_wf(cols),
        cols_contain(cols, id),
        0 <= to < cols.len(),
    ensures
        spec_reorder(cols, id, to, nb).len() == cols.len(),
        forall|c: int| 0 <= c < cols.len() ==> col_wf(#[trigger] spec_reorder(cols, id, to, nb)[c]),
        forall|c: int, x: Seq<char>|
            0 <= c < cols.len() ==> (#[trigger] spec_reorder(cols, id, to, nb)[c].contains(x) <==> (
            if x == id {
                c == to
            } else {
                cols[c].contains(x)
            })),
{
    lemma_location(cols, id);
    lemma_insert_position_bounds(cols, id, to, nb);
    let fi = col_of(cols, id);
    let fr = row_in_col(cols[fi], id);
    let ins = insert_position(cols, id, to, nb);
    let res = spec_reorder(cols, id, to, nb);
    assert(col_wf(cols[fi]));
    assert(col_wf(cols[to]));
    lemma_col_remove(cols[fi], fr);
    let rem = cols[fi].remove(fr);
    assert(!rem.contains(id));
    if fi == to {
        lemma_col_insert(rem, ins, id);
        assert forall|c: int, x: Seq<char>| 0 <= c < cols.len() implies (#[trigger]
            res[c].contains(x) <==> (if x == id {
                c == to
            } else {
                cols[c].contains(x)
            })) by {
            if c == to {
            } else {
                if x == id && cols[c].contains(id) {
                    if c < fi {
                        assert(!cols[fi].contains(id));
                    } else {
                        assert(!cols[c].contains(id));
                    }
                }
            }
        }
    } else {
        assert(!cols[to].contains(id)) by {
            if cols[to].contains(id) {
                if to < fi {
                    assert(!cols[fi].contains(id));
                } else {
                    assert(!cols[to].contains(id));
                }
            }
        }
        lemma_col_insert(cols[to], ins, id);
        assert forall|c: int, x: Seq<char>| 0 <= c < cols.len() implies (#[trigger]
            res[c].contains(x) <==> (if x == id {
                c == to
            } else {
                cols[c].contains(x)
            })) by {
            if c == fi {
                assert(res[c] == rem);
            } else if c == to {
                assert(res[c] == cols[to].insert(ins, id));
            } else {
                assert(res[c] == cols[c]);
                if x == id && cols[c].contains(id) {
                    if c < fi {
                        assert(!cols[fi].contains(id));
                    } else if fi < c {
                        assert(!cols[c].contains(id));
                    }
                }
            }
        }
    }
}

/// Uniqueness: a committed drop keeps every id in exactly one list.
pub proof fn lemma_reorder_wf(
    cols: Seq<Seq<Seq<char>>>,
    id: Seq<char>,
    to: int,
    nb: Option<HoveredPanelView>,
)
    requires
        order_wf(cols),
        0 <= to < cols.len(),
    ensures
        order_wf(spec_reorder(cols, id, to, nb)),
{
    if !cols_contain(cols, id) {
    } else {
        lemma_reorder_membership(cols, id, to, nb);
        let res = spec_reorder(cols, id, to, nb);
        assert forall|c1: int, c2: int, x: Seq<char>|
            #![trigger res[c1].contains(x), res[c2].contains(x)]
            0 <= c1 < c2 < res.len() && res[c1].contains(x) implies !res[c2].contains(x) by {
            if x == id {
            } else {
                assert(cols[c1].contains(x));
            }
        }
    }
}

proof fn lemma_insert_remove_cancel<A>(s: Seq<A>, i: int, a: A)
    requires
        0 <= i <= s.len(),
    ensures
        s.insert(i, a).remove(i) == s,
{
    s.insert_ensures(i, a);
    let t = s.insert(i, a);
    t.remove_ensures(i);
    assert(t.remove(i) =~= s) by {
        assert forall|q: int| 0 <= q < s.len() implies t.remove(i)[q] == s[q] by {
            if q < i {
                assert(t.remove(i)[q] == t[q]);
            } else {
                assert(t.remove(i)[q] == t[q + 1]);
                assert(t[q + 1] == s[q]);
            }
        }
    }
}

proof fn lemma_remove_insert_cancel<A>(s: Seq<A>, i: int)
    requires
        0 <= i < s.len(),
    ensures
        s.remove(i).insert(i, s[i]) == s,
{
    s.remove_ensures(i);
    let r = s.remove(i);
    r.insert_ensures(i, s[i]);
    assert(r.insert(i, s[i]) =~= s) by {
        assert forall|q: int| 0 <= q < s.len() implies r.insert(i, s[i])[q] == s[q] by {
            if q < i {
            } else if q == i {
            } else {
                assert(r.insert(i, s[i])[(q - 1) + 1] == r[q - 1]);
                assert(r[q - 1] == s[q]);
            }
        }
    }
}

/// Append fallback: dropping with no hovered neighbor appends the dragged
/// id at the end of the target list and removes it from its source list;
/// every other list is untouched.
pub proof fn lemma_append_fallback(cols: Seq<Seq<Seq<char>>>, id: Seq<char>, to: int)
    requires
        order_wf(cols),
        cols_contain(cols, id),
        0 <= to < cols.len(),
    ensures
        ({
            let fi = col_of(cols, id);
            let fr = row_in_col(cols[fi], id);
            let res = spec_reorder(cols, id, to, None);
            &&& (fi == to ==> res[to] == cols[to].remove(fr).push(id))
            &&& (fi != to ==> res[to] == cols[to].push(id) && res[fi] == cols[fi].remove(fr))
            &&& forall|c: int| 0 <= c < cols.len() && c != to && c != fi ==> res[c] == cols[c]
        }),
{
    lemma_location(cols, id);
    lemma_insert_position_bounds(cols, id, to, None);
    let fi = col_of(cols, id);
    let fr = row_in_col(cols[fi], id);
    let ins = insert_position(cols, id, to, None);
    if fi == to {
        let rem = cols[to].remove(fr);
        assert(ins == rem.len());
        assert(rem.insert(ins, id) =~= rem.push(id));
    } else {
        assert(ins == cols[to].len());
        assert(cols[to].insert(ins, id) =~= cols[to].push(id));
    }
}

/// The drag that undoes a completed drop: the dragged id's original list,
/// aiming above its old successor, below its old predecessor when it was
/// last, or appending when it was alone.
pub open spec fn inverse_target(cols: Seq<Seq<Seq<char>>>, id: Seq<char>) -> (
    int,
    Option<HoveredPanelView>,
) {
    let fi = col_of(cols, id);
    let fr = row_in_col(cols[fi], id);
    if fr + 1 < cols[fi].len() {
        (fi, Some(HoveredPanelView { id: cols[fi][fr + 1], position: HoverPosition::Above }))
    } else if 0 < fr {
        (fi, Some(HoveredPanelView { id: cols[fi][fr - 1], position: HoverPosition::Below }))
    } else {
        (fi, None)
    }
}

/// Round trip: a committed drop followed by the inverse drag restores
/// every list exactly.
pub proof fn lemma_round_trip(
    cols: Seq<Seq<Seq<char>>>,
    id: Seq<char>,
    to: int,
    nb: Option<HoveredPanelView>,
)
    requires
        order_wf(cols),
        cols_contain(cols, id),
        0 <= to < cols.len(),
    ensures
        ({
            let (ti, inb) = inverse_target(cols, id);
            spec_reorder(spec_reorder(cols, id, to, nb), id, ti, inb) == cols
        }),
{
    lemma_location(cols, id);
    lemma_insert_position_bounds(cols, id, to, nb);
    lemma_reorder_wf(cols, id, to, nb);
    lemma_reorder_membership(cols, id, to, nb);
    let fi = col_of(cols, id);
    let fr = row_in_col(cols[fi], id);
    let ins = insert_position(cols, id, to, nb);
    let cols2 = spec_reorder(cols, id, to, nb);
    let rem = cols[fi].remove(fr);
    lemma_col_remove(cols[fi], fr);
    cols[fi].remove_ensures(fr);
    assert(col_wf(cols2[fi]));
    assert(col_wf(cols2[to]));

    if fi == to {
        rem.insert_ensures(ins, id);
        assert(cols2[to] == rem.insert(ins, id));
    } else {
        cols[to].insert_ensures(ins, id);
        assert(cols2[to] == cols[to].insert(ins, id));
        assert(cols2[fi] == rem);
    }
    assert(cols2[to][ins] == id);
    lemma_location_unique(cols2, id, to, ins);

    let pair = inverse_target(cols, id);
    let ti = pair.0;
    let inb = pair.1;
    assert(ti == fi);
    let ins2 = insert_position(cols2, id, fi, inb);

    // The inverse insertion lands exactly on the original row.
    if fr + 1 < cols[fi].len() {
        let succ = cols[fi][fr + 1];
        assert(inb == Some(HoveredPanelView { id: succ, position: HoverPosition::Above }));
        assert(rem[fr] == succ);
        if fi == to {
            let t = cols2[fi];
            if ins <= fr {
                assert(t[fr + 1] == rem[fr]);
                lemma_row_unique(t, succ, fr + 1);
                assert(ins2 == fr);
            } else {
                assert(t[fr] == rem[fr]);
                lemma_row_unique(t, succ, fr);
                assert(ins2 == fr);
            }
        } else {
            lemma_row_unique(rem, succ, fr);
            assert(ins2 == fr);
        }
    } else if 0 < fr {
        let pred = cols[fi][fr - 1];
        assert(inb == Some(HoveredPanelView { id: pred, position: HoverPosition::Below }));
        assert(rem[fr - 1] == pred);
        if fi == to {
            let t = cols2[fi];
            if ins <= fr - 1 {
                assert(t[fr] == rem[fr - 1]);
                lemma_row_unique(t, pred, fr);
                assert(ins2 == fr);
            } else {
                assert(ins == fr);
                assert(t[fr - 1] == rem[fr - 1]);
                lemma_row_unique(t, pred, fr - 1);
                assert(ins2 == fr);
            }
        } else {
            lemma_row_unique(rem, pred, fr - 1);
            assert(ins2 == fr);
        }
    } else {
        assert(inb is None);
        assert(rem.len() == 0);
        if fi == to {
            assert(ins == 0);
            assert(cols2[fi].len() == 1);
            assert(ins2 == 0 && fr == 0);
        } else {
            assert(cols2[fi].len() == 0);
            assert(ins2 == 0 && fr == 0);
        }
    }

    // Assemble the restored lists.
    let res = spec_reorder(cols2, id, fi, inb);
    lemma_remove_insert_cancel(cols[fi], fr);
    if fi == to {
        lemma_insert_remove_cancel(rem, ins, id);
        assert(res == cols2.update(fi, cols2[fi].remove(ins).insert(ins2, id)));
        assert(cols2[fi].remove(ins) == rem);
        assert(rem.insert(fr, id) == cols[fi]);
        assert(res =~= cols);
    } else {
        lemma_insert_remove_cancel(cols[to], ins, id);
        assert(res == cols2.update(to, cols2[to].remove(ins)).update(fi, cols2[fi].insert(
            ins2,
            id,
        )));
        assert(cols2[to].remove(ins) == cols[to]);
        assert(cols2[fi].insert(ins2, id) == rem.insert(fr, id));
        assert(rem.insert(fr, id) == cols[fi]);
        assert(res =~= cols);
    }
}

/// Commits a completed drag: removes the dragged id from the list holding
/// it and inserts it at the hover target, correcting the index for a move
/// within one list.  A dragged id held by no list leaves every list
/// unchanged, as does a hovered neighbor that has meanwhile left the
/// target list (the id is then appended there instead).
pub fn reorder_panel_order(
    panel_order: &mut Vec<Vec<String>>,
    currently_dragged_panel: &String,
    hover_info: &HoverInfo,
)
    requires
        order_wf(old(panel_order).deep_view()),
        hover_info@.column_index < old(panel_order)@.len(),
    ensures
        final(panel_order).deep_view() == spec_reorder(
            old(panel_order).deep_view(),
            currently_dragged_panel@,
            hover_info@.column_index,
            hover_info@.panel,
        ),
        order_wf(final(panel_order).deep_view()),
        ids_multiset(final(panel_order).deep_view()) == ids_multiset(
            old(panel_order).deep_view(),
        ),
{
    let ghost cols0 = panel_order.deep_view();
    let ghost idv = currently_dragged_panel@;
    let ghost nb = hover_info@.panel;
    proof {
        assert(cols0.len() == panel_order@.len());
        lemma_reorder_conserves(cols0, idv, hover_info@.column_index, nb);
        lemma_reorder_wf(cols0, idv, hover_info@.column_index, nb);
    }
    let n = panel_order.len();

    let mut from_col: usize = 0;
    let mut from_row: usize = 0;
    let mut found = false;
    let mut c: usize = 0;
    while c < n && !found
        invariant
            n == panel_order@.len(),
            c <= n,
            *panel_order == *old(panel_order),
            cols0 == panel_order.deep_view(),
            idv == currently_dragged_panel@,
            !found ==> forall|j: int| 0 <= j < c ==> !(#[trigger] cols0[j]).contains(idv),
            found ==> {
                &&& (from_col as int) < cols0.len()
                &&& (from_row as int) < cols0[from_col as int].len()
                &&& cols0[from_col as int][from_row as int] == idv
            },
        decreases n - c,
    {
        proof {
            assert(panel_order.deep_view()[c as int] == panel_order@[c as int].deep_view());
        }
        let here = &panel_order[c];
        proof {
            assert(here.deep_view() == panel_order@[c as int].deep_view());
            assert(cols0[c as int] == here.deep_view());
        }
        match crate::hover::index_of_id(here, currently_dragged_panel) {
            Some(r) => {
                proof {
                    assert(here.deep_view()[r as int] == idv);
                    assert(cols0[c as int][r as int] == idv);
                }
                from_col = c;
                from_row = r;
                found = true;
            },
            None => {
                proof {
                    assert(!cols0[c as int].contains(idv)) by {
                        if cols0[c as int].contains(idv) {
                            let q = choose|q: int|
                                0 <= q < cols0[c as int].len() && cols0[c as int][q] == idv;
                            assert(here.deep_view()[q] == idv);
                        }
                    }
                }
            },
        }
        c += 1;
    }

    if !found {
        proof {
            assert(!cols_contain(cols0, idv)) by {
                if cols_contain(cols0, idv) {
                    let cc = choose|cc: int|
                        0 <= cc < cols0.len() && (#[trigger] cols0[cc]).contains(idv);
                }
            }
        }
        return ;
    }

    proof {
        lemma_location_unique(cols0, idv, from_col as int, from_row as int);
        lemma_insert_position_bounds(cols0, idv, hover_info@.column_index, nb);
    }

    let to = hover_info.column_index;
    let target_len = panel_order[to].len();
    proof {
        assert(panel_order.deep_view()[to as int] == panel_order@[to as int].deep_view());
        assert(cols0[to as int].len() == target_len as int);
    }
    let base = match &hover_info.panel {
        Some(p) => {
            match crate::hover::index_of_id(&panel_order[to], &p.id) {
                Some(nr) => {
                    proof {
                        assert(cols0[to as int][nr as int] == p.id@);
                        lemma_row_unique(cols0[to as int], p.id@, nr as int);
                    }
                    if p.position == HoverPosition::Above {
                        nr
                    } else {
                        nr + 1
                    }
                },
                None => {
                    proof {
                        assert(!cols0[to as int].contains(p.id@)) by {
                            if cols0[to as int].contains(p.id@) {
                                let q = choose|q: int|
                                    0 <= q < cols0[to as int].len() && cols0[to as int][q]
                                        == p.id@;
                                assert(panel_order@[to as int].deep_view()[q] == p.id@);
                            }
                        }
                    }
                    target_len
                },
            }
        },
        None => target_len,
    };
    let ins = if from_col == to && from_row < base {
        base - 1
    } else {
        base
    };
    proof {
        assert(ins as int == insert_position(cols0, idv, to as int, nb));
    }

    let moved = panel_order[from_col].remove(from_row);
    let ghost mid = panel_order@;
    proof {
        assert(moved@ == idv);
        let fi = from_col as int;
        let fr = from_row as int;
        let rem = cols0[fi].remove(fr);
        assert(panel_order.deep_view() =~= cols0.update(fi, rem)) by {
            let d = panel_order.deep_view();
            let e = cols0.update(fi, rem);
            cols0[fi].remove_ensures(fr);
            assert forall|ci: int| 0 <= ci < d.len() implies d[ci] == e[ci] by {
                assert(d[ci] == panel_order@[ci].deep_view());
                if ci == fi {
                    let sh0 = old(panel_order)@[ci]@;
                    let sh1 = panel_order@[ci]@;
                    assert(sh1 == sh0.remove(fr));
                    sh0.remove_ensures(fr);
                    assert(panel_order@[ci].deep_view() =~= rem) by {
                        let dv = panel_order@[ci].deep_view();
                        assert forall|q: int| 0 <= q < sh1.len() implies dv[q] == rem[q] by {
                            assert(dv[q] == sh1[q]@);
                            if q < fr {
                                assert(sh1[q] == sh0[q]);
                                assert(cols0[ci][q] == sh0[q]@);
                                assert(rem[q] == cols0[ci][q]);
                            } else {
                                assert(sh1[q] == sh0[q + 1]);
                                assert(cols0[ci][q + 1] == sh0[q + 1]@);
                                assert(rem[q] == cols0[ci][q + 1]);
                            }
                        }
                    }
                } else {
                    assert(panel_order@[ci] == old(panel_order)@[ci]);
                    assert(d[ci] =~= cols0[ci]);
                }
            }
        }
    }
    let ghost cols1 = panel_order.deep_view();
    panel_order[to].insert(ins, moved);
    proof {
        let ti = to as int;
        let ii = ins as int;
        let colsF = panel_order.deep_view();
        let grown = cols1[ti].insert(ii, idv);
        assert(colsF =~= cols1.update(ti, grown)) by {
            let e = cols1.update(ti, grown);
            assert forall|ci: int| 0 <= ci < colsF.len() implies colsF[ci] == e[ci] by {
                assert(colsF[ci] == panel_order@[ci].deep_view());
                if ci == ti {
                    let sh0 = mid[ci]@;
                    let sh1 = panel_order@[ci]@;
                    assert(sh1 == sh0.insert(ii, moved));
                    sh0.insert_ensures(ii, moved);
                    cols1[ci].insert_ensures(ii, idv);
                    assert(panel_order@[ci].deep_view() =~= grown) by {
                        let dv = panel_order@[ci].deep_view();
                        assert forall|q: int| 0 <= q < sh1.len() implies dv[q] == grown[q] by {
                            assert(dv[q] == sh1[q]@);
                            if q < ii {
                                assert(sh1[q] == sh0[q]);
                                assert(cols1[ci][q] == sh0[q]@);
                                assert(grown[q] == cols1[ci][q]);
                            } else if q == ii {
                                assert(sh1[q] == moved);
                                assert(grown[q] == idv);
                            } else {
                                assert(sh1[q] == sh0[q - 1]);
                                assert(grown[(q - 1) + 1] == cols1[ci][q - 1]);
                                assert(cols1[ci][q - 1] == sh0[q - 1]@);
                            }
                        }
                    }
                } else {
                    assert(panel_order@[ci] == mid[ci]);
                    assert(colsF[ci] =~= cols1[ci]);
                }
            }
        }
        if from_col == to {
            assert(colsF =~= spec_reorder(cols0, idv, to as int, nb));
        } else {
            assert(cols1[to as int] =~= cols0[to as int]);
            assert(colsF =~= spec_reorder(cols0, idv, to as int, nb));
        }
    }
}

} // verus!
