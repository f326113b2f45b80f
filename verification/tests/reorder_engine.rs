use drag_reorder::hover::{HoverInfo, HoverPosition, HoveredPanel};
use drag_reorder::reorder::reorder_panel_order;

fn s(x: &str) -> String {
    x.to_string()
}

fn cols(lists: &[&[&str]]) -> Vec<Vec<String>> {
    lists.iter().map(|l| l.iter().map(|x| s(x)).collect()).collect()
}

fn target(column_index: usize, neighbor: Option<(&str, HoverPosition)>) -> HoverInfo {
    HoverInfo {
        column_index,
        panel: neighbor.map(|(id, position)| HoveredPanel { id: s(id), position }),
    }
}

/// All ids across all lists, sorted: the conserved quantity.
fn all_ids_sorted(order: &Vec<Vec<String>>) -> Vec<String> {
    let mut ids: Vec<String> = order.iter().flatten().cloned().collect();
    ids.sort();
    ids
}

fn assert_each_id_once(order: &Vec<Vec<String>>) {
    let ids = all_ids_sorted(order);
    for w in ids.windows(2) {
        assert_ne!(w[0], w[1], "id {} appears twice in {:?}", w[0], order);
    }
}

#[test]
fn same_list_index_correction() {
    let mut order = cols(&[&["1", "3"]]);
    reorder_panel_order(&mut order, &s("1"), &target(0, Some(("3", HoverPosition::Below))));
    assert_eq!(order, cols(&[&["3", "1"]]));
}

#[test]
fn same_list_above_keeps_place() {
    // Dropping "1" right back above its own successor moves nothing.
    let mut order = cols(&[&["1", "3"]]);
    reorder_panel_order(&mut order, &s("1"), &target(0, Some(("3", HoverPosition::Above))));
    assert_eq!(order, cols(&[&["1", "3"]]));
}

#[test]
fn cross_list_move() {
    let mut order = cols(&[&["1", "3"], &["2"]]);
    reorder_panel_order(&mut order, &s("3"), &target(1, Some(("2", HoverPosition::Above))));
    assert_eq!(order, cols(&[&["1"], &["3", "2"]]));
}

#[test]
fn cross_list_move_below() {
    let mut order = cols(&[&["1", "3"], &["2"]]);
    reorder_panel_order(&mut order, &s("1"), &target(1, Some(("2", HoverPosition::Below))));
    assert_eq!(order, cols(&[&["3"], &["2", "1"]]));
}

#[test]
fn append_fallback_cross_list() {
    let mut order = cols(&[&["1", "3"], &["2"]]);
    reorder_panel_order(&mut order, &s("1"), &target(1, None));
    assert_eq!(order, cols(&[&["3"], &["2", "1"]]));
}

#[test]
fn append_fallback_same_list() {
    let mut order = cols(&[&["1", "2", "3"]]);
    reorder_panel_order(&mut order, &s("1"), &target(0, None));
    assert_eq!(order, cols(&[&["2", "3", "1"]]));
}

#[test]
fn append_fallback_empty_list() {
    let mut order = cols(&[&["1", "3"], &[]]);
    reorder_panel_order(&mut order, &s("3"), &target(1, None));
    assert_eq!(order, cols(&[&["1"], &["3"]]));
}

#[test]
fn missing_neighbor_appends() {
    // The hovered neighbor left the target list before the drop: append.
    let mut order = cols(&[&["1", "3"], &["2"]]);
    reorder_panel_order(&mut order, &s("1"), &target(1, Some(("9", HoverPosition::Above))));
    assert_eq!(order, cols(&[&["3"], &["2", "1"]]));
}

#[test]
fn unknown_dragged_id_is_noop() {
    let mut order = cols(&[&["1", "3"], &["2"]]);
    reorder_panel_order(&mut order, &s("9"), &target(1, Some(("2", HoverPosition::Above))));
    assert_eq!(order, cols(&[&["1", "3"], &["2"]]));
}

#[test]
fn neighbor_is_dragged_id_keeps_place() {
    let mut order = cols(&[&["1", "3"]]);
    reorder_panel_order(&mut order, &s("1"), &target(0, Some(("1", HoverPosition::Above))));
    assert_eq!(order, cols(&[&["1", "3"]]));
}

#[test]
fn round_trip_cross_list() {
    let before = cols(&[&["1", "3"], &["2"]]);
    let mut order = before.clone();
    reorder_panel_order(&mut order, &s("3"), &target(1, Some(("2", HoverPosition::Above))));
    assert_eq!(order, cols(&[&["1"], &["3", "2"]]));
    // "3" was last in list 0, after "1": the inverse drags it back below "1".
    reorder_panel_order(&mut order, &s("3"), &target(0, Some(("1", HoverPosition::Below))));
    assert_eq!(order, before);
}

#[test]
fn round_trip_same_list() {
    let before = cols(&[&["1", "3"]]);
    let mut order = before.clone();
    reorder_panel_order(&mut order, &s("1"), &target(0, Some(("3", HoverPosition::Below))));
    assert_eq!(order, cols(&[&["3", "1"]]));
    // "1" originally sat above "3": the inverse drags it back above "3".
    reorder_panel_order(&mut order, &s("1"), &target(0, Some(("3", HoverPosition::Above))));
    assert_eq!(order, before);
}

#[test]
fn round_trip_from_singleton_list() {
    let before = cols(&[&["1", "3"], &["2"]]);
    let mut order = before.clone();
    reorder_panel_order(&mut order, &s("2"), &target(0, Some(("1", HoverPosition::Above))));
    assert_eq!(order, cols(&[&["2", "1", "3"], &[]]));
    // "2" was alone in list 1: the inverse appends it back there.
    reorder_panel_order(&mut order, &s("2"), &target(1, None));
    assert_eq!(order, before);
}

#[test]
fn conservation_and_uniqueness_over_many_moves() {
    let mut order = cols(&[&["1", "2"], &["3", "4", "5"], &["6", "7"]]);
    let ids_before = all_ids_sorted(&order);
    let moves: Vec<(&str, usize, Option<(&str, HoverPosition)>)> = vec![
        ("1", 1, Some(("4", HoverPosition::Below))),
        ("6", 0, None),
        ("3", 2, Some(("7", HoverPosition::Above))),
        ("4", 1, Some(("5", HoverPosition::Below))),
        ("7", 0, Some(("2", HoverPosition::Above))),
        ("2", 2, None),
        ("5", 1, Some(("9", HoverPosition::Above))),
        ("1", 0, Some(("1", HoverPosition::Below))),
    ];
    for (id, col, nb) in moves {
        reorder_panel_order(&mut order, &s(id), &target(col, nb));
        assert_eq!(all_ids_sorted(&order), ids_before);
        assert_each_id_once(&order);
        assert_eq!(order.len(), 3);
    }
}
