use drag_reorder::context::{provide_drag_reorder, DragReorderContext};
use drag_reorder::geometry::{Orientation, Rect};
use drag_reorder::hover::{HoverInfo, HoverPosition};

fn s(x: &str) -> String {
    x.to_string()
}

fn cols(lists: &[&[&str]]) -> Vec<Vec<String>> {
    lists.iter().map(|l| l.iter().map(|x| s(x)).collect()).collect()
}

fn rect(left: i32, top: i32, width: i32, height: i32) -> Rect {
    Rect { left, top, width, height }
}

/// Two side-by-side columns of 100x400, with panels "1" and "3" stacked in
/// the first column and "2" at the top of the second; like the two-column
/// board of the stacked orientation.
fn stacked_board() -> DragReorderContext {
    let mut ctx = provide_drag_reorder(cols(&[&["1", "3"], &["2"]]), Orientation::Stacked);
    ctx.register_list(0, Some(rect(0, 0, 100, 400)));
    ctx.register_list(1, Some(rect(100, 0, 100, 400)));
    ctx.register_panel(s("1"), Some(rect(0, 0, 100, 100)));
    ctx.register_panel(s("3"), Some(rect(0, 100, 100, 100)));
    ctx.register_panel(s("2"), Some(rect(100, 0, 100, 100)));
    ctx
}

fn hover_of(ctx: &DragReorderContext) -> Option<(usize, Option<(String, HoverPosition)>)> {
    match ctx.current_hover() {
        Some(HoverInfo { column_index, panel }) => Some((
            *column_index,
            panel.as_ref().map(|p| (p.id.clone(), p.position)),
        )),
        None => None,
    }
}

#[test]
fn group_starts_with_initial_order() {
    let ctx = provide_drag_reorder(cols(&[&["1", "3"], &["2"]]), Orientation::Stacked);
    assert_eq!(ctx.column_count(), 2);
    assert_eq!(*ctx.column(0), cols(&[&["1", "3"]])[0]);
    assert_eq!(*ctx.column(1), cols(&[&["2"]])[0]);
    assert!(hover_of(&ctx).is_none());
}

#[test]
fn resolves_nearest_panel_above() {
    let mut ctx = stacked_board();
    ctx.on_drag_start(s("2"));
    let changed = ctx.on_pointer_move(20, 40);
    assert!(changed);
    assert_eq!(hover_of(&ctx), Some((0, Some((s("1"), HoverPosition::Above)))));
}

#[test]
fn resolves_nearest_panel_below() {
    let mut ctx = stacked_board();
    ctx.on_drag_start(s("2"));
    ctx.on_pointer_move(20, 160);
    assert_eq!(hover_of(&ctx), Some((0, Some((s("3"), HoverPosition::Below)))));
}

#[test]
fn pointer_at_center_counts_as_below() {
    let mut ctx = stacked_board();
    ctx.on_drag_start(s("2"));
    // The center of "3" sits at y = 150; exactly there is not above.
    ctx.on_pointer_move(20, 150);
    assert_eq!(hover_of(&ctx), Some((0, Some((s("3"), HoverPosition::Below)))));
}

#[test]
fn panel_distance_tie_goes_to_earlier_row() {
    let mut ctx = stacked_board();
    ctx.on_drag_start(s("2"));
    // y = 100 is equally far from the centers of "1" (50) and "3" (150).
    ctx.on_pointer_move(20, 100);
    assert_eq!(hover_of(&ctx), Some((0, Some((s("1"), HoverPosition::Below)))));
}

#[test]
fn column_distance_tie_goes_to_earlier_column() {
    let mut ctx = stacked_board();
    ctx.on_drag_start(s("1"));
    // x = 100 is equally far from the column centers 50 and 150.
    ctx.on_pointer_move(100, 40);
    assert_eq!(hover_of(&ctx).unwrap().0, 0);
}

#[test]
fn other_columns_panels_are_not_candidates() {
    let mut ctx = stacked_board();
    ctx.on_drag_start(s("1"));
    // Over column 1, whose only member is "2", even though "1" and "3"
    // have registered geometry nearer some pointer heights.
    ctx.on_pointer_move(180, 160);
    assert_eq!(hover_of(&ctx), Some((1, Some((s("2"), HoverPosition::Below)))));
}

#[test]
fn unregistered_panel_is_skipped() {
    let mut ctx = stacked_board();
    ctx.unregister_panel(&s("1"));
    ctx.on_drag_start(s("2"));
    ctx.on_pointer_move(20, 40);
    assert_eq!(hover_of(&ctx), Some((0, Some((s("3"), HoverPosition::Above)))));
}

#[test]
fn registering_none_is_unregistering() {
    let mut ctx = stacked_board();
    ctx.register_panel(s("1"), None);
    ctx.on_drag_start(s("2"));
    ctx.on_pointer_move(20, 40);
    assert_eq!(hover_of(&ctx), Some((0, Some((s("3"), HoverPosition::Above)))));
}

#[test]
fn last_panel_registration_wins() {
    let mut ctx = stacked_board();
    // Move "1"'s reported box to the bottom of the column.
    ctx.register_panel(s("1"), Some(rect(0, 300, 100, 100)));
    ctx.on_drag_start(s("2"));
    ctx.on_pointer_move(20, 40);
    assert_eq!(hover_of(&ctx), Some((0, Some((s("3"), HoverPosition::Above)))));
    ctx.on_pointer_move(20, 360);
    assert_eq!(hover_of(&ctx), Some((0, Some((s("1"), HoverPosition::Below)))));
}

#[test]
fn column_without_members_resolves_to_append() {
    let mut ctx = provide_drag_reorder(cols(&[&["1"], &[]]), Orientation::Stacked);
    ctx.register_list(0, Some(rect(0, 0, 100, 400)));
    ctx.register_list(1, Some(rect(100, 0, 100, 400)));
    ctx.register_panel(s("1"), Some(rect(0, 0, 100, 100)));
    ctx.on_drag_start(s("1"));
    ctx.on_pointer_move(180, 40);
    assert_eq!(hover_of(&ctx), Some((1, None)));
    ctx.on_drag_end();
    assert_eq!(*ctx.column(0), Vec::<String>::new());
    assert_eq!(*ctx.column(1), vec![s("1")]);
}

#[test]
fn no_registered_list_publishes_nothing() {
    let mut ctx = provide_drag_reorder(cols(&[&["1", "3"], &["2"]]), Orientation::Stacked);
    ctx.register_panel(s("1"), Some(rect(0, 0, 100, 100)));
    ctx.on_drag_start(s("1"));
    let changed = ctx.on_pointer_move(20, 40);
    assert!(!changed);
    assert!(hover_of(&ctx).is_none());
}

#[test]
fn unregistered_list_is_skipped() {
    let mut ctx = stacked_board();
    ctx.unregister_list(0);
    ctx.on_drag_start(s("1"));
    ctx.on_pointer_move(20, 40);
    assert_eq!(hover_of(&ctx).unwrap().0, 1);
}

#[test]
fn republishing_same_target_reports_no_change() {
    let mut ctx = stacked_board();
    ctx.on_drag_start(s("2"));
    assert!(ctx.on_pointer_move(20, 40));
    assert!(!ctx.on_pointer_move(25, 45));
    assert!(ctx.on_pointer_move(20, 160));
}

#[test]
fn transposed_rows_swap_the_axes() {
    let mut ctx = provide_drag_reorder(cols(&[&["1", "3"], &["2"]]), Orientation::Transposed);
    ctx.register_list(0, Some(rect(0, 0, 400, 100)));
    ctx.register_list(1, Some(rect(0, 100, 400, 100)));
    ctx.register_panel(s("1"), Some(rect(0, 0, 100, 100)));
    ctx.register_panel(s("3"), Some(rect(100, 0, 100, 100)));
    ctx.register_panel(s("2"), Some(rect(0, 100, 100, 100)));
    ctx.on_drag_start(s("2"));
    ctx.on_pointer_move(160, 30);
    assert_eq!(hover_of(&ctx), Some((0, Some((s("3"), HoverPosition::Below)))));
    ctx.on_pointer_move(40, 30);
    assert_eq!(hover_of(&ctx), Some((0, Some((s("1"), HoverPosition::Above)))));
}

#[test]
fn drop_commits_the_hovered_move() {
    let mut ctx = stacked_board();
    ctx.on_drag_start(s("3"));
    // Over column 1, upper half of "2": insert above it.
    ctx.on_pointer_move(180, 40);
    assert_eq!(hover_of(&ctx), Some((1, Some((s("2"), HoverPosition::Above)))));
    ctx.on_drag_end();
    assert_eq!(*ctx.column(0), vec![s("1")]);
    assert_eq!(*ctx.column(1), vec![s("3"), s("2")]);
}

#[test]
fn abandoned_drag_changes_nothing() {
    let mut ctx = stacked_board();
    ctx.on_drag_start(s("3"));
    // No pointer move was resolved, so no hover target is published.
    ctx.on_drag_end();
    assert_eq!(*ctx.column(0), cols(&[&["1", "3"]])[0]);
    assert_eq!(*ctx.column(1), cols(&[&["2"]])[0]);
}

#[test]
fn drag_end_without_drag_changes_nothing() {
    let mut ctx = stacked_board();
    ctx.on_drag_end();
    assert_eq!(*ctx.column(0), cols(&[&["1", "3"]])[0]);
    assert_eq!(*ctx.column(1), cols(&[&["2"]])[0]);
}

#[test]
fn drag_state_tracks_the_dragged_panel() {
    let mut ctx = stacked_board();
    assert!(!ctx.is_dragging(&s("1")));
    ctx.on_drag_start(s("1"));
    assert!(ctx.is_dragging(&s("1")));
    assert!(!ctx.is_dragging(&s("3")));
    // A dragstart during a drag replaces it: the last start wins.
    ctx.on_drag_start(s("3"));
    assert!(!ctx.is_dragging(&s("1")));
    assert!(ctx.is_dragging(&s("3")));
}

#[test]
fn draggable_flag_defaults_to_false_and_is_recorded() {
    let mut ctx = stacked_board();
    assert!(!ctx.draggable(&s("1")));
    ctx.set_draggable(s("1"), true);
    assert!(ctx.draggable(&s("1")));
    assert!(!ctx.draggable(&s("3")));
    ctx.set_draggable(s("1"), false);
    assert!(!ctx.draggable(&s("1")));
}

#[test]
fn deferred_clear_resets_state_once() {
    let mut ctx = stacked_board();
    ctx.set_draggable(s("3"), true);
    ctx.on_drag_start(s("3"));
    ctx.on_pointer_move(180, 40);
    ctx.on_drag_end();
    // The commit ran; dragged id and hover survive until the deferred tick.
    assert!(ctx.is_dragging(&s("3")));
    assert!(hover_of(&ctx).is_some());
    ctx.clear_after_drag(&s("3"));
    assert!(!ctx.is_dragging(&s("3")));
    assert!(hover_of(&ctx).is_none());
    assert!(!ctx.draggable(&s("3")));
    // Running the cleanup again finds nothing to clear.
    ctx.clear_after_drag(&s("3"));
    assert!(!ctx.is_dragging(&s("3")));
}

#[test]
fn stale_clear_does_not_disturb_a_new_drag() {
    let mut ctx = stacked_board();
    ctx.on_drag_start(s("1"));
    ctx.on_drag_start(s("3"));
    ctx.set_draggable(s("3"), true);
    // The deferred cleanup of "1"'s drag fires after "3" started dragging.
    ctx.clear_after_drag(&s("1"));
    assert!(ctx.is_dragging(&s("3")));
    assert!(ctx.draggable(&s("3")));
}

#[test]
fn hover_position_shows_at_the_hovered_panel_only() {
    let mut ctx = stacked_board();
    ctx.on_drag_start(s("2"));
    ctx.on_pointer_move(20, 160);
    assert_eq!(hover_of(&ctx), Some((0, Some((s("3"), HoverPosition::Below)))));
    assert_eq!(ctx.hover_position_for(&s("3")), Some(HoverPosition::Below));
    assert_eq!(ctx.hover_position_for(&s("1")), None);
    assert_eq!(ctx.hover_position_for(&s("2")), None);
}

#[test]
fn hover_position_is_hidden_at_the_dragged_panel() {
    let mut ctx = stacked_board();
    ctx.on_drag_start(s("3"));
    ctx.on_pointer_move(20, 160);
    assert_eq!(hover_of(&ctx), Some((0, Some((s("3"), HoverPosition::Below)))));
    assert_eq!(ctx.hover_position_for(&s("3")), None);
}

#[test]
fn hover_position_is_hidden_for_a_noop_drop() {
    let mut ctx = stacked_board();
    ctx.on_drag_start(s("1"));
    // Hovering the upper half of "3" while dragging "1", which already
    // sits right above "3": the drop would change nothing.
    ctx.on_pointer_move(20, 110);
    assert_eq!(hover_of(&ctx), Some((0, Some((s("3"), HoverPosition::Above)))));
    assert_eq!(ctx.hover_position_for(&s("3")), None);
    // The lower half is a real move, so it shows.
    ctx.on_pointer_move(20, 160);
    assert_eq!(ctx.hover_position_for(&s("3")), Some(HoverPosition::Below));
}

#[test]
fn hover_position_without_drag_shows_nothing() {
    let mut ctx = stacked_board();
    assert_eq!(ctx.hover_position_for(&s("1")), None);
    assert_eq!(ctx.hover_position_for(&s("3")), None);
}

#[test]
fn full_drag_lifecycle_round_trip() {
    let mut ctx = stacked_board();
    ctx.set_draggable(s("3"), true);
    ctx.on_drag_start(s("3"));
    ctx.on_pointer_move(180, 40);
    ctx.on_drag_end();
    ctx.clear_after_drag(&s("3"));
    assert_eq!(*ctx.column(0), vec![s("1")]);
    assert_eq!(*ctx.column(1), vec![s("3"), s("2")]);
    // Geometry moved with the panels; report the new boxes and drag back.
    ctx.register_panel(s("3"), Some(rect(100, 0, 100, 100)));
    ctx.register_panel(s("2"), Some(rect(100, 100, 100, 100)));
    ctx.set_draggable(s("3"), true);
    ctx.on_drag_start(s("3"));
    ctx.on_pointer_move(20, 180);
    assert_eq!(hover_of(&ctx), Some((0, Some((s("1"), HoverPosition::Below)))));
    ctx.on_drag_end();
    ctx.clear_after_drag(&s("3"));
    assert_eq!(*ctx.column(0), vec![s("1"), s("3")]);
    assert_eq!(*ctx.column(1), vec![s("2")]);
}
