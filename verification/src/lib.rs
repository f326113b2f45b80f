//! Core engine for dragging items between and within ordered lists.
//!
//! A reorder group holds several lists ("columns" or "rows") of panel ids.
//! While a panel is dragged, pointer coordinates are resolved against the
//! registered element geometry to a live hover target — the list and the
//! neighboring panel the drop would land next to — and on drop the ordered
//! id lists are rewritten to realize the move.  The presentation layer that
//! renders elements and delivers pointer events stays outside: it reports
//! geometry and events as plain values and reads the resulting order back.

pub mod context;
pub mod geometry;
pub mod hover;
pub mod registry;
pub mod reorder;
