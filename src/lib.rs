//! Resource-lifetime management and redraw logic for a small X11 diagnostic
//! program: scoped native handles, a reference-counted handle table with
//! release ordering, visual selection, the event-driven redraw state machine,
//! the per-character font rotation of the label, and the colour probe checks.
pub mod font;
pub mod handle;
pub mod probe;
pub mod redraw;
pub mod session;
pub mod table;
pub mod visual;
