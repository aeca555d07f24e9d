//! An in-process metrics and log collector paired with the state machine and
//! rendering model of a live terminal dashboard.
//!
//! The collector ([`store::ClogTracker`]) accepts scalar measurements grouped
//! into named series and an append-only log sequence. The dashboard side
//! ([`dashboard::TerminalUI`]) owns the search query, the input mode and the
//! current selection, and [`render::render_frame`] is a pure function from a
//! store snapshot and the dashboard state to a frame description that a
//! drawing backend can paint.
//!
//! Measured values are carried as the raw bit patterns of IEEE 754 doubles,
//! so that every query over them stays exact; presentation layers convert
//! back to floating-point numbers when painting.

pub mod chart;
pub mod clock;
pub mod dashboard;
pub mod laws;
pub mod query;
pub mod render;
pub mod store;
pub mod text;
