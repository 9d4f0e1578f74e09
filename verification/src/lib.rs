//! Query engine for an interactive data table: search, sort, and pagination
//! over an in-memory dataset.
//!
//! The engine is a pure function of the dataset, the column descriptors, and
//! the user-driven view state. It produces the rows to display, the number of
//! pages, and the current page clamped into range. Rendering, event wiring,
//! and URL persistence are the host's concern and live outside this crate.

pub mod engine;
pub mod filter;
pub mod paging;
pub mod sort;
pub mod text;
pub mod types;
