//! Core of a terminal dashboard that decodes byte buffers stored in a
//! key-value store into numeric signals and renders them as pannable,
//! zoomable time-series and frequency-domain charts.
//!
//! This crate holds the verified parts: the binary codec, the viewport
//! arithmetic, the spectrum-pipeline and background-worker state machines,
//! and the text formatting of values.  The unverified shell around it owns
//! the terminal, the store connection and all floating-point rendering.

pub mod codec;
pub mod dashboard;
pub mod data;
pub mod edit;
pub mod spectrum;
pub mod stream;
pub mod workers;
pub mod textfmt;
pub mod value;
pub mod viewport;
