//! A compositor that keeps one visual and one swap chain for each surface of a
//! window, and another pair for the popup nested in it.
//!
//! It decides and keeps the books; the host owns the graphics objects and makes
//! the calls. See [`protocol`] for how the two work together.

pub mod agreement;
pub mod conduct;
pub mod construction;
pub mod devices;
pub mod diagnostics;
pub mod frame;
pub mod gate;
pub mod handles;
pub mod history;
pub mod lifecycle;
pub mod operation;
pub mod outcome;
pub mod output;
pub mod ownership;
pub mod paint;
pub mod popup;
pub mod properties;
pub mod protocol;
pub mod rebuild;
pub mod recovery;
pub mod registry;
pub mod resume;
pub mod screen;
pub mod state;
pub mod status;
pub mod surface;
pub mod swap_chain;
pub mod transition;
