//! Build pipeline of a small static site builder.
//!
//! Each content file is classified as skipped, copied or rendered, and its
//! output path derived (`classify`); the files and folders that a walk of the
//! content tree found are listed in a fixed order (`scan`, `order`); the
//! maps that templates read are assembled (`context`, `text`); the writes of
//! a build are planned, with an error page for a page that fails
//! (`render`); change notifications are filtered (`watch`) and turned into
//! builds, one at a time and debounced (`schedule`).
pub mod paths;
pub mod classify;
pub mod lists;
pub mod order;
pub mod scan;
pub mod tree;
pub mod text;
pub mod context;
pub mod render;
pub mod watch;
pub mod schedule;
pub mod config;
