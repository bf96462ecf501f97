//! A style cascade and box-model layout engine: selector matching with
//! specificity, unit resolution, a three-pass layout over a document tree,
//! and an id surface for hit-testing.

pub mod text;
pub mod css;
pub mod layout;
pub mod document;
pub mod font;
pub mod engine;
pub mod util;
pub mod paint;
pub mod sheet;
pub mod event;
pub mod element;
