//! A retained-mode widget-tree core: an arena node store, a keyed tree
//! diff engine, an integer flexbox-like layout engine, an event dispatcher
//! and a render-primitive extractor.
//!
//! Each frame the application declares a fresh widget tree; the diff engine
//! reconciles it against the committed tree, preserving node identity for
//! keyed matches, the layout engine resolves sizes and positions, events are
//! routed to the deepest interested node by z-order, and the extractor emits
//! a flat, paint-ordered list of primitives for a renderer to consume.

pub mod geom;
pub mod style;
pub mod layout;
pub mod widget;
pub mod store;
pub mod diff;
pub mod events;
pub mod extract;
