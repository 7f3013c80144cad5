//! An arena-indexed document tree as the element graph that a CSS
//! selector-matching and cascade engine asks for, and the geometric
//! queries that event dispatch asks of the laid-out tree.
//!
//! - [`arena`], [`node`], [`tree`], [`update`]: the arena of nodes, the
//!   node record, the two trees that the nodes form, and their invariant.
//! - [`handle`]: the cursor over the arena, and navigation.
//! - [`text`], [`element`], [`matching`], [`engine`]: attributes, classes,
//!   identifiers, pseudo-classes and pseudo-elements.
//! - [`hints`], [`number`], [`size_number`]: declarations that presentation
//!   attributes stand for.
//! - [`style`], [`traversal`], [`capabilities`]: what the engine keeps on
//!   each node while it restyles, and its fixed answers.
//! - [`geometry`]: hit testing and document positions.
//! - [`content`], [`outline`]: text, blocks and listings of a subtree.
//! - [`fetch`], [`decode`]: how a resource is fetched and decoded.
//! - [`laws`]: what holds across these.

pub mod arena;
pub mod capabilities;
pub mod content;
pub mod decode;
pub mod element;
pub mod engine;
pub mod fetch;
pub mod geometry;
pub mod handle;
pub mod hints;
pub mod laws;
pub mod matching;
pub mod node;
pub mod number;
pub mod outline;
pub mod size_number;
pub mod style;
pub mod text;
pub mod traversal;
pub mod tree;
pub mod update;
