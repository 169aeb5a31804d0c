//! An extensible markup parsing and rendering engine: an ordered block-rule
//! scanner, a marker-indexed inline-rule scanner, a polymorphic syntax-tree
//! node model, a type-keyed extension-state store, a multi-pass document
//! rewrite pipeline, and a rendering contract shared by all node payloads.
pub mod text;
pub mod node;
pub mod extset;
pub mod footnote;
pub mod footnote_definitions;
pub mod footnote_references;
pub mod footnote_inline;
pub mod footnote_collect;
pub mod fence;
pub mod front_matter;
pub mod citation;
pub mod contact_info;
pub mod nl2br;
pub mod renderer;
pub mod parser;
pub mod inline;
pub mod block;
pub mod inkjet;
pub mod kagi_plugins;
pub mod preprocess;
pub mod autolinks;
pub mod github_slugger;
pub mod math;
pub mod math_inline;
pub mod math_display;

use vstd::prelude::*;

verus! {

} // verus!
