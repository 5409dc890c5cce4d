//! Duplicate-code detection over normalized syntax trees.
//!
//! Source code is normalized into [`node::NormalizedNode`] trees in which
//! identifiers become positional placeholders and literal values are erased.
//! Equal trees share a [`fingerprint::Fingerprint`]; trees that are merely
//! alike are compared with a Dice coefficient over matching nodes.
pub mod node;
pub mod reindex;
pub mod similarity;
pub mod stable_hash;
pub mod fingerprint;
pub mod text;
pub mod code_unit;
pub mod extractor;
pub mod union_find;
pub mod grouper;
pub mod near_groups;
pub mod normalization_context;
pub mod rust_syntax;
pub mod rust_parse;
pub mod rust_normal_form;
pub mod rust_normalizer;
pub mod rust_units;
pub mod rust_renaming;
pub mod ts_normal_form;
pub mod ts_normalizer;
pub mod ignore;
pub mod config;
pub mod analysis;
pub mod cli;
pub mod scanner;
pub mod kind_table;
pub mod mapping;
pub mod python;
pub mod fixtures;

use vstd::prelude::*;

verus! {

} // verus!
