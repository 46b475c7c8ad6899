//! A chunk-tree projection engine for tagged-chunk binary documents
//! (game-engine databases, map trees, map units and save data), shown as a
//! navigable tree.
//!
//! The core is in two halves. The projectors in [`views`] turn each document
//! kind into a list of labelled tree nodes, in a raw form (every wire-level
//! chunk, unknown tags included) and an interpreted form (semantically named
//! fields). The emitter in [`tree`] walks that list and assigns every node a
//! structural 64-bit identifier by each schema's bit-budget table. The
//! proofs in [`tree_props`] establish the engine's guarantees: no two
//! emitted nodes share an identifier, the emitted calls nest correctly, each
//! projected root yields exactly one top-level node, and identifiers and
//! structure never depend on the selected code page — changing the code page
//! changes label text alone. Projection is a pure function of the document,
//! the code page and the view mode, so every pass over the same state emits
//! the identical call sequence.
//!
//! Text-bearing fields are decoded through the code page of [`code_page`] at
//! projection time, and [`app`] holds the session: the opened documents, the
//! active selection and the code-page and view-mode toggles.

pub mod app;
pub mod code_page;
pub mod project;
pub mod text;
pub mod tree;
pub mod tree_props;
pub mod views;
