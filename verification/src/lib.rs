//! Core of a terminal text editor: a multi-line text buffer with cursor and
//! selection semantics, plus a word-wrap and scroll engine that adapts the
//! buffer to a fixed-size character grid.
pub mod buffer;
pub mod text;
pub mod editor;
pub mod views;
