//! A text-editing core built around a height-balanced rope.
//!
//! The rope stores a document as a binary tree over chunks of characters and
//! supports logarithmic insertion and removal together with line-oriented
//! addressing.  On top of it sits a text buffer that keeps aggregate caches
//! and an undo/redo log of algebraic edit actions, plus the small pieces of
//! editor state (commands, input state, word-chunk scanning) that work on
//! plain values.

pub mod charseq;
pub mod rope;
pub mod vector;
pub mod action;
pub mod textrope;
pub mod command;
pub mod parse;
pub mod cursor;
pub mod editor;
pub mod inputstate;
