//! Persistent widget state trees and their reconciliation with freshly built
//! widget trees, together with the decisions a platform shell takes about its
//! surfaces, input and session lock.
//!
//! A [`tree::Tree`] mirrors the shape of the widget tree and holds each
//! widget's state across frames. Each frame, [`tree::Tree::diff`] reconciles
//! it with the new [`tree::Element`] tree: state is kept where the type tag
//! matches, named widgets take their state back wherever they moved (after
//! [`tree::Tree::take_all_named`]), and everything else is built afresh.
use vstd::prelude::*;

pub mod clipboard;
pub mod conversion;
pub mod dnd;
pub mod event_loop;
pub mod highlighter;
pub mod id;
pub mod laws;
pub mod operation;
pub mod shell;
pub mod surface;
pub mod tag;
pub mod tree;
