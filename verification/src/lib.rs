//! Core logic of a terminal git client: graph layout, diff staging,
//! conflict resolution, stash parsing and the small rules around them.
use vstd::prelude::*;

pub mod app;
pub mod askpass;
pub mod branches;
pub mod celebrate;
pub mod conflict;
pub mod drag;
pub mod enrich;
pub mod event;
pub mod focus;
pub mod git;
pub mod graph;
pub mod help;
pub mod join;
pub mod mutate;
pub mod palette;
pub mod rebase;
pub mod remote;
pub mod slide;
pub mod staging;
pub mod stash;
pub mod submodule;
pub mod text;
pub mod ui;
pub mod undo;
pub mod visibility;
pub mod watcher;
pub mod working;

verus! {

} // verus!
