use vstd::prelude::*;

pub mod artwork;
pub mod control;
pub mod input;
pub mod library;
pub mod listview;
pub mod media;
pub mod models;
pub mod queue;
pub mod ranking;
pub mod search;
pub mod settings;
pub mod text;
pub mod timefmt;
pub mod track;
pub mod view;

verus! {

} // verus!
