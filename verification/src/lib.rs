//! Query algebra, saved-filter language and workbench rules of a booru viewer.
use vstd::prelude::*;

pub mod text;
pub mod model;
pub mod filter_expression;
pub mod filter_laws;
pub mod query_laws;
pub mod config;
pub mod filter_bank;
pub mod date;
pub mod date_spool;
pub mod panels;
pub mod media;
pub mod worker;
pub mod configuration;
pub mod contract;
pub mod commands;
pub mod frost;
pub mod index;
pub mod saved_filter_ui;
pub mod query_ui;
pub mod xdg;
pub mod workbench;
pub mod refresh;
pub mod evaluate;
pub mod warm;
pub mod completion;
pub mod viewer;
pub mod witness;
pub mod delta;
pub mod surface_laws;
pub mod tag_palette;
pub mod restore;
pub mod suggest;
pub mod status;

verus! {
}
