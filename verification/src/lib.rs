//! Project scaffolding: a template data model, a template store, and the
//! two transformations on templates, instantiation and evolution.

pub mod builder;
pub mod casing;
pub mod config;
pub mod create;
pub mod dialogue;
pub mod error;
pub mod keyed;
pub mod prelude;
pub mod store;
pub mod template;
pub mod text;
pub mod updater;
