//! Reads the exported HTML documents of a blog into articles, orders and indexes them,
//! and lays out every page of the static site built from them.

pub mod blog;
pub mod context;
pub mod date;
pub mod error;
pub mod html;
pub mod routes;
