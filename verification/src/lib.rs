//! A static-site templating library: escape-aware token substitution, a
//! front-matter/section document splitter, key=value configuration parsing,
//! a depth-first directory-walk state machine, and the per-page render
//! pipeline that drives a site build.
pub mod config;
pub mod doc;
pub mod errors;
pub mod paths;
pub mod render;
pub mod rss;
pub mod strmap;
pub mod tags;
pub mod text;
pub mod walk;
