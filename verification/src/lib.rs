//! A small wiki engine core: titles are mapped to reversible slugs, every
//! document keeps an append-only history of immutable revisions beside a
//! "current" copy, and Markdown is rendered to HTML with unresolved
//! reference links turned into links to other documents.

pub mod catalog;
pub mod config;
pub mod history;
pub mod layout;
pub mod media;
pub mod pages;
pub mod render;
pub mod slug;
pub mod store;
pub mod text;
