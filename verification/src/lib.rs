//! A static-site content pipeline: markdown posts rendered to HTML with
//! stable heading anchors, standalone-image layout and bidirectional
//! footnote links, and a small template preprocessing language that splices
//! post content, style-sheet links, tables of contents, cross-post listings,
//! metadata values and file includes into page templates.

pub mod anchors;
pub mod classify;
pub mod config;
pub mod error;
pub mod escape;
pub mod events;
pub mod feed;
pub mod fs_action;
pub mod html;
pub mod post;
pub mod strutil;
pub mod template;
pub mod utils;
