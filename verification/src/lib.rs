//! Verified core of a small static blog generator: text handling,
//! front matter framing, post ordering, tag statistics, pagination,
//! feed and markdown assembly, and the editor's state transitions.

pub mod text;
pub mod html;
pub mod date;
pub mod config;
pub mod sort;
pub mod content;
pub mod tags;
pub mod paging;
pub mod feed;
pub mod markdown;
pub mod site;
pub mod gui;
pub mod prepare;
