//! Core of a Markdown blog pipeline: front-matter parsing, content rendering
//! with a derived table of contents, an article repository with sorting and a
//! tag index, and three syndication feed formats (JSON Feed, RSS 2.0, Atom).

pub mod anchors;
pub mod dates;
pub mod escape;
pub mod feeds;
pub mod highlight;
pub mod matter;
pub mod render;
pub mod repo;
pub mod search;
pub mod slug;
pub mod tags;
pub mod toc;
pub mod text;
