//! Content handling for a personal site: front-matter parsing, post lists and pages.
pub mod content;
pub mod dates;
pub mod embedded;
pub mod generate;
pub mod markdown;
pub mod order;
pub mod records;
pub mod text;
pub mod types;
pub mod view;
