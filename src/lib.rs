//! Classification of feed items: tag rules that attach tags to items, and
//! folders whose boolean predicate trees decide which items they hold.

pub mod error;
pub mod models;
pub mod pattern;
pub mod tag;
pub mod text;
pub mod time;
pub mod folder;
pub mod logger;
