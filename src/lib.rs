//! Incremental collector of repository contributions (commits, issues and
//! pull requests) for a contribution-card site: the deduplicating cache
//! tables and their merge, the resume cursor, the paginator, the token pool,
//! the per-repository task that ties them together, and the rules the site's
//! build and deployment follow.

pub mod text;
pub mod table;
pub mod error;
pub mod clock;
pub mod records;
pub mod store;
pub mod api;
pub mod pool;
pub mod collector;
pub mod config;
pub mod site;
pub mod deploy;
