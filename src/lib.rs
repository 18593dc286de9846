//! An incremental site builder: a memoizing build graph over a model of the
//! file system, plus the rules of its watch loop and development server.

pub mod modified;
pub mod disk;
pub mod asset;
pub mod staleness;
pub mod request;
pub mod reload;
pub mod watch;
pub mod template;
pub mod reviews;
pub mod util;
pub mod date;
pub mod blog;
