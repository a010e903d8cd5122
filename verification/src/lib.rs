//! Change tracking for a watched directory tree: sessions, changes and
//! commits, the store that keeps them consistent, line diffs, the event
//! pipeline, and the planning of rollbacks.

pub mod api;
pub mod clock;
pub mod diff;
pub mod digest;
pub mod error;
pub mod ident;
pub mod json;
pub mod models;
pub mod rollback;
pub mod rows;
pub mod storage;
pub mod text;
pub mod watcher;

pub use error::Error;
pub use models::{Change, ChangeType, Commit, CommitInfo, Session};
pub use storage::Storage;
