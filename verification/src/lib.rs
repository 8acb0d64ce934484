//! Push planning for a Git-compatible version-control tool: which commits a
//! bookmark update must transfer to a remote, and whether policy lets it go.
//! Beside it, the rendering of commit timestamps.

pub mod ancestry;
pub mod classify;
pub mod commit;
pub mod graph;
pub mod plan;
pub mod privacy;
pub mod resolver;
pub mod time_util;
pub mod tracking;
pub mod walk;
