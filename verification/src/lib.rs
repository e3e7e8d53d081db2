//! Verified core of a bare-repository worktree manager.
//!
//! The crate models the decision logic of a command-line tool that keeps a
//! bare repository store with sibling worktree directories and lets the user
//! address a worktree by (fuzzy) branch name:
//!
//! - [`inventory`] parses the machine-readable worktree listing of the
//!   version-control system into branch/path records;
//! - [`resolve`] turns a user token and an inventory into a resolution:
//!   exact match first, then fuzzy scoring with a stable descending sort,
//!   then data for interactive disambiguation;
//! - [`lifecycle`] plans the clone/fetch/add/remove/switch/pull operations
//!   as exact command lines and decisions for an unverified shell to run;
//! - [`errors`] fixes the failure kinds and their process exit codes;
//! - [`text`] holds the character-level string utilities the above build on.
//!
//! All process spawning, file-system access and terminal interaction lives
//! outside this crate; the functions here compute, from plain values, what
//! must be executed, printed or asked.

pub mod errors;
pub mod inventory;
pub mod lifecycle;
pub mod resolve;
pub mod text;
