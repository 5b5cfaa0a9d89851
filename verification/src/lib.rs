//! A session and user-account daemon core: a line-oriented user store with
//! session tokens, lockout accounting, and a three-tier overlay over an
//! immutable on-disk constant database.

use vstd::prelude::*;

pub mod args;
pub mod assoc;
pub mod manager;
pub mod paths;
pub mod protocol;
pub mod save;
pub mod session;
pub mod text;
pub mod tokens;
pub mod user;
pub mod user_map;

verus! {

/// Number of consecutive authentication failures after which an account locks.
pub const LOCK_COUNT: u64 = 5;

/// Seconds of inactivity after which a session expires.
pub const SESSION_PERIOD: i64 = 3600;

/// The largest clock reading the manager accepts: adding a session period to
/// it still fits in an `i64`.
pub const MAX_NOW: i64 = i64::MAX - SESSION_PERIOD;

} // verus!
