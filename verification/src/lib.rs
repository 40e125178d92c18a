//! Trajectory-solving core for an artillery aiming helper.
//!
//! The library normalizes two user-marked screen points into a physical
//! target offset, enumerates the (speed, angle) pairs that land a projectile
//! on that offset, ranks them so that values closest to a whole number come
//! first, and groups them into ten-degree angle bands for display.
//!
//! Platform input (key polling, cursor and window queries) sits behind the
//! [`platform::Handle`] trait and is implemented outside the library.

pub mod math;
pub mod platform;
pub mod report;
pub mod session;
