//! A rope of point masses, the circular zones it is steered through, and the
//! session that edits, runs and scores it.
//!
//! All of it works on integers. A coordinate or a length is a number of
//! ticks, 65536 to the world unit ([`fixed::UNIT`]); the world reaches 2^31
//! units from the origin along each axis, and whatever would move beyond
//! stops at its edge. A duration is a number of microseconds. Where a rope
//! is jiggled, the host hands in the randomness: a pair of uniform 16-bit
//! draws for each link.
//!
//! The modules, from the ground up:
//!
//! - [`fixed`]: clamping, truncating division, integer square root;
//! - [`vector`]: points and displacements;
//! - [`zone`]: discs, with containment and projection onto the boundary;
//! - [`rope`]: point masses, links, and the rope with its integrator and
//!   solver; [`rope_laws`] and [`relax_laws`] hold what is proved of them;
//! - [`level`] and [`levels`]: what a level holds, and the levels there are;
//! - [`tracking`]: which zone a point is in, and what the touches score;
//! - [`main_game`]: the session, with [`main_game_laws`];
//! - [`tutorial`], [`data`], [`win`]: the tutorial's steps, the stored
//!   settings, and the state a finished session leaves.

pub mod data;
pub mod fixed;
pub mod level;
pub mod levels;
pub mod main_game;
pub mod main_game_laws;
pub mod relax_laws;
pub mod rope;
pub mod rope_laws;
pub mod tracking;
pub mod tutorial;
pub mod vector;
pub mod win;
pub mod zone;
