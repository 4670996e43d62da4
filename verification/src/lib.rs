//! Game rules of a small two-tank shooter: which arrow keys are held and
//! what they ask the player's tank to do each frame, and how the shots in
//! flight are settled against the two tanks.
//!
//! Positions, angles and the collision shape are floating-point values and
//! live with the program that draws the game; this crate holds the decisions.

pub mod input;
pub mod combat;
