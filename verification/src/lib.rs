//! Core of a small turn-based auto-battler: two rosters of units fight one
//! front-slot pair at a time until one side is eliminated, after which
//! currency and trophy rewards are granted and the player roster is restored.
//!
//! All timing is expressed in integer milliseconds and all fractional
//! quantities (easing curves, animation percentages, scales) in a fixed-point
//! scale where [`animate::FIX_ONE`] stands for 1.0, so that every rule of the
//! battle engine can be stated and proved exactly.

pub mod animate;
pub mod buddy;
pub mod counters;
pub mod pad;
pub mod battle;
