//! Follow-the-leader inverse kinematics for a chain of rigid, width-varying
//! segments.
//!
//! The chain bends each frame so that its head stays aimed at a moving target:
//! the head segment re-aims at the target, and every later segment re-aims at
//! the trailing point of the one before it.  The chain can also be regenerated
//! in place when its parameters (segment count, length, widths) change, and a
//! target tracker decides each frame what position the chain should aim at —
//! the live input position, a frozen one while paused, or a drifting one while
//! the input is absent.
//!
//! All geometry is exact integer arithmetic: positions are integer coordinates
//! (in whatever unit the caller picks), and a segment's orientation is kept as
//! the integer direction vector it was last aimed along together with that
//! vector's rounded magnitude.  Walking `length` along an orientation scales
//! the direction vector to length `length`, rounding each component toward
//! zero.
#![verifier::loop_isolation(false)]

pub mod geometry;
pub mod segment;
pub mod chain;
pub mod tracker;
pub mod driver;
pub mod laws;
