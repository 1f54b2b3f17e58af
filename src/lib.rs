//! A Koch snowflake traced by a turtle on the triangular lattice.
//!
//! Every heading the curve ever takes is a multiple of 60 degrees, and every
//! segment length is an integer once the unit is fine enough, so the turtle
//! works on exact lattice coordinates: a point `(a, b)` stands for
//! `a * e0 + b * e60`, where `e0` is the unit vector at 0 degrees and `e60` the
//! unit vector at 60 degrees. Turning into screen pixels is left to the caller.

pub mod lattice;
pub mod turtle;
pub mod curve;
pub mod controller;
