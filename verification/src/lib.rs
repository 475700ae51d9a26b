//! Sunrise and sunset times from a closed-form solar position
//! approximation, computed in fixed-point micro-unit arithmetic.

pub mod arith;
pub mod calendar;
pub mod solar;
