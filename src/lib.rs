//! A finite-difference integrator for the wave equation on a regular 2D
//! grid: row-major grid geometry with a fixed zero boundary, initial
//! conditions, a double-buffered explicit stepper and an energy sum.
//!
//! The library is generic over the scalar type of the field. A scheme's
//! arithmetic (symplectic Euler on displacement and velocity, or three-level
//! central differences) is a rule on one cell's stencil handed to
//! `Simulation::step`; the contracts state each step in terms of that rule.
pub mod grid;
pub mod init;
pub mod pattern;
pub mod simulation;
