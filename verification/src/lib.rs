//! A small record manager for a population of creatures: entities gain
//! experience and level up, eligible pairs produce offspring, and the
//! population can be sorted and carried through a line-oriented text format.

pub mod chance;
pub mod codec;
pub mod entity;
pub mod ids;
pub mod sorting;
pub mod store;
pub mod text;
