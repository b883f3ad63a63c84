//! A configurable, layered CPU cache simulator.
//!
//! The crate models a hierarchy of set-associative caches, each parameterised
//! by a replacement policy, and runs fixed-width memory-access traces through
//! the hierarchy while counting per-level hits and misses.

pub mod arith;

pub mod config;

pub mod replacement_policies;

pub mod cache;

pub mod clock;

pub mod simulator;

pub mod properties;
