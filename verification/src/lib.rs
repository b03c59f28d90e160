//! Core logic for a tick-driven real-time simulation: asynchronous path
//! computation scheduling with per-owner supersession, waypoint-based motion
//! control with arrival tolerance, and simple resource bookkeeping.
//!
//! Positions are held in fixed-point integer coordinates (hundredths of a
//! world unit), so every rule about distances, velocities and arrival can be
//! stated and proved exactly.

pub mod geometry;
pub mod gold_resource;
pub mod movement;
pub mod pathfinding;
pub mod supply;
