//! Reusable planning components shared by every archetype policy.
//!
//! Layering: [`board`] holds the seat-general view of the table, and every
//! other planner reads only that. Nothing here submits an action; a policy
//! decides, using these answers.

pub mod board;
pub mod combat;
pub mod completeness;
pub mod mana;
pub mod payment;
pub mod target;
pub mod threat;
