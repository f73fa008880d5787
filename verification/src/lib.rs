//! The decision core of a bot that plays five-minute "up or down" windows of a
//! crypto asset: it buys the favourite with its whole stack, compounds the
//! wins, and sells in a hurry when its guard turns red.
//!
//! Every quantity is a fixed-point integer, so that each rule is an exact
//! statement about integers; see [`fixed`] for the units.

pub mod book;
pub mod clock;
pub mod config;
pub mod dashboard;
pub mod engines;
pub mod fixed;
pub mod grinder;
pub mod live;
pub mod paper;
pub mod position;
pub mod remote_guard;
pub mod settle;
pub mod state;
pub mod sweep_laws;
pub mod text;
pub mod tokyo;
pub mod types;
