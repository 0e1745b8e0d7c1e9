//! A daytime server library: the time payload it sends and the decisions of
//! its TCP and UDP responders, with their contracts.

pub mod timestamp;
pub mod clock;
pub mod responder;
pub mod config;
