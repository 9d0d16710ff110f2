//! Small verified utilities around a toy armor suit: a stack-shaped list of
//! armor components with a version-repair policy, a text-command parser for a
//! suit control grammar, and a handful of numeric and sequence helpers.

pub mod basics;
pub mod communicator;
pub mod linkedlist;
