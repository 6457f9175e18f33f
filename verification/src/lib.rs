//! Deterministic fault injection for distributed protocols: an event
//! generator driven by a byte stream, and the decisions of the driver
//! that schedules, partitions and records what it generated.
//!
//! The library decides and never waits, sends or writes: a caller hands it
//! commands and bytes, carries out what it answers, and hands back what
//! happened.

pub mod message;
pub mod fuzzy_command;
pub mod fuzzy_event;
pub mod fuzzy_setting;

pub mod entropy;
pub mod node_set;
pub mod rank_order;
pub mod event_gen;
pub mod fuzzy_generator;
pub mod generator_laws;

pub mod concurrent;
pub mod partition_state;
pub mod fuzzy_driver;
pub mod driver_laws;

pub mod texts;
pub mod fuzzy;
pub mod event_sequence;

pub mod fuzzy_server;
pub mod initializer;
