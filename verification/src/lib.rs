//! Device discovery, connection supervision and sensor ingestion for
//! wearable motion sensors.
//!
//! Sensors report over serial ports that come and go, or over the network.
//! Every producer puts the raw messages that pass its filter on one queue;
//! one consumer parses them and keeps the latest reading of each known
//! device for as long as it is fresh.
//!
//! The library makes the decisions and never waits, reads a clock or
//! touches a device: the caller hands it what was read and what time it is.
//! Instants are counts of milliseconds.
//!
//! - [`fila`]: the queue between the producers and the consumer.
//! - [`texto`]: decoding, matching, trimming and splitting of messages.
//! - [`tempo`]: ages of instants.
//! - [`comm`]: the table of connected and quarantined ports.
//! - [`escuta`]: the decisions of the serial and network listeners.
//! - [`sensor`]: the registry of readings.

pub mod fila;
pub mod texto;
pub mod tempo;
pub mod sensor;
pub mod comm;
pub mod escuta;
