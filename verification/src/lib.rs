//! Core of a persistent-connection gateway: sessions with heartbeat
//! supervision, an envelope codec for the wire format, a dispatcher, and
//! subsystem workers that each keep a registry of reply destinations.

pub mod error;
pub mod json;
pub mod message;
pub mod python_repo;
pub mod route;
pub mod subsystem;
