//! Time-synchronization subsystem of a battery-powered e-paper gadget.
//!
//! The device wakes once a day, reads a battery-backed real-time-clock chip
//! over a software-driven two-wire bus, and renders an answer on a panel.
//! In pairing mode it listens to short-range radio broadcasts, extracts an
//! embedded timestamp from an advertisement payload, seeds the clock chip
//! with it and restarts.
//!
//! This crate holds the verified core of that subsystem: the advertisement
//! time decoder, the bit-level two-wire bus engine, the clock-chip register
//! client, and the orchestration logic that glues them together. The bus
//! engine drives a pair of digital lines through the [`pins::BusPins`]
//! capability trait, so everything here runs and verifies against a simulated
//! pin implementation with no hardware dependency.

pub mod bluetooth;
pub mod config;
pub mod pins;
pub mod rtc;
pub mod softwire;
