//! Core of a home-automation hub: a canonical registry of devices reported by
//! pluggable integrations, reconciliation of reported state against desired
//! state, group flattening, scene activation and cycling, and a declarative
//! rule engine. All communication between subsystems happens through tagged
//! bus messages; the surrounding process owns the actual queue and the
//! integration I/O, and drives this library one message at a time.

pub mod device;
pub mod group;
pub mod devices;
pub mod dispatch;
pub mod scene;
pub mod message;
pub mod rules;
