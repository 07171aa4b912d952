//! Guest-side boundary layer for a host that owns pins, Wi-Fi, HTTP and MQTT.
//!
//! Every host entry point takes and returns plain integers; this library holds
//! what the guest decides around those calls: the closed enumerations behind
//! the raw codes, the checks on host-written buffers, and the subscription
//! registries that decide which callback handle an event reaches. An
//! in-memory host built on the same registries lets all of it run off-device.

pub mod levels;
pub mod marshal;
pub mod interrupts;
pub mod mqtt;
pub mod host;
