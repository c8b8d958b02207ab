//! Link-utilization monitoring and one-shot automated mitigation.
//!
//! The library holds the decision logic of the monitor: reading interface
//! counters out of the kernel's device table, turning two counter snapshots
//! into per-interval deltas, classifying utilization into severity bands with
//! hysteresis, detecting sustained overload, deciding when the single
//! mitigation action fires, and encoding the records of the metrics and event
//! logs. Everything that touches the operating system lives outside it.
pub mod device;
pub mod text;
pub mod rate;
pub mod bands;
pub mod breach;
pub mod mitigation;
pub mod record;
pub mod monitor;
