//! Userspace fan-control logic: piecewise-linear curves mapping hwmon
//! temperatures to PWM duty values, composite temperature combination,
//! rate-limited actuation, and the resolution of configured sensors and
//! fans to sysfs paths.

pub mod alist;
pub mod arith;
pub mod composite;
pub mod config;
pub mod control;
pub mod curve;
pub mod error;
pub mod text;
