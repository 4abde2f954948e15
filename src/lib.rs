//! Brightness control: response curves, unit conversion, target resolution,
//! stepped transitions and the sensor-driven control step.
pub mod arith;
pub mod attribute;
pub mod control;
pub mod convert;
pub mod curve;
pub mod request;
pub mod transition;
