//! A device-control scheduler for haptic actuators: strengths, durations and
//! patterns, per-device settings, actuator selection, a per-actuator priority
//! stack that arbitrates overlapping commands, the scheduler state machine
//! that turns control actions into device commands, the control-plane state
//! that issues handles, and pattern playback with its step-list format.

pub mod speed;
pub mod stack;
pub mod settings;
pub mod actuator;
pub mod devices;
pub mod selector;
pub mod scheduler;
pub mod telekinesis;
pub mod player;
pub mod pattern;
