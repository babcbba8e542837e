//! From the switches of a keyboard to the reports it sends.
//!
//! Once per cycle the switch matrix is scanned ([`keymatrix`]), the scan is
//! debounced into press and release events ([`debounce`]), the events drive
//! an engine of layers, taps and holds ([`engine`]), and what the engine
//! holds is rendered as a keyboard report ([`report`]). [`scheduler`] puts
//! the cycle together. The layers are written key after key as the board
//! shows them and arranged onto the wiring of the matrix ahead of time
//! ([`wiring`], [`action`]); [`alice`] holds the wiring and the keys of one
//! board.
//!
//! Everything here works on plain values. Pins, timers, the watchdog and the
//! USB bus stay with the caller, which performs the operations this crate
//! hands out and reports back what happened.

pub mod action;
pub mod alice;
pub mod debounce;
pub mod engine;
pub mod event;
pub mod grid;
pub mod keycode;
pub mod keymatrix;
pub mod report;
pub mod scheduler;
pub mod stack;
pub mod wiring;
