//! Verified core of a standalone guitar amp player: signal-chain routing,
//! noise-gate hysteresis, tuner sample windows and note naming, JACK port
//! matching and device wiring, path comparison by components, remote-control
//! request parsing and the small settings rules shared by the user interface.

pub mod capture;
pub mod chain;
pub mod eq_position;
pub mod paths;
pub mod gate;
pub mod ports;
pub mod remote;
pub mod samples;
pub mod selection;
pub mod text;
pub mod tray;
pub mod tuner;
