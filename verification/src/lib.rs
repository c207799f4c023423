//! Verified core of the PCB impedance desk: board and stack-up models,
//! the impedance result cache, the solver request rules, the template
//! list rules and the state machine behind the desktop front end.
//!
//! Physical quantities (impedances, widths, thicknesses, dielectric
//! constants, delays) are held as exact thousandths of their unit in
//! unsigned integers, so `50.5` ohm is `50_500`.
pub mod text;
pub mod number;
pub mod models;
pub mod cache;
pub mod ids;
pub mod solver;
pub mod templates;
pub mod desk;
pub mod laws;
