//! Simulation engine for an uncontrolled four-way intersection.
//!
//! Vehicles spawn on one of four approaches, follow a fixed lane geometry
//! (straight through, or one snap turn at a waypoint), and yield per tick so
//! that no two footprints ever overlap.  The engine also accumulates
//! statistics: cars passed, give-way events, and transit-time extremes.

mod host;
pub mod cars;
pub mod laws;
pub mod model;
pub mod report;
pub mod types;
