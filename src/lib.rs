//! A toroidal arcade field: a ship, its bullets, asteroids that fragment when
//! shot, and short-lived particles. Positions and velocities are fixed-point
//! integers (`UNIT` sub-units per pixel), so every rule below is exact.
pub mod geometry;
pub mod entities;
pub mod game;
