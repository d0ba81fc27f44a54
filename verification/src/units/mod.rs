//! The kinds of quantity, one module each.

pub mod angle;
pub mod force;
pub mod length;
pub mod mass;
pub mod mass_flow_rate;
pub mod pressure;
pub mod specific_impulse;
pub mod velocity;
