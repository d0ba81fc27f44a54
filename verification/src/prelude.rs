//! The quantity types and the scalar they hold, for one import.

pub use crate::scalar::Scalar;
pub use crate::units::angle::Angle;
pub use crate::units::force::Force;
pub use crate::units::force::ForceUnit;
pub use crate::units::length::Length;
pub use crate::units::mass::Mass;
pub use crate::units::mass_flow_rate::MassFlowRate;
pub use crate::units::pressure::Pressure;
pub use crate::units::pressure::PressureUnit;
pub use crate::units::specific_impulse::SpecificImpulse;
pub use crate::units::velocity::Velocity;
