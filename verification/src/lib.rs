//! Physical quantities for aerospace calculations: a type for each kind of
//! quantity (length, velocity, mass, force, pressure, angle, mass flow rate,
//! specific impulse), each holding one double-precision scalar in its
//! canonical SI unit, with constructors and accessors for the units of the
//! trade, arithmetic between quantities of one kind, and the formula of
//! specific impulse. A quantity of one kind is never taken for one of
//! another: the types keep them apart.
//!
//! A scalar is held as its IEEE 754 binary64 encoding and every operation on
//! it is done on the encoding, in whole numbers. Each encoding is read as
//! the exact value it stands for, and each operation is proved to give the
//! scalar that the exact result rounds to, so that what a conversion or an
//! operator returns is stated exactly, bit for bit.

pub mod arithmetic;
pub mod laws;
pub mod prelude;
pub mod rounding;
pub mod scalar;
pub mod text;
pub mod units;
