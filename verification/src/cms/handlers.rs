pub mod builds;
pub mod packages;
