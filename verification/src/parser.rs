pub mod nepolish;
pub mod polish;
