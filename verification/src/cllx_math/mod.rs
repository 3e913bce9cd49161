//! The cllX-Math layer: a reversible integer transform applied to each
//! chunk before authenticated encryption.
pub mod sums;
pub mod matrix;
pub mod encode;
pub mod mask;
pub mod transform;

pub use transform::CllxTransform;
