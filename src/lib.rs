//! Fixed-point monetary amounts with checked arithmetic and a sign-partitioned
//! credit/debt algebra.
pub mod codec;
pub mod kind;
pub mod numeric;
pub mod fixed;
pub mod asset;
pub mod laws;
pub mod decimal;

pub use asset::{Asset, CheckedOps, Credit, Debt};
pub use fixed::{ArrayWrapper, ByteArray, Fixed, HasBound, HasFixedOps, IsFixed};
pub use kind::{get_inner_len, pow_10, AssetKind};
pub use numeric::buffer_is_negative;
