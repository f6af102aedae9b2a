//! The items most programs need, for a single `use`.

pub use togo::prelude::Point;
pub use togo::prelude::point;
pub use crate::nfp_convex::{NFPConvex, NfpError, to_arcline};
pub use crate::nfp_points::{NFP, polygon};
pub use crate::datagen::DataGen;
