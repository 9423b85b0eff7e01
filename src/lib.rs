//! An intent-based swap router for constant-product liquidity pools.
//!
//! - `uint`, `address`: 256-bit words and 160-bit addresses.
//! - `amm`: swap output and price impact from reserves.
//! - `packing`: compact word layouts for pool data, and a fixed-capacity route.
//! - `pair`, `index`: normalized token pairs and the keyed stores of ids.
//! - `registry`: the pool registry with its pair and chain indices.
//! - `router`: the basic router.
//! - `secure_router`: the security-hardened router and its validation pipeline.
//! - `orbit`: chain-dependent settlement and disputes.
pub mod address;
pub mod amm;
pub mod error;
pub mod index;
pub mod orbit;
pub mod packing;
pub mod pair;
pub mod registry;
pub mod router;
pub mod secure_router;
pub mod uint;

pub use address::Address;
pub use error::Error;
pub use uint::U256;
