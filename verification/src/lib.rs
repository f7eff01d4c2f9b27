//! A config-update protocol and a weighted fee-distribution engine for
//! transactional ledger programs.
//!
//! The update engine loads a persisted configuration, applies a sparse set
//! of field updates to an unvalidated draft, re-validates, persists and
//! reports an audit event, gated by an optional access check. The fee
//! engine splits sets of fungible-asset balances into per-recipient
//! transfer instructions and an exactly-accounted remainder.

pub mod addr;
pub mod asset;
pub mod coins;
pub mod config;
pub mod decimal;
pub mod fee_config;

pub use decimal::Decimal;
pub use decimal::DECIMAL_FRACTIONAL;
