//! A custodial balance ledger: a single vault record that tracks the pooled
//! balance, one record per depositor identity tracking that depositor's
//! withdrawable share, and the deposit / withdraw operations that keep the
//! aggregate, the individual balances and the underlying custody in lockstep.

pub mod errors;
pub mod flows;
pub mod ledger;
pub mod model;
pub mod records;
