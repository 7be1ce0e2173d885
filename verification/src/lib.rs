//! The rules of dust disposal: which outputs of a wallet are dust, which unconfirmed disposals
//! a new one can merge, and the transaction that burns the dust as fee.
//!
//! - [`dust`] tells dust from other outputs, lists it and selects it by address.
//! - [`disposal`] recognises disposal transactions in a mempool.
//! - [`batch`] chooses those that a replacement merges.
//! - [`spend`] lays out the transaction to sign.
//! - [`session`] leads through these, from the wallets to that transaction.
//! - [`psbt`] takes it from its signed form to the network.
//! - [`wallet`] plans wallets from descriptors and brings them up to date.
//! - [`calc`] gives the sizes of disposal transactions.
//! - [`tx`], [`script`], [`size`], [`address`], [`chain`] and [`lists`] are what these speak of.
pub mod address;
pub mod batch;
pub mod calc;
pub mod chain;
pub mod disposal;
pub mod dust;
pub mod lists;
pub mod psbt;
pub mod script;
pub mod session;
pub mod size;
pub mod spend;
pub mod tx;
pub mod wallet;
