//! transaction-manager maintains a set of client ledger accounts and applies
//! an ordered stream of transactions (deposits, withdrawals, disputes,
//! resolves, chargebacks) to them, enforcing funds-availability and
//! dispute-lifecycle rules.
//!
//! Monetary values are fixed point: an `i64` counts ten-thousandths
//! (0.0001) of a currency unit, so every representable amount has exactly
//! four decimal places and balance arithmetic is exact.

/// Fixed-point rounding of monetary values to four decimal places.
pub mod amount;

/// Association lists read as finite maps, with the lemmas that relate
/// list operations to map operations.
pub mod assoc;

/// A client account with id, balances, status, and previous transactions.
pub mod client;

/// A client transaction with id, type, client id, and amount.
pub mod transaction;

/// The errors that can come from improper transactions.
pub mod transaction_error;

/// The ledger driver: routes each transaction to its client account.
pub mod transaction_manager;
