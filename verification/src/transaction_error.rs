use vstd::prelude::*;

use crate::client::Client;
use crate::transaction::Transaction;

verus! {

/// The errors that can be encountered when attempting to apply
/// transactions incorrectly.
#[derive(Clone, Copy, PartialEq, Eq, Structural, Debug)]
pub enum TransactionErrorTypes {
    /// A deposit or withdrawal attempted with zero or negative amount.
    NonPositiveAmount,
    /// A deposit or withdrawal attempted with no amount specified.
    MissingRequiredAmount,
    /// A dispute, resolve, or chargeback attempted with an amount specified.
    HasMeaninglessAmount,
    /// A withdrawal attempted with an amount greater than the available funds.
    InsufficientFunds,
    /// A dispute, resolve, or chargeback referencing an unknown transaction id.
    InvalidIdReferenced,
    /// A client initialized with any transaction type other than deposit.
    FirstTransactionNotDeposit,
    /// Any transaction attempted on a locked account.
    AccountLocked,
    /// A rare failure outside the ledger rules proper: here, a balance
    /// update whose result would leave the range representable in `i64`.
    Unspecified,
}

/// A transaction error has a type and captures the transaction/account
/// environment in which it occurred.
#[derive(Debug)]
pub struct TransactionError {
    /// One of the specified error types.
    pub error_type: TransactionErrorTypes,
    /// The transaction that caused the error.
    pub transaction: Transaction,
    /// The client account that the transaction was attempted on, exactly
    /// as it stood before the rejected attempt.
    pub client: Client,
}

impl TransactionError {
    /// The message that `message` yields for each error type.
    pub open spec fn message_spec(self) -> Seq<char> {
        match self.error_type {
            TransactionErrorTypes::NonPositiveAmount => {
                "Negative or zero value provided for transaction amount."@
            },
            TransactionErrorTypes::MissingRequiredAmount => {
                "Deposit or withdrawel without specified amount."@
            },
            TransactionErrorTypes::HasMeaninglessAmount => {
                "Dispute, resolve, or chargeback with specified amount."@
            },
            TransactionErrorTypes::InsufficientFunds => "Insufficient funds for transaction."@,
            TransactionErrorTypes::InvalidIdReferenced => {
                "Dispute, resolve, or chargeback with invalid id."@
            },
            TransactionErrorTypes::FirstTransactionNotDeposit => {
                "First transaction is not deposit."@
            },
            TransactionErrorTypes::AccountLocked => {
                "Attempted to apply transaction to locked account."@
            },
            TransactionErrorTypes::Unspecified => "Unspecified."@,
        }
    }

    /// A readable error message for each specified type.
    pub fn message(&self) -> (r: &'static str)
        ensures
            r@ == self.message_spec(),
    {
        match self.error_type {
            TransactionErrorTypes::NonPositiveAmount => {
                "Negative or zero value provided for transaction amount."
            },
            TransactionErrorTypes::MissingRequiredAmount => {
                "Deposit or withdrawel without specified amount."
            },
            TransactionErrorTypes::HasMeaninglessAmount => {
                "Dispute, resolve, or chargeback with specified amount."
            },
            TransactionErrorTypes::InsufficientFunds => "Insufficient funds for transaction.",
            TransactionErrorTypes::InvalidIdReferenced => {
                "Dispute, resolve, or chargeback with invalid id."
            },
            TransactionErrorTypes::FirstTransactionNotDeposit => {
                "First transaction is not deposit."
            },
            TransactionErrorTypes::AccountLocked => {
                "Attempted to apply transaction to locked account."
            },
            TransactionErrorTypes::Unspecified => "Unspecified.",
        }
    }
}

} // verus!
