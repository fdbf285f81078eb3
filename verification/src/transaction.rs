use vstd::prelude::*;

verus! {

/// The types of transactions accepted.
#[derive(Clone, Copy, PartialEq, Eq, Structural, Debug)]
pub enum TransactionType {
    /// Adding funds.
    Deposit,
    /// Removing funds.
    Withdrawal,
    /// Holding funds.
    Dispute,
    /// Releasing funds.
    Resolve,
    /// Removing funds forcefully. Locks the account.
    Chargeback,
}

/// A transaction has a type, client id, transaction id, and optional amount.
///
/// An amount counts ten-thousandths (0.0001) of a currency unit, so
/// `Some(12000)` stands for 1.2 units. It is present only for deposits and
/// withdrawals; disputes, resolves, and chargebacks carry none and instead
/// reference the id of an earlier deposit or withdrawal.
#[derive(Clone, Copy, PartialEq, Eq, Structural, Debug)]
pub struct Transaction {
    /// Transaction type.
    pub transaction_type: TransactionType,

    /// Unique client ID.
    pub client_id: u16,

    /// Unique or referenced transaction ID.
    pub id: u32,

    /// Amount, in ten-thousandths of a currency unit; specified only for
    /// deposits and withdrawals.
    pub amount: Option<i64>,
}

/// Yields a fixed sample transaction: a deposit of 1.2 currency units.
pub fn get_next_transaction() -> (r: Option<Transaction>)
    ensures
        r == Some(
            Transaction {
                transaction_type: TransactionType::Deposit,
                client_id: 0u16,
                id: 0u32,
                amount: Some(12000i64),
            },
        ),
{
    Some(
        Transaction {
            id: 0,
            transaction_type: TransactionType::Deposit,
            client_id: 0,
            amount: Some(12000),
        },
    )
}

} // verus!
