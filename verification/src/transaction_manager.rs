use vstd::prelude::*;
use vstd::pervasive::VecAdditionalExecFns;

use crate::assoc::{
    assoc_map, has_key, keys_unique, lemma_assoc_map_index, lemma_assoc_map_insert_at,
    lemma_assoc_map_update,
};
use crate::client::{
    fresh_account, initialize_client, lemma_step_preserves_wf, step, AccountView, Client, Step,
};
use crate::transaction::{Transaction, TransactionType};
use crate::transaction_error::{TransactionError, TransactionErrorTypes};

verus! {

/// The ledger keeps its accounts in ascending client-id order.
pub open spec fn accounts_sorted(s: Seq<(u16, Client)>) -> bool {
    forall|i: int, j: int| 0 <= i < j < s.len() ==> s[i].0 < s[j].0
}

/// The invariant of the ledger's account list: sorted by client id, each
/// entry keyed by the id of the well-formed account it holds.
pub open spec fn accounts_wf(s: Seq<(u16, Client)>) -> bool {
    &&& accounts_sorted(s)
    &&& forall|i: int| 0 <= i < s.len() ==> (#[trigger] s[i]).1.wf() && s[i].1.id == s[i].0
}

/// How the ledger routes one transaction: to the account it names if that
/// account exists; otherwise to a freshly created account, which only a
/// deposit may open.
pub open spec fn route_step(m: Map<u16, AccountView>, t: Transaction) -> Step {
    if m.dom().contains(t.client_id) {
        step(m[t.client_id], t)
    } else if !(t.transaction_type is Deposit) {
        Step::Reject(TransactionErrorTypes::FirstTransactionNotDeposit)
    } else {
        step(fresh_account(t.client_id), t)
    }
}

/// What `update_client` does to the ledger: on an applying step with
/// representable balances the account mapping gains exactly the stepped
/// account; on any rejection — and on an unrepresentable result — the
/// ledger is left exactly as it was, and the error names the transaction.
pub open spec fn update_resolves_to(
    pre: Seq<(u16, Client)>,
    t: Transaction,
    post: Seq<(u16, Client)>,
    r: Result<(), TransactionError>,
) -> bool {
    match route_step(assoc_map(pre), t) {
        Step::Next(v) => if v.in_i64_bounds() {
            r matches Ok(_) && assoc_map(post) == assoc_map(pre).insert(t.client_id, v)
        } else {
            r matches Err(e) && e.error_type is Unspecified && post == pre && e.transaction == t
        },
        Step::Reject(k) => r matches Err(e) && e.error_type == k && post == pre && e.transaction
            == t,
    }
}

/// Where in the account list the entry for `id` stands, if anywhere.
fn find_account(clients: &Vec<(u16, Client)>, id: u16) -> (r: Option<usize>)
    ensures
        match r {
            Some(i) => i < clients@.len() && clients@[i as int].0 == id,
            None => !has_key(clients@, id),
        },
{
    let n = clients.len();
    let mut i: usize = 0;
    while i < n
        invariant
            i <= n,
            n == clients@.len(),
            forall|k: int| 0 <= k < i ==> clients@[k].0 != id,
        decreases n - i,
    {
        if clients[i].0 == id {
            return Some(i);
        }
        i += 1;
    }
    None
}

/// The position at which an entry for `id` keeps the list sorted.
fn find_insert_pos(clients: &Vec<(u16, Client)>, id: u16) -> (p: usize)
    requires
        accounts_sorted(clients@),
    ensures
        p <= clients@.len(),
        forall|k: int| 0 <= k < p ==> clients@[k].0 < id,
        forall|k: int| p <= k < clients@.len() ==> clients@[k].0 >= id,
    {
    let n = clients.len();
    let mut p: usize = 0;
    while p < n && clients[p].0 < id
        invariant
            p <= n,
            n == clients@.len(),
            accounts_sorted(clients@),
            forall|k: int| 0 <= k < p ==> clients@[k].0 < id,
        decreases n - p,
    {
        p += 1;
    }
    proof {
        assert forall|k: int| p <= k < clients@.len() implies clients@[k].0 >= id by {
            if k > p {
                assert(clients@[p as int].0 < clients@[k].0);
            }
        }
    }
    p
}

/// A list sorted by key has no key twice.
proof fn lemma_sorted_unique(s: Seq<(u16, Client)>)
    requires
        accounts_sorted(s),
    ensures
        keys_unique(s),
{
}

/// Attempts to apply the given transaction to the given client account
/// environment, creating the account on a client's first deposit; a
/// rejected transaction leaves the environment exactly as it was.
pub fn update_client(clients: &mut Vec<(u16, Client)>, transaction: Transaction) -> (r: Result<
    (),
    TransactionError,
>)
    requires
        accounts_wf(old(clients)@),
    ensures
        accounts_wf(final(clients)@),
        update_resolves_to(old(clients)@, transaction, final(clients)@, r),
{
    let ghost s = clients@;
    let ghost m = assoc_map(s);
    proof {
        lemma_sorted_unique(s);
        lemma_assoc_map_index(s);
    }
    match find_account(clients, transaction.client_id) {
        Some(i) => {
            proof {
                assert(m.dom().contains(transaction.client_id));
                assert(m[transaction.client_id] == s[i as int].1@);
                assert(s[i as int].1.wf());
            }
            match clients[i].1.clone().apply_transaction(transaction) {
                Ok(c2) => {
                    proof {
                        lemma_step_preserves_wf(s[i as int].1@, transaction);
                    }
                    clients.set(i, (transaction.client_id, c2));
                    proof {
                        assert(clients@ =~= s.update(i as int, (s[i as int].0, c2)));
                        lemma_assoc_map_update(s, i as int, c2);
                        assert(accounts_sorted(clients@));
                        assert forall|k: int| 0 <= k < clients@.len() implies (
                        #[trigger] clients@[k]).1.wf() && clients@[k].1.id == clients@[k].0 by {
                            if k != i {
                                assert(clients@[k] == s[k]);
                            }
                        }
                    }
                    Ok(())
                },
                Err(e) => Err(e),
            }
        },
        None => {
            proof {
                assert(!m.dom().contains(transaction.client_id));
            }
            match initialize_client(transaction) {
                Ok(c) => {
                    let p = find_insert_pos(clients, transaction.client_id);
                    proof {
                        lemma_step_preserves_wf(fresh_account(transaction.client_id), transaction);
                    }
                    clients.insert(p, (transaction.client_id, c));
                    proof {
                        lemma_assoc_map_insert_at(s, p as int, transaction.client_id, c);
                        assert forall|a: int, b: int| 0 <= a < b < clients@.len() implies
                            clients@[a].0 < clients@[b].0 by {
                            if a < p && b > p {
                                assert(clients@[a] == s[a] && clients@[b] == s[b - 1]);
                                assert(s[a].0 < transaction.client_id);
                                assert(s[b - 1].0 >= transaction.client_id);
                                assert(s[b - 1].0 != transaction.client_id);
                            } else if b == p {
                                assert(clients@[a] == s[a]);
                                assert(s[a].0 < transaction.client_id);
                            } else if a == p {
                                assert(clients@[b] == s[b - 1]);
                                assert(s[b - 1].0 >= transaction.client_id);
                                assert(s[b - 1].0 != transaction.client_id);
                            } else if b < p {
                                assert(clients@[a] == s[a] && clients@[b] == s[b]);
                            } else {
                                assert(clients@[a] == s[a - 1] && clients@[b] == s[b - 1]);
                            }
                        }
                        assert forall|k: int| 0 <= k < clients@.len() implies (
                        #[trigger] clients@[k]).1.wf() && clients@[k].1.id == clients@[k].0 by {
                            if k < p {
                                assert(clients@[k] == s[k]);
                            } else if k > p {
                                assert(clients@[k] == s[k - 1]);
                            }
                        }
                    }
                    Ok(())
                },
                Err(e) => Err(e),
            }
        },
    }
}

/// The account for the given client id, if one exists.
pub fn get_client<'a>(clients: &'a Vec<(u16, Client)>, id: u16) -> (r: Option<&'a Client>)
    requires
        accounts_wf(clients@),
    ensures
        match r {
            Some(c) => assoc_map(clients@).dom().contains(id) && c@ == assoc_map(clients@)[id]
                && c.id == id && c.wf(),
            None => !assoc_map(clients@).dom().contains(id),
        },
{
    proof {
        lemma_sorted_unique(clients@);
        lemma_assoc_map_index(clients@);
    }
    match find_account(clients, id) {
        Some(i) => Some(&clients[i].1),
        None => None,
    }
}

} // verus!
