//! The balance engine: replaying an account's chain gives each member a net
//! balance — what they payed, minus their share of every expense.

use vstd::prelude::*;

use crate::errors::Error;
use crate::model::{Account, AccountV, EntryV, PersonId, Transaction, TransactionV};
use crate::model::{clone_id, ids_equal};
use crate::repository::{Repository, account_chain, chain_transactions};

verus! {

/// The net balance of one member: positive means the member is owed money,
/// negative that they owe.
#[derive(Debug, PartialEq)]
pub struct MemberBalance {
    pub person: PersonId,
    pub amount: i64,
}

/// The amounts of the entries naming `person`, summed.
pub open spec fn entry_sum(es: Seq<EntryV>, person: Seq<u8>) -> int
    decreases es.len(),
{
    if es.len() == 0 {
        0
    } else {
        entry_sum(es.drop_last(), person) + if es.last().person == person {
            es.last().amount as int
        } else {
            0
        }
    }
}

/// One side of a transaction: its payers, or its beneficiaries.
pub open spec fn tx_entries(t: TransactionV, payers: bool) -> Seq<EntryV> {
    if payers {
        t.payed_by
    } else {
        t.payed_for
    }
}

/// One side of every transaction of the chain, restricted to `person` and
/// summed.
pub open spec fn chain_sum(txs: Seq<TransactionV>, person: Seq<u8>, payers: bool) -> int
    decreases txs.len(),
{
    if txs.len() == 0 {
        0
    } else {
        chain_sum(txs.drop_last(), person, payers) + entry_sum(
            tx_entries(txs.last(), payers),
            person,
        )
    }
}

/// Everything `person` payed over the chain.
pub open spec fn pos_sum(txs: Seq<TransactionV>, person: Seq<u8>) -> int {
    chain_sum(txs, person, true)
}

/// Everything payed for `person` over the chain.
pub open spec fn neg_sum(txs: Seq<TransactionV>, person: Seq<u8>) -> int {
    chain_sum(txs, person, false)
}

/// The net balance of `person` over a chain. Order plays no part: each entry
/// contributes one signed amount to a sum.
pub open spec fn balance_of(txs: Seq<TransactionV>, person: Seq<u8>) -> int {
    pos_sum(txs, person) - neg_sum(txs, person)
}

/// Every member's payed and owed totals over `txs` fit a 64-bit balance; the
/// machine-width bound under which the engine is exact.
pub open spec fn balance_in_range(txs: Seq<TransactionV>, account: AccountV) -> bool {
    forall|j: int|
        0 <= j < account.members.len() ==> pos_sum(txs, #[trigger] account.members[j].uuid)
            <= i64::MAX && neg_sum(txs, account.members[j].uuid) <= i64::MAX
}

/// Entry amounts are unsigned, so their sums never go below zero.
pub proof fn lemma_entry_sum_nonneg(es: Seq<EntryV>, person: Seq<u8>)
    ensures
        entry_sum(es, person) >= 0,
    decreases es.len(),
{
    if es.len() > 0 {
        lemma_entry_sum_nonneg(es.drop_last(), person);
    }
}

proof fn lemma_entry_sum_step(es: Seq<EntryV>, person: Seq<u8>, k: int)
    requires
        0 <= k < es.len(),
    ensures
        entry_sum(es.take(k + 1), person) == entry_sum(es.take(k), person) + if es[k].person
            == person {
            es[k].amount as int
        } else {
            0
        },
{
    assert(es.take(k + 1).drop_last() =~= es.take(k));
    assert(es.take(k + 1).last() == es[k]);
}

/// A prefix of the entries never sums to more than all of them.
proof fn lemma_entry_sum_prefix_le(es: Seq<EntryV>, person: Seq<u8>, k: int)
    requires
        0 <= k <= es.len(),
    ensures
        entry_sum(es.take(k), person) <= entry_sum(es, person),
    decreases es.len() - k,
{
    if k == es.len() {
        assert(es.take(k) =~= es);
    } else {
        lemma_entry_sum_step(es, person, k);
        lemma_entry_sum_nonneg(es.take(k), person);
        lemma_entry_sum_prefix_le(es, person, k + 1);
    }
}

/// Entry sums are nonnegative, so chain sums are too.
pub proof fn lemma_chain_sum_nonneg(txs: Seq<TransactionV>, person: Seq<u8>, payers: bool)
    ensures
        chain_sum(txs, person, payers) >= 0,
    decreases txs.len(),
{
    if txs.len() > 0 {
        lemma_chain_sum_nonneg(txs.drop_last(), person, payers);
        lemma_entry_sum_nonneg(tx_entries(txs.last(), payers), person);
    }
}

proof fn lemma_chain_sum_step(txs: Seq<TransactionV>, person: Seq<u8>, payers: bool, i: int)
    requires
        0 <= i < txs.len(),
    ensures
        chain_sum(txs.take(i + 1), person, payers) == chain_sum(txs.take(i), person, payers)
            + entry_sum(tx_entries(txs[i], payers), person),
{
    assert(txs.take(i + 1).drop_last() =~= txs.take(i));
    assert(txs.take(i + 1).last() == txs[i]);
}

/// A prefix of the chain never sums to more than the whole chain.
proof fn lemma_chain_sum_prefix_le(txs: Seq<TransactionV>, person: Seq<u8>, payers: bool, i: int)
    requires
        0 <= i <= txs.len(),
    ensures
        chain_sum(txs.take(i), person, payers) <= chain_sum(txs, person, payers),
    decreases txs.len() - i,
{
    if i == txs.len() {
        assert(txs.take(i) =~= txs);
    } else {
        lemma_chain_sum_step(txs, person, payers, i);
        lemma_entry_sum_nonneg(tx_entries(txs[i], payers), person);
        lemma_chain_sum_prefix_le(txs, person, payers, i + 1);
    }
}

/// Chain sums split over concatenation: each transaction contributes one
/// summand, wherever it stands.
pub proof fn lemma_chain_sum_concat(
    a: Seq<TransactionV>,
    b: Seq<TransactionV>,
    person: Seq<u8>,
    payers: bool,
)
    ensures
        chain_sum(a + b, person, payers) == chain_sum(a, person, payers) + chain_sum(
            b,
            person,
            payers,
        ),
    decreases b.len(),
{
    if b.len() == 0 {
        assert(a + b =~= a);
    } else {
        assert((a + b).drop_last() =~= a + b.drop_last());
        assert((a + b).last() == b.last());
        lemma_chain_sum_concat(a, b.drop_last(), person, payers);
    }
}

/// A member's balance adds up segment by segment: splitting a chain anywhere
/// splits the balance into two independent sums, so the order in which
/// transactions are replayed cannot change the result.
pub proof fn lemma_balance_additive(a: Seq<TransactionV>, b: Seq<TransactionV>, person: Seq<u8>)
    ensures
        balance_of(a + b, person) == balance_of(a, person) + balance_of(b, person),
{
    lemma_chain_sum_concat(a, b, person, true);
    lemma_chain_sum_concat(a, b, person, false);
}

/// The index of the member with this uuid, if any.
fn find_member(account: &Account, person: &Vec<u8>) -> (o: Option<usize>)
    ensures
        o matches Some(j) ==> 0 <= j < account@.members.len() && account@.members[j as int].uuid
            == person@,
        o is None ==> forall|j: int|
            0 <= j < account@.members.len() ==> account@.members[j].uuid != person@,
{
    let mut i: usize = 0;
    while i < account.members.len()
        invariant
            i <= account.members@.len(),
            forall|k: int| 0 <= k < i ==> account@.members[k].uuid != person@,
        decreases account.members@.len() - i,
    {
        if ids_equal(&account.members[i].uuid, person) {
            proof {
                assert(account@.members[i as int].uuid == account.members@[i as int]@.uuid);
            }
            return Some(i);
        }
        proof {
            assert(account@.members[i as int].uuid == account.members@[i as int]@.uuid);
        }
        i = i + 1;
    }
    None
}

/// Replays a list of transactions and gives each member of the account its
/// net balance, in member order. An entry naming a person who is not a
/// member is ignored, by design. The range bound in the `requires` is what
/// the 64-bit balance width forces; within it the result is exact.
pub fn balance_of_transactions(account: &Account, transactions: &Vec<Transaction>) -> (r: Vec<
    MemberBalance,
>)
    requires
        account@.members_distinct(),
        balance_in_range(transactions@.map_values(|t: Transaction| t@), account@),
    ensures
        r@.len() == account@.members.len(),
        forall|j: int|
            0 <= j < r@.len() ==> (#[trigger] r@[j].person@) == account@.members[j].uuid
                && r@[j].amount == balance_of(
                transactions@.map_values(|t: Transaction| t@),
                account@.members[j].uuid,
            ),
{
    let ghost txv = transactions@.map_values(|t: Transaction| t@);
    let n = account.members.len();
    let mut bal: Vec<i64> = Vec::new();
    let mut j: usize = 0;
    while j < n
        invariant
            bal@.len() == j,
            j <= n,
            forall|k: int| 0 <= k < j ==> bal@[k] == 0,
        decreases n - j,
    {
        bal.push(0);
        j = j + 1;
    }
    let mut i: usize = 0;
    while i < transactions.len()
        invariant
            account@.members_distinct(),
            balance_in_range(txv, account@),
            txv == transactions@.map_values(|t: Transaction| t@),
            n == account@.members.len(),
            bal@.len() == n,
            i <= transactions@.len(),
            forall|m: int|
                0 <= m < n ==> #[trigger] bal@[m] == balance_of(
                    txv.take(i as int),
                    account@.members[m].uuid,
                ),
        decreases transactions@.len() - i,
    {
        let ghost tv = txv[i as int];
        proof {
            assert(transactions@[i as int]@ == tv);
        }
        let tx = &transactions[i];
        let mut k: usize = 0;
        proof {
            assert(tv.payed_by.take(0) =~= Seq::<EntryV>::empty());
        }
        while k < tx.payed_by.len()
            invariant
                account@.members_distinct(),
                balance_in_range(txv, account@),
                txv == transactions@.map_values(|t: Transaction| t@),
                n == account@.members.len(),
                bal@.len() == n,
                i < transactions@.len(),
                tx@ == tv,
                tv == txv[i as int],
                k <= tv.payed_by.len(),
                forall|m: int|
                    0 <= m < n ==> #[trigger] bal@[m] == chain_sum(
                        txv.take(i as int),
                        account@.members[m].uuid,
                        true,
                    ) + entry_sum(tv.payed_by.take(k as int), account@.members[m].uuid)
                        - chain_sum(txv.take(i as int), account@.members[m].uuid, false),
            decreases tv.payed_by.len() - k,
        {
            proof {
                assert(tx.payed_by@[k as int]@ == tv.payed_by[k as int]);
            }
            let entry_person = &tx.payed_by[k].person;
            let amount = tx.payed_by[k].amount;
            let found = find_member(account, entry_person);
            if let Some(m) = found {
                let ghost u = account@.members[m as int].uuid;
                proof {
                    lemma_entry_sum_nonneg(tv.payed_by.take(k as int), u);
                    lemma_entry_sum_step(tv.payed_by, u, k as int);
                    lemma_entry_sum_prefix_le(tv.payed_by, u, k as int + 1);
                    lemma_chain_sum_step(txv, u, true, i as int);
                    lemma_chain_sum_prefix_le(txv, u, true, i as int + 1);
                    lemma_chain_sum_nonneg(txv.take(i as int), u, true);
                    lemma_chain_sum_nonneg(txv.take(i as int), u, false);
                    lemma_chain_sum_prefix_le(txv, u, false, i as int);
                    lemma_chain_sum_nonneg(txv, u, false);
                }
                let updated = bal[m] + amount as i64;
                bal.set(m, updated);
            }
            k = k + 1;
            proof {
                assert forall|m: int| 0 <= m < n implies #[trigger] bal@[m] == chain_sum(
                    txv.take(i as int),
                    account@.members[m].uuid,
                    true,
                ) + entry_sum(tv.payed_by.take(k as int), account@.members[m].uuid) - chain_sum(
                    txv.take(i as int),
                    account@.members[m].uuid,
                    false,
                ) by {
                    lemma_entry_sum_step(tv.payed_by, account@.members[m].uuid, k as int - 1);
                }
            }
        }
        proof {
            assert(tv.payed_by.take(tv.payed_by.len() as int) =~= tv.payed_by);
            assert forall|m: int| 0 <= m < n implies chain_sum(
                txv.take(i as int + 1),
                #[trigger] account@.members[m].uuid,
                true,
            ) == chain_sum(txv.take(i as int), account@.members[m].uuid, true) + entry_sum(
                tv.payed_by,
                account@.members[m].uuid,
            ) by {
                lemma_chain_sum_step(txv, account@.members[m].uuid, true, i as int);
            }
            assert(tv.payed_for.take(0) =~= Seq::<EntryV>::empty());
        }
        let mut k: usize = 0;
        while k < tx.payed_for.len()
            invariant
                account@.members_distinct(),
                balance_in_range(txv, account@),
                txv == transactions@.map_values(|t: Transaction| t@),
                n == account@.members.len(),
                bal@.len() == n,
                i < transactions@.len(),
                tx@ == tv,
                tv == txv[i as int],
                k <= tv.payed_for.len(),
                forall|m: int|
                    0 <= m < n ==> #[trigger] bal@[m] == chain_sum(
                        txv.take(i as int + 1),
                        account@.members[m].uuid,
                        true,
                    ) - chain_sum(txv.take(i as int), account@.members[m].uuid, false)
                        - entry_sum(tv.payed_for.take(k as int), account@.members[m].uuid),
            decreases tv.payed_for.len() - k,
        {
            proof {
                assert(tx.payed_for@[k as int]@ == tv.payed_for[k as int]);
            }
            let entry_person = &tx.payed_for[k].person;
            let amount = tx.payed_for[k].amount;
            let found = find_member(account, entry_person);
            if let Some(m) = found {
                let ghost u = account@.members[m as int].uuid;
                proof {
                    lemma_entry_sum_nonneg(tv.payed_for.take(k as int), u);
                    lemma_entry_sum_step(tv.payed_for, u, k as int);
                    lemma_entry_sum_prefix_le(tv.payed_for, u, k as int + 1);
                    lemma_chain_sum_step(txv, u, false, i as int);
                    lemma_chain_sum_prefix_le(txv, u, false, i as int + 1);
                    lemma_chain_sum_nonneg(txv.take(i as int), u, false);
                    lemma_chain_sum_nonneg(txv.take(i as int + 1), u, true);
                    lemma_chain_sum_prefix_le(txv, u, true, i as int + 1);
                    lemma_chain_sum_nonneg(txv, u, true);
                }
                let updated = bal[m] - amount as i64;
                bal.set(m, updated);
            }
            k = k + 1;
            proof {
                assert forall|m: int| 0 <= m < n implies #[trigger] bal@[m] == chain_sum(
                    txv.take(i as int + 1),
                    account@.members[m].uuid,
                    true,
                ) - chain_sum(txv.take(i as int), account@.members[m].uuid, false) - entry_sum(
                    tv.payed_for.take(k as int),
                    account@.members[m].uuid,
                ) by {
                    lemma_entry_sum_step(tv.payed_for, account@.members[m].uuid, k as int - 1);
                }
            }
        }
        i = i + 1;
        proof {
            assert(tv.payed_for.take(tv.payed_for.len() as int) =~= tv.payed_for);
            assert forall|m: int| 0 <= m < n implies #[trigger] bal@[m] == balance_of(
                txv.take(i as int),
                account@.members[m].uuid,
            ) by {
                lemma_chain_sum_step(txv, account@.members[m].uuid, false, i as int - 1);
            }
        }
    }
    proof {
        assert(txv.take(transactions@.len() as int) =~= txv);
    }
    let mut out: Vec<MemberBalance> = Vec::new();
    let mut j: usize = 0;
    while j < n
        invariant
            n == account@.members.len(),
            n == account.members@.len(),
            bal@.len() == n,
            out@.len() == j,
            j <= n,
            forall|k: int|
                0 <= k < n ==> #[trigger] bal@[k] == balance_of(txv, account@.members[k].uuid),
            forall|k: int|
                0 <= k < j ==> (#[trigger] out@[k].person@) == account@.members[k].uuid
                    && out@[k].amount == balance_of(txv, account@.members[k].uuid),
        decreases n - j,
    {
        let person = clone_id(&account.members[j].uuid);
        proof {
            assert(account@.members[j as int].uuid == account.members@[j as int]@.uuid);
        }
        let amount = bal[j];
        out.push(MemberBalance { person, amount });
        j = j + 1;
    }
    out
}

/// Walks the account's whole chain and computes every member's net balance;
/// the first error of the walk aborts the computation and is handed through.
/// The range bound in the `requires` is what the 64-bit balance width forces.
pub fn get_balance<R: Repository>(repo: &R, account: &Account) -> (r: Result<
    Vec<MemberBalance>,
    Error,
>)
    requires
        repo.inv(),
        account@.members_distinct(),
        balance_in_range(account_chain(repo, account@).txs, account@),
    ensures
        r matches Ok(l) ==> {
            &&& account_chain(repo, account@).end is Complete
            &&& l@.len() == account@.members.len()
            &&& forall|j: int|
                0 <= j < l@.len() ==> (#[trigger] l@[j].person@) == account@.members[j].uuid
                    && l@[j].amount == balance_of(
                    account_chain(repo, account@).txs,
                    account@.members[j].uuid,
                )
        },
        r matches Err(e) ==> {
            &&& (e == Error::CorruptChain ==> account_chain(repo, account@).end is Cycle)
            &&& (e == Error::NoSuchTransaction ==> account_chain(repo, account@).end is Dangling)
            &&& (e == Error::BackendFailure ==> !repo.reliable())
            &&& (e == Error::CorruptChain || e == Error::NoSuchTransaction || e
                == Error::BackendFailure)
        },
        repo.reliable() ==> (r is Ok <==> account_chain(repo, account@).end is Complete),
{
    let transactions = match chain_transactions(repo, account) {
        Ok(t) => t,
        Err(e) => {
            return Err(e);
        },
    };
    Ok(balance_of_transactions(account, &transactions))
}

} // verus!
