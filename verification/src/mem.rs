//! An in-memory storage backend: vectors of records, read as maps through
//! the keyed-sequence functions. It never meets an underlying fault, so it
//! never reports `BackendFailure`.

use vstd::prelude::*;

use crate::errors::Error;
use crate::keyed::{
    keys_distinct, lemma_map_of_contains, lemma_map_of_finite, lemma_map_of_index,
    lemma_map_of_push, lemma_map_of_remove, lemma_map_of_update, map_of,
};
use crate::model::{Account, AccountId, AccountV, Transaction, TransactionId, TransactionV};
use crate::model::{clone_id, ids_equal};
use crate::repository::Repository;

verus! {

/// The transactions of one account, as key/record pairs.
pub open spec fn tx_pairs(ts: Seq<TransactionV>) -> Seq<(Seq<u8>, TransactionV)> {
    ts.map_values(|t: TransactionV| (t.uuid, t))
}

struct AccountStore {
    account: AccountId,
    transactions: Vec<Transaction>,
}

impl AccountStore {
    spec fn pair(&self) -> (Seq<u8>, Seq<TransactionV>) {
        (self.account@, self.transactions@.map_values(|t: Transaction| t@))
    }
}

/// A backend holding all records in memory.
pub struct MemoryRepository {
    accounts: Vec<Account>,
    stores: Vec<AccountStore>,
}

impl MemoryRepository {
    /// The stored accounts, as key/record pairs in insertion order.
    pub closed spec fn accounts_pairs(&self) -> Seq<(Seq<u8>, AccountV)> {
        self.accounts@.map_values(|a: Account| (a@.uuid, a@))
    }

    /// The per-account transaction stores, as key/record pairs.
    pub closed spec fn stores_pairs(&self) -> Seq<(Seq<u8>, Seq<TransactionV>)> {
        self.stores@.map_values(|s: AccountStore| s.pair())
    }

    /// An empty backend.
    pub fn new() -> (r: MemoryRepository)
        ensures
            r.inv(),
            r.reliable(),
            r.accounts() == Map::<Seq<u8>, AccountV>::empty(),
            forall|aid: Seq<u8>| #[trigger]
                r.account_txs(aid) == Map::<Seq<u8>, TransactionV>::empty(),
    {
        let r = MemoryRepository { accounts: Vec::new(), stores: Vec::new() };
        proof {
            assert(r.accounts_pairs() =~= Seq::<(Seq<u8>, AccountV)>::empty());
            assert(r.stores_pairs() =~= Seq::<(Seq<u8>, Seq<TransactionV>)>::empty());
            assert forall|aid: Seq<u8>| #[trigger] r.account_txs(aid) == Map::<
                Seq<u8>,
                TransactionV,
            >::empty() by {
                lemma_map_of_contains(r.stores_pairs(), aid);
            }
        }
        r
    }

    /// The position of the account record with this uuid, if any.
    fn find_account_index(&self, account_id: &Vec<u8>) -> (o: Option<usize>)
        ensures
            o matches Some(i) ==> 0 <= i < self.accounts@.len() && self.accounts@[i as int]@.uuid
                == account_id@,
            o is None ==> forall|i: int|
                0 <= i < self.accounts@.len() ==> self.accounts@[i]@.uuid != account_id@,
    {
        let mut i: usize = 0;
        while i < self.accounts.len()
            invariant
                i <= self.accounts@.len(),
                forall|k: int| 0 <= k < i ==> self.accounts@[k]@.uuid != account_id@,
            decreases self.accounts@.len() - i,
        {
            if ids_equal(&self.accounts[i].uuid, account_id) {
                return Some(i);
            }
            i = i + 1;
        }
        None
    }

    /// The position of the transaction store for this account, if any.
    fn find_store_index(&self, account_id: &Vec<u8>) -> (o: Option<usize>)
        ensures
            o matches Some(i) ==> 0 <= i < self.stores@.len() && self.stores@[i as int].account@
                == account_id@,
            o is None ==> forall|i: int|
                0 <= i < self.stores@.len() ==> self.stores@[i].account@ != account_id@,
    {
        let mut i: usize = 0;
        while i < self.stores.len()
            invariant
                i <= self.stores@.len(),
                forall|k: int| 0 <= k < i ==> self.stores@[k].account@ != account_id@,
            decreases self.stores@.len() - i,
        {
            if ids_equal(&self.stores[i].account, account_id) {
                return Some(i);
            }
            i = i + 1;
        }
        None
    }
}

/// The position of the transaction with this uuid, if any.
fn find_tx_index(ts: &Vec<Transaction>, id: &Vec<u8>) -> (o: Option<usize>)
    ensures
        o matches Some(j) ==> 0 <= j < ts@.len() && ts@[j as int]@.uuid == id@,
        o is None ==> forall|j: int| 0 <= j < ts@.len() ==> ts@[j]@.uuid != id@,
{
    let mut j: usize = 0;
    while j < ts.len()
        invariant
            j <= ts@.len(),
            forall|k: int| 0 <= k < j ==> ts@[k]@.uuid != id@,
        decreases ts@.len() - j,
    {
        if ids_equal(&ts[j].uuid, id) {
            return Some(j);
        }
        j = j + 1;
    }
    None
}

/// A copy of `ts` with `t` stored under its uuid: replacing the record that
/// carried that uuid, or appended if none did.
fn upsert_transactions(ts: &Vec<Transaction>, t: &Transaction) -> (r: Vec<Transaction>)
    requires
        keys_distinct(tx_pairs(ts@.map_values(|x: Transaction| x@))),
    ensures
        keys_distinct(tx_pairs(r@.map_values(|x: Transaction| x@))),
        map_of(tx_pairs(r@.map_values(|x: Transaction| x@))) == map_of(
            tx_pairs(ts@.map_values(|x: Transaction| x@)),
        ).insert(t@.uuid, t@),
{
    let ghost oldv = ts@.map_values(|x: Transaction| x@);
    let mut r: Vec<Transaction> = Vec::new();
    let mut i: usize = 0;
    while i < ts.len()
        invariant
            i <= ts@.len(),
            r@.len() == i,
            forall|k: int| 0 <= k < i ==> r@[k]@ == ts@[k]@,
        decreases ts@.len() - i,
    {
        r.push(ts[i].clone());
        i = i + 1;
    }
    proof {
        assert(r@.map_values(|x: Transaction| x@) =~= oldv);
    }
    match find_tx_index(ts, &t.uuid) {
        Some(j) => {
            r.set(j, t.clone());
            proof {
                assert(r@.map_values(|x: Transaction| x@) =~= oldv.update(j as int, t@));
                assert(tx_pairs(oldv.update(j as int, t@)) =~= tx_pairs(oldv).update(
                    j as int,
                    (t@.uuid, t@),
                ));
                assert(tx_pairs(oldv)[j as int].0 == t@.uuid);
                lemma_map_of_update(tx_pairs(oldv), j as int, (t@.uuid, t@));
            }
        },
        None => {
            r.push(t.clone());
            proof {
                assert(r@.map_values(|x: Transaction| x@) =~= oldv.push(t@));
                assert(tx_pairs(oldv.push(t@)) =~= tx_pairs(oldv).push((t@.uuid, t@)));
                assert forall|k: int| 0 <= k < tx_pairs(oldv).len() implies tx_pairs(
                    oldv,
                )[k].0 != t@.uuid by {
                    assert(ts@[k]@.uuid != t.uuid@);
                }
                lemma_map_of_push(tx_pairs(oldv), (t@.uuid, t@));
            }
        },
    }
    r
}

impl Repository for MemoryRepository {
    open spec fn accounts(&self) -> Map<Seq<u8>, AccountV> {
        map_of(self.accounts_pairs())
    }

    open spec fn account_txs(&self, account_id: Seq<u8>) -> Map<Seq<u8>, TransactionV> {
        if map_of(self.stores_pairs()).contains_key(account_id) {
            map_of(tx_pairs(map_of(self.stores_pairs())[account_id]))
        } else {
            Map::empty()
        }
    }

    open spec fn reliable(&self) -> bool {
        true
    }

    open spec fn inv(&self) -> bool {
        &&& keys_distinct(self.accounts_pairs())
        &&& keys_distinct(self.stores_pairs())
        &&& forall|i: int|
            0 <= i < self.stores_pairs().len() ==> keys_distinct(
                tx_pairs(#[trigger] self.stores_pairs()[i].1),
            )
    }

    proof fn lemma_inv(&self, account_id: Seq<u8>) {
        lemma_map_of_finite(self.accounts_pairs());
        if map_of(self.stores_pairs()).contains_key(account_id) {
            lemma_map_of_finite(tx_pairs(map_of(self.stores_pairs())[account_id]));
        }
    }

    fn add_account(&mut self, account: &Account) -> (r: Result<(), Error>) {
        let ghost oldp = self.accounts_pairs();
        match self.find_account_index(&account.uuid) {
            Some(i) => {
                self.accounts.set(i, account.clone());
                proof {
                    assert(self.accounts_pairs() =~= oldp.update(
                        i as int,
                        (account@.uuid, account@),
                    ));
                    assert(oldp[i as int].0 == account@.uuid);
                    lemma_map_of_update(oldp, i as int, (account@.uuid, account@));
                }
            },
            None => {
                self.accounts.push(account.clone());
                proof {
                    assert(self.accounts_pairs() =~= oldp.push((account@.uuid, account@)));
                    assert forall|k: int| 0 <= k < oldp.len() implies oldp[k].0
                        != account@.uuid by {
                        assert(old(self).accounts@[k]@.uuid != account.uuid@);
                    }
                    lemma_map_of_push(oldp, (account@.uuid, account@));
                }
            },
        }
        proof {
            assert(self.stores_pairs() == old(self).stores_pairs());
        }
        Ok(())
    }

    fn get_account(&self, account_id: &AccountId) -> (r: Result<Account, Error>) {
        match self.find_account_index(account_id) {
            Some(i) => {
                proof {
                    assert(self.accounts_pairs()[i as int] == (
                        account_id@,
                        self.accounts@[i as int]@,
                    ));
                    lemma_map_of_index(self.accounts_pairs(), i as int);
                }
                Ok(self.accounts[i].clone())
            },
            None => {
                proof {
                    lemma_map_of_contains(self.accounts_pairs(), account_id@);
                }
                Err(Error::NoSuchAccount)
            },
        }
    }

    fn delete_account(&mut self, account_id: &AccountId) -> (r: Result<(), Error>) {
        let ghost oldp = self.accounts_pairs();
        match self.find_account_index(account_id) {
            Some(i) => {
                proof {
                    assert(oldp[i as int].0 == account_id@);
                    lemma_map_of_index(oldp, i as int);
                }
                self.accounts.remove(i);
                proof {
                    assert(self.accounts_pairs() =~= oldp.remove(i as int));
                    lemma_map_of_remove(oldp, i as int);
                    assert(self.stores_pairs() == old(self).stores_pairs());
                }
                Ok(())
            },
            None => {
                proof {
                    lemma_map_of_contains(oldp, account_id@);
                }
                Err(Error::NoSuchAccount)
            },
        }
    }

    #[verifier::rlimit(50)]
    fn list_accounts(&self) -> (r: Result<Vec<Account>, Error>) {
        let mut out: Vec<Account> = Vec::new();
        let mut i: usize = 0;
        while i < self.accounts.len()
            invariant
                i <= self.accounts@.len(),
                out@.len() == i,
                forall|k: int| 0 <= k < i ==> out@[k]@ == self.accounts@[k]@,
            decreases self.accounts@.len() - i,
        {
            out.push(self.accounts[i].clone());
            i = i + 1;
        }
        proof {
            assert forall|k: int| 0 <= k < out@.len() implies self.accounts().contains_key(
                #[trigger] out@[k]@.uuid,
            ) && out@[k]@ == self.accounts()[out@[k]@.uuid] by {
                assert(self.accounts_pairs()[k] == (out@[k]@.uuid, out@[k]@));
                lemma_map_of_index(self.accounts_pairs(), k);
            }
            assert forall|key: Seq<u8>| self.accounts().contains_key(key) implies exists|k: int|
                0 <= k < out@.len() && #[trigger] out@[k]@.uuid == key by {
                lemma_map_of_contains(self.accounts_pairs(), key);
                let k = choose|k: int|
                    0 <= k < self.accounts_pairs().len() && self.accounts_pairs()[k].0 == key;
                assert(out@[k]@.uuid == key);
            }
            assert forall|a: int, b: int| 0 <= a < b < out@.len() implies out@[a]@.uuid
                != out@[b]@.uuid by {
                assert(self.accounts_pairs()[a].0 == out@[a]@.uuid);
                assert(self.accounts_pairs()[b].0 == out@[b]@.uuid);
            }
            assert(crate::repository::lists_accounts(self.accounts(), out@));
        }
        Ok(out)
    }

    fn set_latest_transaction(&mut self, account_id: &AccountId, tx_id: &TransactionId) -> (r:
        Result<(), Error>) {
        let ghost oldp = self.accounts_pairs();
        match self.find_account_index(account_id) {
            Some(i) => {
                proof {
                    assert(oldp[i as int].0 == account_id@);
                    lemma_map_of_index(oldp, i as int);
                }
                let mut a = self.accounts[i].clone();
                a.latest_transaction = clone_id(tx_id);
                proof {
                    assert(a@ == old(self).accounts@[i as int]@.with_latest(tx_id@));
                }
                self.accounts.set(i, a);
                proof {
                    assert(self.accounts_pairs() =~= oldp.update(
                        i as int,
                        (account_id@, old(self).accounts()[account_id@].with_latest(tx_id@)),
                    ));
                    lemma_map_of_update(
                        oldp,
                        i as int,
                        (account_id@, old(self).accounts()[account_id@].with_latest(tx_id@)),
                    );
                    assert(self.stores_pairs() == old(self).stores_pairs());
                }
                Ok(())
            },
            None => {
                proof {
                    lemma_map_of_contains(oldp, account_id@);
                }
                Err(Error::NoSuchAccount)
            },
        }
    }

    fn add_transaction(&mut self, account_uuid: &AccountId, transaction: &Transaction) -> (r:
        Result<(), Error>) {
        let ghost oldp = self.stores_pairs();
        match self.find_store_index(account_uuid) {
            Some(i) => {
                proof {
                    assert(oldp[i as int].0 == account_uuid@);
                    lemma_map_of_index(oldp, i as int);
                    assert(oldp[i as int].1 == old(self).stores@[i as int].transactions@
                        .map_values(|t: Transaction| t@));
                }
                let ts = upsert_transactions(&self.stores[i].transactions, transaction);
                let store = AccountStore { account: clone_id(account_uuid), transactions: ts };
                let ghost newtv = store.transactions@.map_values(|t: Transaction| t@);
                self.stores.set(i, store);
                proof {
                    assert(self.stores_pairs() =~= oldp.update(
                        i as int,
                        (account_uuid@, newtv),
                    ));
                    lemma_map_of_update(oldp, i as int, (account_uuid@, newtv));
                    assert forall|k: int| 0 <= k < self.stores_pairs().len() implies
                        keys_distinct(tx_pairs(#[trigger] self.stores_pairs()[k].1)) by {
                        if k != i as int {
                            assert(self.stores_pairs()[k] == oldp[k]);
                        }
                    }
                    assert(self.accounts_pairs() == old(self).accounts_pairs());
                }
                Ok(())
            },
            None => {
                proof {
                    lemma_map_of_contains(oldp, account_uuid@);
                }
                let mut ts: Vec<Transaction> = Vec::new();
                ts.push(transaction.clone());
                let store = AccountStore { account: clone_id(account_uuid), transactions: ts };
                let ghost newtv = store.transactions@.map_values(|t: Transaction| t@);
                self.stores.push(store);
                proof {
                    assert(newtv =~= seq![transaction@]);
                    assert(self.stores_pairs() =~= oldp.push((account_uuid@, newtv)));
                    assert forall|k: int| 0 <= k < oldp.len() implies oldp[k].0
                        != account_uuid@ by {
                        assert(old(self).stores@[k].account@ != account_uuid@);
                    }
                    lemma_map_of_push(oldp, (account_uuid@, newtv));
                    let tp = tx_pairs(newtv);
                    assert(tp =~= seq![(transaction@.uuid, transaction@)]);
                    assert(tp.drop_last() =~= Seq::<(Seq<u8>, TransactionV)>::empty());
                    assert(map_of(tp.drop_last()) == Map::<Seq<u8>, TransactionV>::empty());
                    assert(map_of(tp) == map_of(tp.drop_last()).insert(
                        transaction@.uuid,
                        transaction@,
                    ));
                    assert(old(self).account_txs(account_uuid@) =~= Map::<
                        Seq<u8>,
                        TransactionV,
                    >::empty());
                    assert(self.account_txs(account_uuid@) =~= old(self).account_txs(
                        account_uuid@,
                    ).insert(transaction@.uuid, transaction@));
                    assert forall|k: int| 0 <= k < self.stores_pairs().len() implies
                        keys_distinct(tx_pairs(#[trigger] self.stores_pairs()[k].1)) by {
                        if k < oldp.len() {
                            assert(self.stores_pairs()[k] == oldp[k]);
                        } else {
                            assert(self.stores_pairs()[k] == (account_uuid@, newtv));
                        }
                    }
                    assert(self.accounts_pairs() == old(self).accounts_pairs());
                }
                Ok(())
            },
        }
    }

    fn get_transaction(&self, account_uuid: &AccountId, transaction_id: &TransactionId) -> (r:
        Result<Transaction, Error>) {
        match self.find_store_index(account_uuid) {
            Some(i) => {
                proof {
                    assert(self.stores_pairs()[i as int].0 == account_uuid@);
                    lemma_map_of_index(self.stores_pairs(), i as int);
                }
                let ghost tv = self.stores@[i as int].transactions@.map_values(
                    |t: Transaction| t@,
                );
                match find_tx_index(&self.stores[i].transactions, transaction_id) {
                    Some(j) => {
                        proof {
                            assert(tx_pairs(tv)[j as int] == (transaction_id@, tv[j as int]));
                            lemma_map_of_index(tx_pairs(tv), j as int);
                        }
                        Ok(self.stores[i].transactions[j].clone())
                    },
                    None => {
                        proof {
                            lemma_map_of_contains(tx_pairs(tv), transaction_id@);
                        }
                        Err(Error::NoSuchTransaction)
                    },
                }
            },
            None => {
                proof {
                    lemma_map_of_contains(self.stores_pairs(), account_uuid@);
                }
                Err(Error::NoSuchTransaction)
            },
        }
    }
}

} // verus!
