//! The storage contract every backend satisfies, and the walk of an
//! account's transaction chain from its newest transaction back to the root.

use vstd::prelude::*;

use crate::errors::Error;
use crate::model::{Account, AccountId, AccountV, Transaction, TransactionId, TransactionV};
use crate::model::clone_id;

verus! {

/// How a chain walk ends: at the root, at a dangling `parent` pointer, or at
/// a transaction whose ancestry loops back on itself.
pub enum ChainEnd {
    Complete,
    Dangling,
    Cycle,
}

/// The full outcome of a chain walk: the transactions met, newest first, and
/// the way the walk ended.
pub struct ChainSpec {
    pub txs: Seq<TransactionV>,
    pub end: ChainEnd,
}

/// The chain walked from `cursor` through `parent` links over the stored
/// transactions `txm` of one account, skipping nothing; `visited` holds the
/// identifiers already walked. The walk stops at the empty identifier, at an
/// identifier not stored (a dangling parent), or at one met before (a cycle).
pub open spec fn chain_from(
    txm: Map<Seq<u8>, TransactionV>,
    cursor: Seq<u8>,
    visited: Set<Seq<u8>>,
) -> ChainSpec
    decreases txm.dom().difference(visited).len(),
        when txm.dom().finite()
{
    if cursor.len() == 0 {
        (ChainSpec { txs: Seq::empty(), end: ChainEnd::Complete })
    } else if visited.contains(cursor) {
        (ChainSpec { txs: Seq::empty(), end: ChainEnd::Cycle })
    } else if !txm.dom().contains(cursor) {
        (ChainSpec { txs: Seq::empty(), end: ChainEnd::Dangling })
    } else {
        proof {
            let d1 = txm.dom().difference(visited);
            let d2 = txm.dom().difference(visited.insert(cursor));
            assert(d2 =~= d1.remove(cursor));
            assert(d1.contains(cursor));
        }
        let rest = chain_from(txm, txm[cursor].parent, visited.insert(cursor));
        (ChainSpec { txs: seq![txm[cursor]] + rest.txs, end: rest.end })
    }
}

/// The chain of an account: the walk that starts at its newest transaction.
pub open spec fn account_chain<R: Repository>(repo: &R, account: AccountV) -> ChainSpec {
    chain_from(repo.account_txs(account.uuid), account.latest_transaction, Set::empty())
}

/// What a listing returns: every listed record is stored under its uuid,
/// every stored uuid is listed, and no uuid is listed twice.
pub open spec fn lists_accounts(accounts: Map<Seq<u8>, AccountV>, l: Seq<Account>) -> bool {
    &&& forall|i: int|
        0 <= i < l.len() ==> accounts.contains_key(#[trigger] l[i]@.uuid) && l[i]@
            == accounts[l[i]@.uuid]
    &&& forall|k: Seq<u8>|
        accounts.contains_key(k) ==> exists|i: int|
            0 <= i < l.len() && (#[trigger] l[i]@.uuid) == k
    &&& forall|i: int, j: int| 0 <= i < j < l.len() ==> l[i]@.uuid != l[j]@.uuid
}

/// The storage contract (see the crate's error kinds for the failures). A
/// backend models its state as a map from account uuid to account record and,
/// per account, a map from transaction uuid to transaction record. A backend
/// that can meet an underlying fault reports it as `BackendFailure` and then
/// leaves the stored state unchanged; one whose `reliable()` holds never
/// reports that kind.
pub trait Repository: Sized {
    /// The accounts now stored, keyed by account uuid.
    spec fn accounts(&self) -> Map<Seq<u8>, AccountV>;

    /// The transactions stored for one account, keyed by transaction uuid.
    spec fn account_txs(&self, account_id: Seq<u8>) -> Map<Seq<u8>, TransactionV>;

    /// Whether this backend is free of underlying faults.
    spec fn reliable(&self) -> bool;

    /// Backend well-formedness; constructors establish it, operations keep it.
    spec fn inv(&self) -> bool;

    /// A well-formed backend stores finitely many records.
    proof fn lemma_inv(&self, account_id: Seq<u8>)
        requires
            self.inv(),
        ensures
            self.accounts().dom().finite(),
            self.account_txs(account_id).dom().finite(),
    ;

    /// Stores the account record under `account.uuid`, replacing any prior
    /// record there whole.
    fn add_account(&mut self, account: &Account) -> (r: Result<(), Error>)
        requires
            old(self).inv(),
        ensures
            final(self).inv(),
            final(self).reliable() == old(self).reliable(),
            r is Ok ==> final(self).accounts() == old(self).accounts().insert(
                account@.uuid,
                account@,
            ),
            r matches Err(e) ==> e == Error::BackendFailure && final(self).accounts() == old(self).accounts(),
            forall|aid: Seq<u8>|
                #[trigger] final(self).account_txs(aid) == old(self).account_txs(aid),
            old(self).reliable() ==> r is Ok,
    ;

    /// Returns a copy of the stored account record, or `NoSuchAccount`.
    fn get_account(&self, account_id: &AccountId) -> (r: Result<Account, Error>)
        requires
            self.inv(),
        ensures
            r matches Ok(a) ==> self.accounts().contains_key(account_id@) && a@
                == self.accounts()[account_id@],
            r matches Err(e) ==> (e == Error::NoSuchAccount && !self.accounts().contains_key(
                account_id@,
            )) || e == Error::BackendFailure,
            self.reliable() ==> (r is Ok <==> self.accounts().contains_key(account_id@)),
            self.reliable() ==> !(r matches Err(e) && e == Error::BackendFailure),
    ;

    /// Removes the account record only; its transactions stay, orphaned.
    fn delete_account(&mut self, account_id: &AccountId) -> (r: Result<(), Error>)
        requires
            old(self).inv(),
        ensures
            final(self).inv(),
            final(self).reliable() == old(self).reliable(),
            r is Ok ==> old(self).accounts().contains_key(account_id@) && final(self).accounts()
                == old(self).accounts().remove(account_id@),
            r matches Err(e) ==> ((e == Error::NoSuchAccount && !old(self).accounts().contains_key(account_id@)) || e == Error::BackendFailure) && final(self).accounts() == old(self).accounts(),
            forall|aid: Seq<u8>|
                #[trigger] final(self).account_txs(aid) == old(self).account_txs(aid),
            old(self).reliable() ==> (r is Ok <==> old(self).accounts().contains_key(
                account_id@,
            )),
            old(self).reliable() ==> !(r matches Err(e) && e == Error::BackendFailure),
    ;

    /// Returns copies of all stored accounts, each exactly once, in a
    /// backend-determined order.
    fn list_accounts(&self) -> (r: Result<Vec<Account>, Error>)
        requires
            self.inv(),
        ensures
            r matches Ok(l) ==> lists_accounts(self.accounts(), l@),
            r matches Err(e) ==> e == Error::BackendFailure,
            self.reliable() ==> r is Ok,
    ;

    /// Rewrites only the `latest_transaction` pointer of a stored account.
    fn set_latest_transaction(&mut self, account_id: &AccountId, tx_id: &TransactionId) -> (r:
        Result<(), Error>)
        requires
            old(self).inv(),
        ensures
            final(self).inv(),
            final(self).reliable() == old(self).reliable(),
            r is Ok ==> old(self).accounts().contains_key(account_id@) && final(self).accounts()
                == old(self).accounts().insert(
                account_id@,
                old(self).accounts()[account_id@].with_latest(tx_id@),
            ),
            r matches Err(e) ==> ((e == Error::NoSuchAccount && !old(self).accounts().contains_key(account_id@)) || e == Error::BackendFailure) && final(self).accounts() == old(self).accounts(),
            forall|aid: Seq<u8>|
                #[trigger] final(self).account_txs(aid) == old(self).account_txs(aid),
            old(self).reliable() ==> (r is Ok <==> old(self).accounts().contains_key(
                account_id@,
            )),
            old(self).reliable() ==> !(r matches Err(e) && e == Error::BackendFailure),
    ;

    /// Stores the transaction under `(account_uuid, transaction.uuid)`,
    /// replacing any prior record there whole. Neither the `parent` linkage
    /// nor the account's `latest_transaction` pointer is touched.
    fn add_transaction(&mut self, account_uuid: &AccountId, transaction: &Transaction) -> (r:
        Result<(), Error>)
        requires
            old(self).inv(),
        ensures
            final(self).inv(),
            final(self).reliable() == old(self).reliable(),
            final(self).accounts() == old(self).accounts(),
            r is Ok ==> final(self).account_txs(account_uuid@) == old(self).account_txs(
                account_uuid@,
            ).insert(transaction@.uuid, transaction@),
            r matches Err(e) ==> e == Error::BackendFailure && final(self).account_txs(
                account_uuid@,
            ) == old(self).account_txs(account_uuid@),
            forall|aid: Seq<u8>|
                aid != account_uuid@ ==> #[trigger] final(self).account_txs(aid) == old(self).account_txs(aid),
            old(self).reliable() ==> r is Ok,
    ;

    /// Returns a copy of the stored transaction, or `NoSuchTransaction`.
    fn get_transaction(&self, account_uuid: &AccountId, transaction_id: &TransactionId) -> (r:
        Result<Transaction, Error>)
        requires
            self.inv(),
        ensures
            r matches Ok(t) ==> self.account_txs(account_uuid@).contains_key(transaction_id@)
                && t@ == self.account_txs(account_uuid@)[transaction_id@],
            r matches Err(e) ==> (e == Error::NoSuchTransaction && !self.account_txs(
                account_uuid@,
            ).contains_key(transaction_id@)) || e == Error::BackendFailure,
            self.reliable() ==> (r is Ok <==> self.account_txs(account_uuid@).contains_key(
                transaction_id@,
            )),
            self.reliable() ==> !(r matches Err(e) && e == Error::BackendFailure),
    ;
}

/// Pushing onto a sequence inserts into the set of its elements.
proof fn lemma_push_to_set<A>(s: Seq<A>, x: A)
    ensures
        s.push(x).to_set() == s.to_set().insert(x),
{
    let t = s.push(x);
    assert forall|y: A| #[trigger] t.to_set().contains(y) implies s.to_set().insert(x).contains(
        y,
    ) by {
        let i = choose|i: int| 0 <= i < t.len() && t[i] == y;
        if i < s.len() {
            assert(s[i] == y);
        }
    }
    assert forall|y: A| #[trigger] s.to_set().insert(x).contains(y) implies t.to_set().contains(
        y,
    ) by {
        if y == x {
            assert(t[s.len() as int] == y);
        } else {
            let i = choose|i: int| 0 <= i < s.len() && s[i] == y;
            assert(t[i] == y);
        }
    }
    assert(t.to_set() =~= s.to_set().insert(x));
}

/// A lazy, finite, non-restartable walk of one account's chain, newest
/// transaction first. Identifiers met before are remembered, so a malformed
/// cyclic chain ends in a single `CorruptChain` error instead of looping.
pub struct TransactionChain<'a, R: Repository> {
    pub repo: &'a R,
    pub account_id: AccountId,
    pub id: TransactionId,
    pub visited: Vec<TransactionId>,
}

impl<'a, R: Repository> TransactionChain<'a, R> {
    /// The identifiers already walked.
    pub open spec fn visited_set(self) -> Set<Seq<u8>> {
        self.visited@.map_values(|v: Vec<u8>| v@).to_set()
    }

    /// The stored transactions of the walked account.
    pub open spec fn txm(self) -> Map<Seq<u8>, TransactionV> {
        self.repo.account_txs(self.account_id@)
    }

    /// What is left of the walk.
    pub open spec fn rem(self) -> ChainSpec {
        chain_from(self.txm(), self.id@, self.visited_set())
    }

    /// The walk is usable: the backend it reads from is well-formed.
    pub open spec fn wf(self) -> bool {
        self.repo.inv()
    }

    /// Starts a walk over `repo` at the transaction `id` of the account
    /// `account_id`.
    pub fn new(repo: &'a R, account_id: &AccountId, id: &TransactionId) -> (c: TransactionChain<
        'a,
        R,
    >)
        requires
            repo.inv(),
        ensures
            c.wf(),
            c.repo == repo,
            c.account_id@ == account_id@,
            c.id@ == id@,
            c.visited_set() == Set::<Seq<u8>>::empty(),
            c.rem() == chain_from(repo.account_txs(account_id@), id@, Set::empty()),
    {
        let c = TransactionChain {
            repo,
            account_id: clone_id(account_id),
            id: clone_id(id),
            visited: Vec::new(),
        };
        proof {
            assert(c.visited@.map_values(|v: Vec<u8>| v@) =~= Seq::<Seq<u8>>::empty());
            assert(c.visited_set() =~= Set::<Seq<u8>>::empty());
        }
        c
    }

    /// One step of the walk. Yields the transaction under the cursor and
    /// moves the cursor to its parent; yields one error and becomes exhausted
    /// on a dangling parent, a cycle, or a backend fault; yields nothing once
    /// the cursor is the empty identifier.
    pub fn next(&mut self) -> (r: Option<Result<Transaction, Error>>)
        requires
            old(self).wf(),
        ensures
            final(self).wf(),
            final(self).repo == old(self).repo,
            final(self).account_id@ == old(self).account_id@,
            old(self).id@.len() == 0 ==> r is None && *final(self) == *old(self),
            old(self).id@.len() > 0 ==> r is Some,
            r matches Some(Ok(tx)) ==> {
                &&& old(self).rem().txs.len() > 0
                &&& tx@ == old(self).rem().txs[0]
                &&& final(self).rem().txs == old(self).rem().txs.drop_first()
                &&& final(self).rem().end == old(self).rem().end
            },
            r matches Some(Err(e)) ==> {
                &&& final(self).id@.len() == 0
                &&& (e == Error::CorruptChain ==> old(self).rem().end is Cycle && old(self).rem().txs.len() == 0)
                &&& (e == Error::NoSuchTransaction ==> old(self).rem().end is Dangling && old(self).rem().txs.len() == 0)
                &&& (e == Error::BackendFailure ==> !old(self).repo.reliable())
                &&& (e == Error::CorruptChain || e == Error::NoSuchTransaction || e
                    == Error::BackendFailure)
            },
            old(self).repo.reliable() && old(self).id@.len() > 0 ==> {
                &&& (old(self).rem().txs.len() > 0 ==> (r matches Some(Ok(tx)) && tx@ == old(self).rem().txs[0]))
                &&& (old(self).rem().txs.len() == 0 && old(self).rem().end is Cycle ==> (r
                    matches Some(Err(e)) && e == Error::CorruptChain))
                &&& (old(self).rem().txs.len() == 0 && old(self).rem().end is Dangling ==> (r
                    matches Some(Err(e)) && e == Error::NoSuchTransaction))
            },
    {
        proof {
            old(self).repo.lemma_inv(old(self).account_id@);
        }
        if self.id.len() == 0 {
            return None;
        }
        if contains_id(&self.visited, &self.id) {
            proof {
                let s = old(self).visited@.map_values(|v: Vec<u8>| v@);
                let i = choose|i: int|
                    0 <= i < old(self).visited@.len() && old(self).visited@[i]@ == old(self).id@;
                assert(s[i] == old(self).id@);
                assert(s.contains(old(self).id@));
                assert(old(self).visited_set().contains(old(self).id@));
            }
            self.id = Vec::new();
            return Some(Err(Error::CorruptChain));
        }
        proof {
            assert(!old(self).visited_set().contains(old(self).id@)) by {
                if old(self).visited_set().contains(old(self).id@) {
                    let s = old(self).visited@.map_values(|v: Vec<u8>| v@);
                    let i = choose|i: int| 0 <= i < s.len() && s[i] == old(self).id@;
                    assert(old(self).visited@[i]@ == old(self).id@);
                }
            }
        }
        match self.repo.get_transaction(&self.account_id, &self.id) {
            Err(e) => {
                self.id = Vec::new();
                Some(Err(e))
            },
            Ok(tx) => {
                let cur = clone_id(&self.id);
                self.id = clone_id(&tx.parent);
                self.visited.push(cur);
                proof {
                    let mv0 = old(self).visited@.map_values(|v: Vec<u8>| v@);
                    let mv1 = self.visited@.map_values(|v: Vec<u8>| v@);
                    assert(mv1 =~= mv0.push(old(self).id@));
                    lemma_push_to_set(mv0, old(self).id@);
                    assert(self.visited_set() == old(self).visited_set().insert(old(self).id@));
                    assert(final(self).rem().txs =~= old(self).rem().txs.drop_first());
                }
                Some(Ok(tx))
            },
        }
    }
}

/// True when some identifier of `v` has the same contents as `x`.
fn contains_id(v: &Vec<TransactionId>, x: &TransactionId) -> (r: bool)
    ensures
        r == exists|i: int| 0 <= i < v@.len() && v@[i]@ == x@,
{
    let mut i: usize = 0;
    while i < v.len()
        invariant
            i <= v@.len(),
            forall|k: int| 0 <= k < i ==> v@[k]@ != x@,
        decreases v@.len() - i,
    {
        if crate::model::ids_equal(&v[i], x) {
            return true;
        }
        i = i + 1;
    }
    false
}

/// Starts the chain walk of an account, at its `latest_transaction`.
pub fn get_transaction_chain<'a, R: Repository>(repo: &'a R, account: &Account) -> (c:
    TransactionChain<'a, R>)
    requires
        repo.inv(),
    ensures
        c.wf(),
        c.repo == repo,
        c.account_id@ == account@.uuid,
        c.id@ == account@.latest_transaction,
        c.rem() == account_chain(repo, account@),
{
    TransactionChain::new(repo, &account.uuid, &account.latest_transaction)
}

/// Walks an account's whole chain and collects the transactions, newest
/// first; stops at the first error and hands it through.
pub fn chain_transactions<R: Repository>(repo: &R, account: &Account) -> (r: Result<
    Vec<Transaction>,
    Error,
>)
    requires
        repo.inv(),
    ensures
        r matches Ok(l) ==> account_chain(repo, account@).end is Complete && l@.map_values(
            |t: Transaction| t@,
        ) == account_chain(repo, account@).txs,
        r matches Err(e) ==> {
            &&& (e == Error::CorruptChain ==> account_chain(repo, account@).end is Cycle)
            &&& (e == Error::NoSuchTransaction ==> account_chain(repo, account@).end is Dangling)
            &&& (e == Error::BackendFailure ==> !repo.reliable())
            &&& (e == Error::CorruptChain || e == Error::NoSuchTransaction || e
                == Error::BackendFailure)
        },
        repo.reliable() ==> (r is Ok <==> account_chain(repo, account@).end is Complete),
{
    let full = Ghost(account_chain(repo, account@));
    let mut chain = get_transaction_chain(repo, account);
    let mut out: Vec<Transaction> = Vec::new();
    loop
        invariant
            chain.wf(),
            chain.repo == repo,
            chain.account_id@ == account@.uuid,
            full@.end == chain.rem().end,
            full@.txs == out@.map_values(|t: Transaction| t@) + chain.rem().txs,
            full@ == account_chain(repo, account@),
        decreases chain.rem().txs.len() + (if chain.id@.len() == 0 { 0int } else { 1int }),
    {
        proof {
            repo.lemma_inv(account@.uuid);
        }
        match chain.next() {
            None => {
                proof {
                    assert(chain.rem().txs =~= Seq::<TransactionV>::empty());
                    assert(full@.txs =~= out@.map_values(|t: Transaction| t@));
                }
                return Ok(out);
            },
            Some(Err(e)) => {
                return Err(e);
            },
            Some(Ok(tx)) => {
                let prev = Ghost(out@.map_values(|t: Transaction| t@));
                out.push(tx);
                proof {
                    assert(out@.map_values(|t: Transaction| t@) =~= prev@.push(tx@));
                    assert(full@.txs =~= out@.map_values(|t: Transaction| t@)
                        + chain.rem().txs);
                }
            },
        }
    }
}

/// An account never added cannot appear in a listing: if its uuid is not
/// stored, no listed record carries it.
pub proof fn lemma_absent_account_excluded(
    accounts: Map<Seq<u8>, AccountV>,
    listed: Seq<Account>,
    uuid: Seq<u8>,
)
    requires
        lists_accounts(accounts, listed),
        !accounts.contains_key(uuid),
    ensures
        forall|i: int| 0 <= i < listed.len() ==> (#[trigger] listed[i]@.uuid) != uuid,
{
}

/// Upserting twice under one uuid keeps the second record whole: no merge
/// with the first takes place.
pub proof fn lemma_upsert_replaces(
    accounts: Map<Seq<u8>, AccountV>,
    first: AccountV,
    second: AccountV,
)
    requires
        first.uuid == second.uuid,
    ensures
        accounts.insert(first.uuid, first).insert(second.uuid, second).contains_key(second.uuid),
        accounts.insert(first.uuid, first).insert(second.uuid, second)[second.uuid] == second,
        accounts.insert(first.uuid, first).insert(second.uuid, second) == accounts.insert(
            second.uuid,
            second,
        ),
{
    assert(accounts.insert(first.uuid, first).insert(second.uuid, second) =~= accounts.insert(
        second.uuid,
        second,
    ));
}

/// A deleted uuid is gone from the stored accounts, so a second delete of the
/// same uuid must fail with `NoSuchAccount`.
pub proof fn lemma_deleted_account_absent(accounts: Map<Seq<u8>, AccountV>, uuid: Seq<u8>)
    ensures
        !accounts.remove(uuid).contains_key(uuid),
{
}

/// Re-adding a transaction under the same uuid replaces the stored record
/// whole: a later read under that uuid gives the new record.
pub proof fn lemma_tx_upsert_replaces(txs: Map<Seq<u8>, TransactionV>, t: TransactionV)
    ensures
        txs.insert(t.uuid, t).contains_key(t.uuid),
        txs.insert(t.uuid, t)[t.uuid] == t,
{
}

/// A walk that starts at the empty identifier meets no transaction and ends
/// complete.
pub proof fn lemma_chain_empty_cursor(txm: Map<Seq<u8>, TransactionV>, visited: Set<Seq<u8>>)
    requires
        txm.dom().finite(),
    ensures
        chain_from(txm, Seq::empty(), visited).txs == Seq::<TransactionV>::empty(),
        chain_from(txm, Seq::empty(), visited).end is Complete,
{
}

/// A walk under a stored, unvisited cursor yields that transaction first and
/// then walks on from its parent.
pub proof fn lemma_chain_step(
    txm: Map<Seq<u8>, TransactionV>,
    cursor: Seq<u8>,
    visited: Set<Seq<u8>>,
)
    requires
        txm.dom().finite(),
        cursor.len() > 0,
        !visited.contains(cursor),
        txm.contains_key(cursor),
    ensures
        chain_from(txm, cursor, visited).txs == seq![txm[cursor]] + chain_from(
            txm,
            txm[cursor].parent,
            visited.insert(cursor),
        ).txs,
        chain_from(txm, cursor, visited).end == chain_from(
            txm,
            txm[cursor].parent,
            visited.insert(cursor),
        ).end,
{
}

/// A cursor that names no stored transaction ends the walk at once with a
/// dangling parent: nothing more is yielded after the error.
pub proof fn lemma_chain_dangling(
    txm: Map<Seq<u8>, TransactionV>,
    cursor: Seq<u8>,
    visited: Set<Seq<u8>>,
)
    requires
        txm.dom().finite(),
        cursor.len() > 0,
        !visited.contains(cursor),
        !txm.contains_key(cursor),
    ensures
        chain_from(txm, cursor, visited).txs == Seq::<TransactionV>::empty(),
        chain_from(txm, cursor, visited).end is Dangling,
{
}

/// A cursor met before ends the walk at once with a corrupt chain.
pub proof fn lemma_chain_cycle(
    txm: Map<Seq<u8>, TransactionV>,
    cursor: Seq<u8>,
    visited: Set<Seq<u8>>,
)
    requires
        txm.dom().finite(),
        cursor.len() > 0,
        visited.contains(cursor),
    ensures
        chain_from(txm, cursor, visited).txs == Seq::<TransactionV>::empty(),
        chain_from(txm, cursor, visited).end is Cycle,
{
}

/// A walk sees a replaced transaction in its stored form: after an upsert of
/// `t`, a walk reaching `t.uuid` yields `t` itself.
pub proof fn lemma_chain_sees_update(
    txm: Map<Seq<u8>, TransactionV>,
    t: TransactionV,
    visited: Set<Seq<u8>>,
)
    requires
        txm.dom().finite(),
        t.uuid.len() > 0,
        !visited.contains(t.uuid),
    ensures
        chain_from(txm.insert(t.uuid, t), t.uuid, visited).txs.len() > 0,
        chain_from(txm.insert(t.uuid, t), t.uuid, visited).txs[0] == t,
{
    assert(txm.insert(t.uuid, t).dom().finite());
    assert(txm.insert(t.uuid, t).dom().contains(t.uuid));
}

} // verus!
