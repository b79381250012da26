//! Entity shapes of the ledger: opaque byte identifiers, persons, accounts,
//! and transactions, together with their mathematical views.

use vstd::prelude::*;

verus! {

/// Opaque account identifier: a byte string chosen by a generator.
pub type AccountId = Vec<u8>;

/// Opaque person identifier.
pub type PersonId = Vec<u8>;

/// Opaque transaction identifier; the empty sequence means "none".
pub type TransactionId = Vec<u8>;

/// A member of an account. Persons exist only inside an account record.
#[derive(Debug, PartialEq)]
pub struct Person {
    pub uuid: PersonId,
    pub name: String,
}

/// Mathematical image of a `Person`.
pub struct PersonV {
    pub uuid: Seq<u8>,
    pub name: Seq<char>,
}

impl View for Person {
    type V = PersonV;

    open spec fn view(&self) -> PersonV {
        (PersonV { uuid: self.uuid@, name: self.name@ })
    }
}

/// An account: a label, an ordered member list, and a pointer to the newest
/// transaction of its chain (empty id when the account has none).
#[derive(Debug, PartialEq)]
pub struct Account {
    pub uuid: AccountId,
    pub label: String,
    pub latest_transaction: TransactionId,
    pub members: Vec<Person>,
}

/// Mathematical image of an `Account`.
pub struct AccountV {
    pub uuid: Seq<u8>,
    pub label: Seq<char>,
    pub latest_transaction: Seq<u8>,
    pub members: Seq<PersonV>,
}

impl View for Account {
    type V = AccountV;

    open spec fn view(&self) -> AccountV {
        (AccountV {
            uuid: self.uuid@,
            label: self.label@,
            latest_transaction: self.latest_transaction@,
            members: self.members@.map_values(|p: Person| p@),
        })
    }
}

impl AccountV {
    /// No two members share a uuid; identifiers are globally unique.
    pub open spec fn members_distinct(self) -> bool {
        forall|i: int, j: int|
            0 <= i < j < self.members.len() ==> self.members[i].uuid != self.members[j].uuid
    }

    /// The same record with its `latest_transaction` pointer rewritten.
    pub open spec fn with_latest(self, tx_id: Seq<u8>) -> AccountV {
        (AccountV {
            uuid: self.uuid,
            label: self.label,
            latest_transaction: tx_id,
            members: self.members,
        })
    }
}

/// One contribution of a payer to an expense, in minor currency units.
#[derive(Debug, PartialEq)]
pub struct PayedBy {
    pub person: PersonId,
    pub amount: u32,
}

/// One share of an expense attributed to a beneficiary.
#[derive(Debug, PartialEq)]
pub struct PayedFor {
    pub person: PersonId,
    pub amount: u32,
}

/// Mathematical image of a `PayedBy` or `PayedFor` entry.
pub struct EntryV {
    pub person: Seq<u8>,
    pub amount: u32,
}

impl View for PayedBy {
    type V = EntryV;

    open spec fn view(&self) -> EntryV {
        (EntryV { person: self.person@, amount: self.amount })
    }
}

impl View for PayedFor {
    type V = EntryV;

    open spec fn view(&self) -> EntryV {
        (EntryV { person: self.person@, amount: self.amount })
    }
}

/// One expense record. Edits are made by storing a new record under the same
/// `uuid`; `deleted` and `replaces` model logical supersession without
/// breaking the `parent` linkage of the chain.
#[derive(Debug, PartialEq)]
pub struct Transaction {
    pub uuid: TransactionId,
    pub parent: TransactionId,
    pub amount: u32,
    pub payed_by: Vec<PayedBy>,
    pub payed_for: Vec<PayedFor>,
    pub label: String,
    pub timestamp: u64,
    pub deleted: bool,
    pub replaces: TransactionId,
}

/// Mathematical image of a `Transaction`.
pub struct TransactionV {
    pub uuid: Seq<u8>,
    pub parent: Seq<u8>,
    pub amount: u32,
    pub payed_by: Seq<EntryV>,
    pub payed_for: Seq<EntryV>,
    pub label: Seq<char>,
    pub timestamp: u64,
    pub deleted: bool,
    pub replaces: Seq<u8>,
}

impl View for Transaction {
    type V = TransactionV;

    open spec fn view(&self) -> TransactionV {
        (TransactionV {
            uuid: self.uuid@,
            parent: self.parent@,
            amount: self.amount,
            payed_by: self.payed_by@.map_values(|e: PayedBy| e@),
            payed_for: self.payed_for@.map_values(|e: PayedFor| e@),
            label: self.label@,
            timestamp: self.timestamp,
            deleted: self.deleted,
            replaces: self.replaces@,
        })
    }
}

/// Copies a byte identifier.
pub fn clone_id(id: &Vec<u8>) -> (r: Vec<u8>)
    ensures
        r@ == id@,
{
    let mut r: Vec<u8> = Vec::new();
    let mut i: usize = 0;
    while i < id.len()
        invariant
            i <= id@.len(),
            r@ == id@.subrange(0, i as int),
        decreases id@.len() - i,
    {
        r.push(id[i]);
        proof {
            assert(r@ =~= id@.subrange(0, i + 1));
        }
        i = i + 1;
    }
    proof {
        assert(r@ =~= id@);
    }
    r
}

impl Clone for Person {
    fn clone(&self) -> (res: Self)
        ensures
            res@ == self@,
    {
        (Person { uuid: clone_id(&self.uuid), name: self.name.clone() })
    }
}

impl Clone for PayedBy {
    fn clone(&self) -> (res: Self)
        ensures
            res@ == self@,
    {
        (PayedBy { person: clone_id(&self.person), amount: self.amount })
    }
}

impl Clone for PayedFor {
    fn clone(&self) -> (res: Self)
        ensures
            res@ == self@,
    {
        (PayedFor { person: clone_id(&self.person), amount: self.amount })
    }
}

fn clone_members(v: &Vec<Person>) -> (r: Vec<Person>)
    ensures
        r@.map_values(|p: Person| p@) == v@.map_values(|p: Person| p@),
{
    let mut r: Vec<Person> = Vec::new();
    let mut i: usize = 0;
    while i < v.len()
        invariant
            i <= v@.len(),
            r@.len() == i,
            forall|k: int| 0 <= k < i ==> r@[k]@ == v@[k]@,
        decreases v@.len() - i,
    {
        r.push(v[i].clone());
        i = i + 1;
    }
    proof {
        assert(r@.map_values(|p: Person| p@) =~= v@.map_values(|p: Person| p@));
    }
    r
}

impl Clone for Account {
    fn clone(&self) -> (res: Self)
        ensures
            res@ == self@,
    {
        (Account {
            uuid: clone_id(&self.uuid),
            label: self.label.clone(),
            latest_transaction: clone_id(&self.latest_transaction),
            members: clone_members(&self.members),
        })
    }
}

fn clone_payed_by(v: &Vec<PayedBy>) -> (r: Vec<PayedBy>)
    ensures
        r@.map_values(|e: PayedBy| e@) == v@.map_values(|e: PayedBy| e@),
{
    let mut r: Vec<PayedBy> = Vec::new();
    let mut i: usize = 0;
    while i < v.len()
        invariant
            i <= v@.len(),
            r@.len() == i,
            forall|k: int| 0 <= k < i ==> r@[k]@ == v@[k]@,
        decreases v@.len() - i,
    {
        r.push(v[i].clone());
        i = i + 1;
    }
    proof {
        assert(r@.map_values(|e: PayedBy| e@) =~= v@.map_values(|e: PayedBy| e@));
    }
    r
}

fn clone_payed_for(v: &Vec<PayedFor>) -> (r: Vec<PayedFor>)
    ensures
        r@.map_values(|e: PayedFor| e@) == v@.map_values(|e: PayedFor| e@),
{
    let mut r: Vec<PayedFor> = Vec::new();
    let mut i: usize = 0;
    while i < v.len()
        invariant
            i <= v@.len(),
            r@.len() == i,
            forall|k: int| 0 <= k < i ==> r@[k]@ == v@[k]@,
        decreases v@.len() - i,
    {
        r.push(v[i].clone());
        i = i + 1;
    }
    proof {
        assert(r@.map_values(|e: PayedFor| e@) =~= v@.map_values(|e: PayedFor| e@));
    }
    r
}

impl Clone for Transaction {
    fn clone(&self) -> (res: Self)
        ensures
            res@ == self@,
    {
        (Transaction {
            uuid: clone_id(&self.uuid),
            parent: clone_id(&self.parent),
            amount: self.amount,
            payed_by: clone_payed_by(&self.payed_by),
            payed_for: clone_payed_for(&self.payed_for),
            label: self.label.clone(),
            timestamp: self.timestamp,
            deleted: self.deleted,
            replaces: clone_id(&self.replaces),
        })
    }
}

/// Compares two byte identifiers for equality of their contents.
pub fn ids_equal(a: &Vec<u8>, b: &Vec<u8>) -> (r: bool)
    ensures
        r == (a@ == b@),
{
    if a.len() != b.len() {
        return false;
    }
    let mut i: usize = 0;
    while i < a.len()
        invariant
            a@.len() == b@.len(),
            i <= a@.len(),
            forall|k: int| 0 <= k < i ==> a@[k] == b@[k],
        decreases a@.len() - i,
    {
        if a[i] != b[i] {
            return false;
        }
        i = i + 1;
    }
    proof {
        assert(a@ =~= b@);
    }
    true
}

} // verus!
