use flouze::{
    Account, Error, MemoryRepository, PayedBy, PayedFor, Person, Repository, Transaction,
    chain_transactions, get_balance, get_transaction_chain,
};

fn make_test_account() -> Account {
    Account {
        uuid: vec![0xaa; 16],
        label: "Test account".to_owned(),
        latest_transaction: vec![],
        members: vec![
            Person { uuid: vec![0x01; 16], name: "Member 1".to_owned() },
            Person { uuid: vec![0x02; 16], name: "Member 2".to_owned() },
        ],
    }
}

fn make_test_transaction_1(account: &Account) -> Transaction {
    Transaction {
        uuid: vec![0x11; 16],
        parent: vec![],
        amount: 35,
        payed_by: vec![PayedBy { person: account.members[0].uuid.clone(), amount: 35 }],
        payed_for: vec![
            PayedFor { person: account.members[0].uuid.clone(), amount: 17 },
            PayedFor { person: account.members[1].uuid.clone(), amount: 18 },
        ],
        label: "Fish & Chips".to_owned(),
        timestamp: 1530288593,
        deleted: false,
        replaces: vec![],
    }
}

fn make_test_transaction_2(account: &Account, parent: &Vec<u8>) -> Transaction {
    Transaction {
        uuid: vec![0x22; 16],
        parent: parent.clone(),
        amount: 10,
        payed_by: vec![PayedBy { person: account.members[1].uuid.clone(), amount: 10 }],
        payed_for: vec![PayedFor { person: account.members[0].uuid.clone(), amount: 10 }],
        label: "Book".to_owned(),
        timestamp: 1530289903,
        deleted: false,
        replaces: vec![],
    }
}

#[test]
fn account_crud() {
    let mut repo = MemoryRepository::new();
    let account = make_test_account();

    assert_eq!(repo.get_account(&account.uuid), Err(Error::NoSuchAccount));
    assert_eq!(repo.list_accounts().unwrap(), vec![]);
    repo.add_account(&account).unwrap();

    let mut fetched = repo.get_account(&account.uuid).unwrap();
    assert_eq!(fetched, account);
    assert_eq!(repo.list_accounts().unwrap(), vec![account.clone()]);

    fetched.label = "New fancy name".to_owned();
    repo.add_account(&fetched).unwrap();

    let fetched2 = repo.get_account(&account.uuid).unwrap();
    assert_eq!(fetched2, fetched);

    assert_eq!(repo.delete_account(&vec![0xbb; 16]), Err(Error::NoSuchAccount));
    repo.delete_account(&account.uuid).unwrap();
    assert_eq!(repo.delete_account(&account.uuid), Err(Error::NoSuchAccount));
    assert_eq!(repo.get_account(&account.uuid), Err(Error::NoSuchAccount));
}

#[test]
fn list_excludes_absent_account() {
    let mut repo = MemoryRepository::new();
    let account = make_test_account();
    repo.add_account(&account).unwrap();

    let other_uuid = vec![0xbb; 16];
    assert_eq!(repo.get_account(&other_uuid), Err(Error::NoSuchAccount));
    let listed = repo.list_accounts().unwrap();
    assert_eq!(listed.len(), 1);
    assert!(listed.iter().all(|a| a.uuid != other_uuid));
}

#[test]
fn transaction_insert() {
    let mut repo = MemoryRepository::new();
    let account = make_test_account();
    repo.add_account(&account).unwrap();

    let tx = make_test_transaction_1(&account);

    assert_eq!(
        repo.get_transaction(&account.uuid, &tx.uuid),
        Err(Error::NoSuchTransaction)
    );
    repo.add_transaction(&account.uuid, &tx).unwrap();

    let mut fetched = repo.get_transaction(&account.uuid, &tx.uuid).unwrap();
    assert_eq!(fetched, tx);

    fetched.timestamp = 1530289104;
    repo.add_transaction(&account.uuid, &fetched).unwrap();

    let fetched2 = repo.get_transaction(&account.uuid, &tx.uuid).unwrap();
    assert_eq!(fetched2, fetched);
}

#[test]
fn transaction_chain() {
    let mut repo = MemoryRepository::new();
    let mut account = make_test_account();
    repo.add_account(&account).unwrap();

    {
        let mut chain = get_transaction_chain(&repo, &account);
        assert!(chain.next().is_none());
    }

    let tx1 = make_test_transaction_1(&account);

    {
        repo.add_transaction(&account.uuid, &tx1).unwrap();
        account.latest_transaction = tx1.uuid.clone();

        let mut chain = get_transaction_chain(&repo, &account);
        assert_eq!(chain.next().unwrap().unwrap(), tx1);
        assert!(chain.next().is_none());
    }

    let tx2 = make_test_transaction_2(&account, &tx1.uuid);

    {
        repo.add_transaction(&account.uuid, &tx2).unwrap();
        account.latest_transaction = tx2.uuid.clone();

        let mut chain = get_transaction_chain(&repo, &account);
        assert_eq!(chain.next().unwrap().unwrap(), tx2);
        assert_eq!(chain.next().unwrap().unwrap(), tx1);
        assert!(chain.next().is_none());
    }
}

#[test]
fn chain_updated_after_replacement() {
    let mut repo = MemoryRepository::new();
    let mut account = make_test_account();
    repo.add_account(&account).unwrap();

    let tx1 = make_test_transaction_1(&account);
    repo.add_transaction(&account.uuid, &tx1).unwrap();
    account.latest_transaction = tx1.uuid.clone();

    let mut replacement = make_test_transaction_1(&account);
    replacement.timestamp = 1530290000;
    repo.add_transaction(&account.uuid, &replacement).unwrap();

    let collected = chain_transactions(&repo, &account).unwrap();
    assert_eq!(collected, vec![replacement]);
}

#[test]
fn chain_collects_in_order() {
    let mut repo = MemoryRepository::new();
    let mut account = make_test_account();
    repo.add_account(&account).unwrap();

    let tx1 = make_test_transaction_1(&account);
    let tx2 = make_test_transaction_2(&account, &tx1.uuid);
    repo.add_transaction(&account.uuid, &tx1).unwrap();
    repo.add_transaction(&account.uuid, &tx2).unwrap();
    account.latest_transaction = tx2.uuid.clone();

    let collected = chain_transactions(&repo, &account).unwrap();
    assert_eq!(collected, vec![tx2, tx1]);
}

#[test]
fn chain_dangling_parent() {
    let mut repo = MemoryRepository::new();
    let mut account = make_test_account();
    repo.add_account(&account).unwrap();

    let mut tx = make_test_transaction_1(&account);
    tx.parent = vec![0xdd; 16];
    repo.add_transaction(&account.uuid, &tx).unwrap();
    account.latest_transaction = tx.uuid.clone();

    let mut chain = get_transaction_chain(&repo, &account);
    assert_eq!(chain.next().unwrap().unwrap(), tx);
    assert_eq!(chain.next().unwrap(), Err(Error::NoSuchTransaction));
    assert!(chain.next().is_none());

    assert_eq!(chain_transactions(&repo, &account), Err(Error::NoSuchTransaction));
}

#[test]
fn chain_cycle_detected() {
    let mut repo = MemoryRepository::new();
    let mut account = make_test_account();
    repo.add_account(&account).unwrap();

    let mut tx = make_test_transaction_1(&account);
    tx.parent = tx.uuid.clone();
    repo.add_transaction(&account.uuid, &tx).unwrap();
    account.latest_transaction = tx.uuid.clone();

    let mut chain = get_transaction_chain(&repo, &account);
    assert_eq!(chain.next().unwrap().unwrap(), tx);
    assert_eq!(chain.next().unwrap(), Err(Error::CorruptChain));
    assert!(chain.next().is_none());

    assert_eq!(chain_transactions(&repo, &account), Err(Error::CorruptChain));
}

#[test]
fn balance() {
    let mut repo = MemoryRepository::new();
    let mut account = make_test_account();
    let tx1 = make_test_transaction_1(&account);
    let tx2 = make_test_transaction_2(&account, &tx1.uuid);

    repo.add_account(&account).unwrap();
    repo.add_transaction(&account.uuid, &tx1).unwrap();
    repo.add_transaction(&account.uuid, &tx2).unwrap();
    account.latest_transaction = tx2.uuid.clone();

    let balance = get_balance(&repo, &account).unwrap();
    assert_eq!(balance.len(), 2);
    assert_eq!(balance[0].person, account.members[0].uuid);
    assert_eq!(balance[0].amount, 8);
    assert_eq!(balance[1].person, account.members[1].uuid);
    assert_eq!(balance[1].amount, -8);
}

#[test]
fn balance_empty_chain() {
    let mut repo = MemoryRepository::new();
    let account = make_test_account();
    repo.add_account(&account).unwrap();

    let balance = get_balance(&repo, &account).unwrap();
    assert_eq!(balance.len(), 2);
    assert_eq!(balance[0].amount, 0);
    assert_eq!(balance[1].amount, 0);
}

#[test]
fn balance_ignores_unknown_member() {
    let mut repo = MemoryRepository::new();
    let mut account = make_test_account();
    repo.add_account(&account).unwrap();

    let mut tx = make_test_transaction_1(&account);
    tx.payed_by.push(PayedBy { person: vec![0xee; 16], amount: 1000 });
    tx.payed_for.push(PayedFor { person: vec![0xef; 16], amount: 1000 });
    repo.add_transaction(&account.uuid, &tx).unwrap();
    account.latest_transaction = tx.uuid.clone();

    let balance = get_balance(&repo, &account).unwrap();
    assert_eq!(balance[0].amount, 35 - 17);
    assert_eq!(balance[1].amount, -18);
}

#[test]
fn balance_aborts_on_broken_chain() {
    let mut repo = MemoryRepository::new();
    let mut account = make_test_account();
    repo.add_account(&account).unwrap();

    let mut tx = make_test_transaction_1(&account);
    tx.parent = vec![0xdd; 16];
    repo.add_transaction(&account.uuid, &tx).unwrap();
    account.latest_transaction = tx.uuid.clone();

    assert_eq!(get_balance(&repo, &account), Err(Error::NoSuchTransaction));
}

#[test]
fn set_latest_transaction_updates_pointer() {
    let mut repo = MemoryRepository::new();
    let account = make_test_account();
    repo.add_account(&account).unwrap();

    let tx = make_test_transaction_1(&account);
    repo.add_transaction(&account.uuid, &tx).unwrap();

    assert_eq!(
        repo.set_latest_transaction(&vec![0xbb; 16], &tx.uuid),
        Err(Error::NoSuchAccount)
    );

    repo.set_latest_transaction(&account.uuid, &tx.uuid).unwrap();
    let fetched = repo.get_account(&account.uuid).unwrap();
    assert_eq!(fetched.latest_transaction, tx.uuid);
    assert_eq!(fetched.label, account.label);
    assert_eq!(fetched.members, account.members);
}

#[test]
fn delete_account_keeps_transactions() {
    let mut repo = MemoryRepository::new();
    let account = make_test_account();
    repo.add_account(&account).unwrap();

    let tx = make_test_transaction_1(&account);
    repo.add_transaction(&account.uuid, &tx).unwrap();

    repo.delete_account(&account.uuid).unwrap();
    assert_eq!(repo.get_account(&account.uuid), Err(Error::NoSuchAccount));
    assert_eq!(repo.get_transaction(&account.uuid, &tx.uuid).unwrap(), tx);
}

#[test]
fn balance_adds_up_segment_by_segment() {
    let account = make_test_account();
    let tx1 = make_test_transaction_1(&account);
    let tx2 = make_test_transaction_2(&account, &tx1.uuid);

    let whole = flouze::balance_of_transactions(&account, &vec![tx2.clone(), tx1.clone()]);
    let first = flouze::balance_of_transactions(&account, &vec![tx2]);
    let second = flouze::balance_of_transactions(&account, &vec![tx1]);

    for j in 0..account.members.len() {
        assert_eq!(whole[j].amount, first[j].amount + second[j].amount);
    }
}

#[test]
fn error_messages() {
    assert_eq!(Error::NoSuchAccount.message(), "no such account");
    assert_eq!(Error::NoSuchTransaction.message(), "no such transaction");
    assert_eq!(Error::CorruptChain.message(), "corrupt transaction chain");
    assert_eq!(Error::BackendFailure.message(), "storage backend failure");
}

#[test]
fn add_transaction_does_not_move_head() {
    let mut repo = MemoryRepository::new();
    let account = make_test_account();
    repo.add_account(&account).unwrap();

    let tx = make_test_transaction_1(&account);
    repo.add_transaction(&account.uuid, &tx).unwrap();

    let fetched = repo.get_account(&account.uuid).unwrap();
    assert_eq!(fetched.latest_transaction, Vec::<u8>::new());
}
