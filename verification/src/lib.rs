//! Storage-agnostic ledger core for a shared-expense tracker: accounts,
//! parent-linked transaction chains, and per-member balance computation.

mod balance;
mod errors;
mod keyed;
mod mem;
mod model;
mod repository;

pub use balance::{
    MemberBalance, balance_in_range, balance_of, balance_of_transactions, chain_sum, entry_sum,
    get_balance, lemma_balance_additive, lemma_chain_sum_concat, lemma_chain_sum_nonneg,
    lemma_entry_sum_nonneg, neg_sum, pos_sum,
};
pub use errors::Error;
pub use keyed::{
    keys_distinct, lemma_map_of_contains, lemma_map_of_finite, lemma_map_of_index,
    lemma_map_of_push, lemma_map_of_remove, lemma_map_of_update, map_of,
};
pub use mem::{MemoryRepository, tx_pairs};
pub use model::{
    Account, AccountId, AccountV, EntryV, PayedBy, PayedFor, Person, PersonId, PersonV,
    Transaction, TransactionId, TransactionV, clone_id, ids_equal,
};
pub use repository::{
    ChainEnd, ChainSpec, Repository, TransactionChain, account_chain, chain_from,
    chain_transactions, get_transaction_chain, lemma_absent_account_excluded, lists_accounts,
    lemma_chain_cycle, lemma_chain_dangling, lemma_chain_empty_cursor, lemma_chain_sees_update,
    lemma_chain_step, lemma_deleted_account_absent, lemma_tx_upsert_replaces,
    lemma_upsert_replaces,
};
