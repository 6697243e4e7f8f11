//! What the estimate reads of a transaction.
use crate::address::Address;
use vstd::prelude::*;

verus! {

/// One account of a transaction, with what the transaction's own rules say of
/// its write lock.
#[derive(Clone, Copy, Debug)]
pub struct AccountEntry {
    pub address: Address,
    /// Whether the account is locked for writing when program write locks are
    /// left as they are.
    pub writable: bool,
    /// Whether the account is locked for writing when program write locks are
    /// demoted to read locks.
    pub writable_when_demoted: bool,
}

impl AccountEntry {
    /// Whether the account is locked for writing under the given policy.
    pub open spec fn locked_for_write(self, demote_program_write_locks: bool) -> bool {
        if demote_program_write_locks {
            self.writable_when_demoted
        } else {
            self.writable
        }
    }

    /// Whether the account is locked for writing under the given policy.
    pub fn is_writable(&self, demote_program_write_locks: bool) -> (writable: bool)
        ensures
            writable == self.locked_for_write(demote_program_write_locks),
    {
        if demote_program_write_locks {
            self.writable_when_demoted
        } else {
            self.writable
        }
    }
}

/// One instruction of a transaction: the program it runs and the data it hands
/// to it.
#[derive(Debug)]
pub struct InstructionEntry {
    pub program_id: Address,
    pub data: Vec<u8>,
}

/// The structure of a transaction, as far as its cost depends on it: how many
/// signatures it has, its accounts in the order of its account list, and its
/// instructions in the order in which they run.
#[derive(Debug)]
pub struct TransactionStructure {
    pub signature_count: usize,
    pub accounts: Vec<AccountEntry>,
    pub instructions: Vec<InstructionEntry>,
}

} // verus!
