//! Reading the SDK's transactions and public keys.
//!
//! A sanitized transaction and a public key are values of the SDK, of which
//! nothing is known here but what the functions of this file say of them. They
//! are read once, into a [`TransactionStructure`] and an [`Address`], and the
//! estimate works on those.
use crate::address::address_from_bytes;
use crate::address::address_of_bytes;
use crate::address::Address;
use crate::transaction::AccountEntry;
use crate::transaction::InstructionEntry;
use crate::transaction::TransactionStructure;
use solana_sdk::pubkey::Pubkey;
use solana_sdk::transaction::SanitizedTransaction;
use vstd::prelude::*;

verus! {

#[verifier::external_type_specification]
#[verifier::external_body]
pub struct ExSanitizedTransaction(solana_sdk::transaction::SanitizedTransaction);

#[verifier::external_type_specification]
#[verifier::external_body]
pub struct ExPubkey(solana_sdk::pubkey::Pubkey);

/// The 32 bytes that a public key holds.
pub uninterp spec fn bytes_of_pubkey(pubkey: Pubkey) -> Seq<u8>;

/// The number of signatures that a transaction holds.
pub uninterp spec fn signature_count_of(transaction: SanitizedTransaction) -> nat;

/// The account keys that the message of a transaction holds, those that it
/// loaded from address tables included, in the order of its account list, each
/// as its 32 bytes.
pub uninterp spec fn account_keys_of(transaction: SanitizedTransaction) -> Seq<Seq<u8>>;

/// What the message of a transaction answers when it is asked whether the
/// account at `index` is writable, with program write locks demoted or not.
pub uninterp spec fn is_writable_at(
    transaction: SanitizedTransaction,
    index: nat,
    demote_program_write_locks: bool,
) -> bool;

/// The instructions that the message of a transaction holds, in their order:
/// of each one, the index of its program in the account list, and its data.
pub uninterp spec fn instructions_of(transaction: SanitizedTransaction) -> Seq<(u8, Seq<u8>)>;

/// `Pubkey::to_bytes`: the bytes that the key holds.
#[verifier::external_body]
fn pubkey_bytes(pubkey: &Pubkey) -> (bytes: [u8; 32])
    ensures
        bytes@ == bytes_of_pubkey(*pubkey),
{
    pubkey.to_bytes()
}

/// `SanitizedTransaction::signatures`, and the length of the slice: the number
/// of signatures that the transaction holds.
#[verifier::external_body]
fn signature_count(transaction: &SanitizedTransaction) -> (count: usize)
    ensures
        count == signature_count_of(*transaction),
{
    transaction.signatures().len()
}

/// `SanitizedMessage::get_account_key`: the account key at `index` as its
/// bytes, for every index at which the message holds a key, and nothing from
/// there on. The greatest index holds none.
#[verifier::external_body]
fn account_key_at(transaction: &SanitizedTransaction, index: usize) -> (key: Option<[u8; 32]>)
    ensures
        key is Some <==> index < account_keys_of(*transaction).len(),
        key is Some ==> index < usize::MAX,
        key matches Some(bytes) ==> bytes@ == account_keys_of(*transaction)[index as int],
{
    match transaction.message().get_account_key(index) {
        Some(key) => Some(key.to_bytes()),
        None => None,
    }
}

/// `SanitizedMessage::is_writable`: the answer of the message for the account
/// at `index` under the given policy.
#[verifier::external_body]
fn account_is_writable(
    transaction: &SanitizedTransaction,
    index: usize,
    demote_program_write_locks: bool,
) -> (writable: bool)
    ensures
        writable == is_writable_at(*transaction, index as nat, demote_program_write_locks),
{
    transaction.message().is_writable(index, demote_program_write_locks)
}

/// `SanitizedMessage::instructions`, and the instruction at `index` of the
/// slice: its program id index and a copy of its data, for every index at
/// which the message holds an instruction, and nothing from there on. The
/// greatest index holds none.
#[verifier::external_body]
fn instruction_at(transaction: &SanitizedTransaction, index: usize) -> (instruction: Option<
    (u8, Vec<u8>),
>)
    ensures
        instruction is Some <==> index < instructions_of(*transaction).len(),
        instruction is Some ==> index < usize::MAX,
        instruction matches Some(held) ==> held.0 == instructions_of(*transaction)[index as int].0
            && held.1@ == instructions_of(*transaction)[index as int].1,
{
    match transaction.message().instructions().get(index) {
        Some(instruction) => Some((instruction.program_id_index, instruction.data.clone())),
        None => None,
    }
}

/// The address of a public key: the address that its bytes spell.
pub fn address_of(pubkey: &Pubkey) -> (address: Address)
    ensures
        address == address_of_bytes(bytes_of_pubkey(*pubkey)),
{
    let bytes: [u8; 32] = pubkey_bytes(pubkey);
    address_from_bytes(&bytes)
}

/// Whether every instruction of a transaction names one of its accounts as its
/// program.
pub open spec fn programs_are_accounts(transaction: SanitizedTransaction) -> bool {
    forall|at: int|
        0 <= at < instructions_of(transaction).len() ==> (#[trigger] instructions_of(
            transaction,
        )[at]).0 < account_keys_of(transaction).len()
}

/// The account at `index` of a transaction, as the estimate reads it: the
/// address of its key, and the answers of the message on its write lock.
pub open spec fn account_read_at(transaction: SanitizedTransaction, index: int) -> AccountEntry {
    AccountEntry {
        address: address_of_bytes(account_keys_of(transaction)[index]),
        writable: is_writable_at(transaction, index as nat, false),
        writable_when_demoted: is_writable_at(transaction, index as nat, true),
    }
}

/// Whether `structure` is what a transaction holds: the number of its
/// signatures; its accounts in their order; and its instructions in their
/// order, each with the address of the account that it names as its program
/// and with its data.
pub open spec fn is_read_from(
    structure: TransactionStructure,
    transaction: SanitizedTransaction,
) -> bool {
    &&& structure.signature_count == signature_count_of(transaction)
    &&& structure.accounts@.len() == account_keys_of(transaction).len()
    &&& forall|at: int|
        0 <= at < structure.accounts@.len() ==> #[trigger] structure.accounts@[at]
            == account_read_at(transaction, at)
    &&& structure.instructions@.len() == instructions_of(transaction).len()
    &&& forall|at: int|
        0 <= at < structure.instructions@.len() ==> {
            &&& (#[trigger] structure.instructions@[at]).program_id == address_of_bytes(
                account_keys_of(transaction)[instructions_of(transaction)[at].0 as int],
            )
            &&& structure.instructions@[at].data@ == instructions_of(transaction)[at].1
        }
}

/// The accounts of a transaction, in the order of its account list.
fn read_accounts(transaction: &SanitizedTransaction) -> (accounts: Vec<AccountEntry>)
    ensures
        accounts@.len() == account_keys_of(*transaction).len(),
        forall|at: int|
            0 <= at < accounts@.len() ==> #[trigger] accounts@[at] == account_read_at(
                *transaction,
                at,
            ),
{
    let mut accounts: Vec<AccountEntry> = Vec::new();
    let mut at: usize = 0;
    loop
        invariant_except_break
            at == accounts@.len(),
            at <= account_keys_of(*transaction).len(),
            forall|read: int|
                0 <= read < at ==> #[trigger] accounts@[read] == account_read_at(*transaction, read),
        ensures
            accounts@.len() == account_keys_of(*transaction).len(),
            forall|read: int|
                0 <= read < accounts@.len() ==> #[trigger] accounts@[read] == account_read_at(
                    *transaction,
                    read,
                ),
        decreases account_keys_of(*transaction).len() - at,
    {
        match account_key_at(transaction, at) {
            Some(key) => {
                accounts.push(
                    AccountEntry {
                        address: address_from_bytes(&key),
                        writable: account_is_writable(transaction, at, false),
                        writable_when_demoted: account_is_writable(transaction, at, true),
                    },
                );
                at += 1;
            },
            None => {
                break;
            },
        }
    }
    accounts
}

/// What the estimate reads of a transaction, or nothing where one of its
/// instructions names no account as its program.
pub fn read_transaction(transaction: &SanitizedTransaction) -> (structure: Option<
    TransactionStructure,
>)
    ensures
        structure is Some <==> programs_are_accounts(*transaction),
        structure matches Some(read) ==> is_read_from(read, *transaction),
{
    let accounts: Vec<AccountEntry> = read_accounts(transaction);
    let mut instructions: Vec<InstructionEntry> = Vec::new();
    let mut at: usize = 0;
    loop
        invariant_except_break
            at == instructions@.len(),
            at <= instructions_of(*transaction).len(),
            accounts@.len() == account_keys_of(*transaction).len(),
            forall|read: int|
                0 <= read < accounts@.len() ==> #[trigger] accounts@[read] == account_read_at(
                    *transaction,
                    read,
                ),
            forall|read: int|
                0 <= read < at ==> {
                    &&& (#[trigger] instructions_of(*transaction)[read]).0 < accounts@.len()
                    &&& instructions@[read].program_id == address_of_bytes(
                        account_keys_of(*transaction)[instructions_of(*transaction)[read].0 as int],
                    )
                    &&& instructions@[read].data@ == instructions_of(*transaction)[read].1
                },
        ensures
            instructions@.len() == instructions_of(*transaction).len(),
            programs_are_accounts(*transaction),
            forall|read: int|
                0 <= read < instructions@.len() ==> {
                    &&& (#[trigger] instructions@[read]).program_id == address_of_bytes(
                        account_keys_of(*transaction)[instructions_of(*transaction)[read].0 as int],
                    )
                    &&& instructions@[read].data@ == instructions_of(*transaction)[read].1
                },
        decreases instructions_of(*transaction).len() - at,
    {
        match instruction_at(transaction, at) {
            Some((program_index, data)) => {
                let program_index: usize = program_index as usize;
                if program_index >= accounts.len() {
                    return None;
                }
                instructions.push(
                    InstructionEntry { program_id: accounts[program_index].address, data },
                );
                at += 1;
            },
            None => {
                break;
            },
        }
    }
    Some(
        TransactionStructure {
            signature_count: signature_count(transaction),
            accounts,
            instructions,
        },
    )
}

} // verus!
