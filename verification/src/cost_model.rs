//! The estimate of a transaction's cost.
//!
//! [`CostModel::calculate_cost`] is the main function.
use crate::address::Address;
use crate::block_cost_limits::built_in_costs;
use crate::block_cost_limits::built_in_instruction_costs;
use crate::block_cost_limits::DATA_BYTES_UNITS;
use crate::block_cost_limits::SIGNATURE_COST;
use crate::block_cost_limits::WRITE_LOCK_UNITS;
use crate::execute_cost_table::cost_after_upsert;
use crate::execute_cost_table::instruction_cost;
use crate::execute_cost_table::mode_of;
use crate::execute_cost_table::table_after_upsert;
use crate::execute_cost_table::ExecuteCostTable;
use crate::transaction::AccountEntry;
use crate::transaction::InstructionEntry;
use crate::transaction::TransactionStructure;
use std::collections::BTreeMap;
use vstd::prelude::*;

verus! {

/// The most writable accounts that a transaction is expected to have.
pub const MAX_WRITABLE_ACCOUNTS: usize = 256;

/// A total of costs as a `u64`: the total itself where it fits, else the
/// greatest `u64`.
pub open spec fn saturated(total: int) -> u64 {
    if total > u64::MAX {
        u64::MAX
    } else {
        total as u64
    }
}

/// The addresses of the accounts that are locked for writing under the given
/// policy, in the order of the account list.
pub open spec fn writable_addresses(
    accounts: Seq<AccountEntry>,
    demote_program_write_locks: bool,
) -> Seq<Address> {
    accounts.filter_map(
        |account: AccountEntry|
            if account.locked_for_write(demote_program_write_locks) {
                Some(account.address)
            } else {
                None
            },
    )
}

/// The compute units for the data of all `instructions`: for each one, a unit
/// per `DATA_BYTES_UNITS` whole bytes.
pub open spec fn data_bytes_total(instructions: Seq<InstructionEntry>) -> int
    decreases instructions.len(),
{
    if instructions.len() == 0 {
        0
    } else {
        data_bytes_total(instructions.drop_last()) + instructions.last().data@.len()
            / DATA_BYTES_UNITS as nat
    }
}

/// The compute units to execute all `instructions`, each at the cost that
/// `table` gives for its program.
pub open spec fn execution_total(table: Map<Address, u64>, instructions: Seq<InstructionEntry>) -> int
    decreases instructions.len(),
{
    if instructions.len() == 0 {
        0
    } else {
        execution_total(table, instructions.drop_last()) + instruction_cost(
            table,
            instructions.last().program_id,
        )
    }
}

/// The table after each of `entries` is recorded in it, in their order.
pub open spec fn table_after_load(table: Map<Address, u64>, entries: Seq<(Address, u64)>) -> Map<
    Address,
    u64,
>
    decreases entries.len(),
{
    if entries.len() == 0 {
        table
    } else {
        table_after_upsert(
            table_after_load(table, entries.drop_last()),
            entries.last().0,
            entries.last().1,
        )
    }
}

/// A program that has an entry, or occurs in `entries`, has an entry after the
/// load.
pub proof fn lemma_load_keeps_programs(
    table: Map<Address, u64>,
    entries: Seq<(Address, u64)>,
    key: Address,
)
    requires
        table.contains_key(key) || exists|at: int|
            0 <= at < entries.len() && (#[trigger] entries[at]).0 == key,
    ensures
        table_after_load(table, entries).contains_key(key),
    decreases entries.len(),
{
    if entries.len() > 0 {
        if entries.last().0 != key {
            if !table.contains_key(key) {
                let at = choose|at: int| 0 <= at < entries.len() && (#[trigger] entries[at]).0 == key;
                assert(entries.drop_last()[at].0 == key);
            }
            lemma_load_keeps_programs(table, entries.drop_last(), key);
        }
    }
}

/// Where the entry that a program has, if it has one, and every cost that
/// `entries` gives for it are one and the same cost, the program has that cost
/// after the load, if it has an entry then.
pub proof fn lemma_load_keeps_agreed_cost(
    table: Map<Address, u64>,
    entries: Seq<(Address, u64)>,
    key: Address,
    cost: u64,
)
    requires
        table.contains_key(key) ==> table[key] == cost,
        forall|at: int| 0 <= at < entries.len() && (#[trigger] entries[at]).0 == key ==> entries[at].1 == cost,
    ensures
        table_after_load(table, entries).contains_key(key) ==> table_after_load(table, entries)[key] == cost,
    decreases entries.len(),
{
    if entries.len() > 0 {
        assert forall|at: int|
            0 <= at < entries.drop_last().len() && (#[trigger] entries.drop_last()[at]).0
                == key implies entries.drop_last()[at].1 == cost by {
            assert(entries[at].0 == key);
        }
        lemma_load_keeps_agreed_cost(table, entries.drop_last(), key, cost);
        if entries.last().0 == key {
            assert(entries[entries.len() - 1].0 == key);
        }
    }
}

/// After the table is initialized with `entries`, a program of `entries` is
/// found with the cost that `entries` gives for it, provided that no other cost
/// was recorded for it: not by an entry that it had before, not by another of
/// `entries`, and not as the cost of a built-in program.
pub proof fn lemma_initialized_cost_is_found(
    table: Map<Address, u64>,
    entries: Seq<(Address, u64)>,
    at: int,
)
    requires
        0 <= at < entries.len(),
        table.contains_key(entries[at].0) ==> table[entries[at].0] == entries[at].1,
        forall|other: int|
            0 <= other < entries.len() && (#[trigger] entries[other]).0 == entries[at].0
                ==> entries[other].1 == entries[at].1,
        forall|other: int|
            0 <= other < built_in_costs().len() && (#[trigger] built_in_costs()[other]).0
                == entries[at].0 ==> built_in_costs()[other].1 == entries[at].1,
    ensures
        instruction_cost(
            table_after_load(table_after_load(table, entries), built_in_costs()),
            entries[at].0,
        ) == entries[at].1,
{
    let key = entries[at].0;
    let loaded = table_after_load(table, entries);
    lemma_load_keeps_programs(table, entries, key);
    lemma_load_keeps_agreed_cost(table, entries, key, entries[at].1);
    lemma_load_keeps_programs(loaded, built_in_costs(), key);
    lemma_load_keeps_agreed_cost(loaded, built_in_costs(), key, entries[at].1);
}

/// After the table is initialized, every built-in program has an entry,
/// whatever the table held and whatever was loaded.
pub proof fn lemma_initialized_table_prices_built_ins(
    table: Map<Address, u64>,
    entries: Seq<(Address, u64)>,
    at: int,
)
    requires
        0 <= at < built_in_costs().len(),
    ensures
        table_after_load(table_after_load(table, entries), built_in_costs()).contains_key(
            built_in_costs()[at].0,
        ),
{
    lemma_load_keeps_programs(
        table_after_load(table, entries),
        built_in_costs(),
        built_in_costs()[at].0,
    );
}

/// A transaction without instructions costs nothing to execute, and its
/// signatures cost `SIGNATURE_COST` each, as long as that fits in a `u64`.
pub proof fn lemma_cost_without_instructions(
    table: Map<Address, u64>,
    signature_count: usize,
    instructions: Seq<InstructionEntry>,
)
    requires
        instructions.len() == 0,
        signature_count * SIGNATURE_COST <= u64::MAX,
    ensures
        saturated(signature_count * SIGNATURE_COST) == signature_count * SIGNATURE_COST,
        saturated(execution_total(table, instructions)) == 0,
        saturated(data_bytes_total(instructions)) == 0,
{
}

/// Two accounts that are both locked for writing are listed in their order,
/// and cost two write locks.
pub proof fn lemma_two_writable_accounts(
    first: AccountEntry,
    second: AccountEntry,
    demote_program_write_locks: bool,
)
    requires
        first.locked_for_write(demote_program_write_locks),
        second.locked_for_write(demote_program_write_locks),
    ensures
        writable_addresses(seq![first, second], demote_program_write_locks) == seq![
            first.address,
            second.address,
        ],
        saturated(
            writable_addresses(seq![first, second], demote_program_write_locks).len()
                * WRITE_LOCK_UNITS,
        ) == 2 * WRITE_LOCK_UNITS,
{
    let accounts = seq![first, second];
    reveal_with_fuel(Seq::filter_map, 3);
    assert(accounts.drop_last() =~= seq![first]);
    assert(accounts.drop_last().drop_last() =~= Seq::<AccountEntry>::empty());
    assert(writable_addresses(accounts, demote_program_write_locks) =~= seq![
        first.address,
        second.address,
    ]);
    assert(WRITE_LOCK_UNITS == 800);
}

/// Two instructions of programs without an entry cost twice the mode of the
/// table to execute.
pub proof fn lemma_two_unpriced_instructions(
    table: Map<Address, u64>,
    instructions: Seq<InstructionEntry>,
)
    requires
        instructions.len() == 2,
        !table.contains_key(instructions[0].program_id),
        !table.contains_key(instructions[1].program_id),
    ensures
        execution_total(table, instructions) == 2 * mode_of(table),
        2 * mode_of(table) <= u64::MAX ==> saturated(execution_total(table, instructions)) == 2
            * mode_of(table),
{
    reveal_with_fuel(execution_total, 3);
    assert(instructions.drop_last().last() == instructions[0]);
    assert(instructions.drop_last().drop_last().len() == 0);
}

/// The cost of one transaction, in compute units.
#[derive(Debug)]
pub struct TransactionCost {
    pub writable_accounts: Vec<Address>,
    pub signature_cost: u64,
    pub write_lock_cost: u64,
    pub data_bytes_cost: u64,
    pub execution_cost: u64,
}

impl TransactionCost {
    /// Whether nothing is counted yet: no writable account and no cost.
    pub open spec fn is_clear(&self) -> bool {
        &&& self.writable_accounts@ == Seq::<Address>::empty()
        &&& self.signature_cost == 0
        &&& self.write_lock_cost == 0
        &&& self.data_bytes_cost == 0
        &&& self.execution_cost == 0
    }

    /// The four costs added up.
    pub open spec fn total(&self) -> int {
        self.signature_cost + self.write_lock_cost + self.data_bytes_cost + self.execution_cost
    }

    /// A cost with nothing counted yet, and with room for `capacity` writable
    /// accounts. The room has to be one that a vector can have: the addresses
    /// take 32 bytes each, and `isize::MAX` bytes are the most.
    pub fn new_with_capacity(capacity: usize) -> (cost: Self)
        requires
            capacity * 32 <= isize::MAX,
        ensures
            cost.is_clear(),
    {
        TransactionCost {
            writable_accounts: Vec::with_capacity(capacity),
            signature_cost: 0,
            write_lock_cost: 0,
            data_bytes_cost: 0,
            execution_cost: 0,
        }
    }

    /// Forgets what was counted, and keeps the room for writable accounts.
    pub fn reset(&mut self)
        ensures
            final(self).is_clear(),
    {
        self.writable_accounts.clear();
        self.signature_cost = 0;
        self.write_lock_cost = 0;
        self.data_bytes_cost = 0;
        self.execution_cost = 0;
    }

    /// The four costs added up; the greatest `u64` where the total is beyond it.
    pub fn sum(&self) -> (sum: u64)
        ensures
            sum == saturated(self.total()),
            self.total() <= u64::MAX ==> sum == self.total(),
    {
        self.signature_cost.saturating_add(self.write_lock_cost).saturating_add(
            self.data_bytes_cost,
        ).saturating_add(self.execution_cost)
    }
}

impl Default for TransactionCost {
    fn default() -> (cost: Self)
        ensures
            cost.is_clear(),
    {
        TransactionCost {
            writable_accounts: Vec::new(),
            signature_cost: 0,
            write_lock_cost: 0,
            data_bytes_cost: 0,
            execution_cost: 0,
        }
    }
}

/// The estimator: the table of execution costs, and the rules that turn a
/// transaction's structure into its cost.
#[derive(Debug)]
pub struct CostModel {
    instruction_execution_cost_table: ExecuteCostTable,
}

impl View for CostModel {
    type V = Map<Address, u64>;

    /// The execution cost recorded for each program.
    closed spec fn view(&self) -> Map<Address, u64> {
        self.instruction_execution_cost_table@
    }
}

impl CostModel {
    /// The table holds finitely many programs.
    pub proof fn lemma_programs_are_finite(&self)
        ensures
            self@.dom().finite(),
    {
        self.instruction_execution_cost_table.lemma_programs_are_finite();
    }

    /// An estimator that has no cost recorded for any program.
    pub fn new() -> (model: Self)
        ensures
            model@ == Map::<Address, u64>::empty(),
    {
        CostModel { instruction_execution_cost_table: ExecuteCostTable::new() }
    }

    /// The table of execution costs.
    pub fn instruction_execution_cost_table(&self) -> (table: &ExecuteCostTable)
        ensures
            table@ == self@,
    {
        &self.instruction_execution_cost_table
    }

    /// Records the observed execution cost of one program, and returns the cost
    /// that the table now holds for it: `cost` itself for a program without an
    /// entry, else the average with the entry. The error is for a table that
    /// has lost the entry it was just given, which does not happen.
    pub fn upsert_instruction_cost(&mut self, program_key: &Address, cost: u64) -> (recorded: Result<
        u64,
        &'static str,
    >)
        ensures
            final(self)@ == table_after_upsert(old(self)@, *program_key, cost),
            recorded matches Ok(held) && held == cost_after_upsert(old(self)@, *program_key, cost),
    {
        self.instruction_execution_cost_table.upsert(program_key, cost);
        match self.instruction_execution_cost_table.get_cost(program_key) {
            Some(cost) => Ok(cost),
            None => Err("failed to upsert to ExecuteCostTable"),
        }
    }

    /// The execution costs of all programs, to read.
    pub fn get_instruction_cost_table(&self) -> (table: &BTreeMap<Address, u64>)
        ensures
            table@ == self@,
    {
        self.instruction_execution_cost_table.get_cost_table()
    }

    /// Records the execution cost of each program of `cost_table`, in their
    /// order, and after them the costs of the built-in programs. A cost is
    /// recorded as [`CostModel::upsert_instruction_cost`] records it, so a
    /// program that occurs twice, or has an entry already, ends with an average.
    pub fn initialize_cost_table(&mut self, cost_table: &[(Address, u64)])
        ensures
            final(self)@ == table_after_load(
                table_after_load(old(self)@, cost_table@),
                built_in_costs(),
            ),
    {
        self.load(cost_table);
        let built_in: Vec<(Address, u64)> = built_in_instruction_costs();
        self.load(built_in.as_slice());
    }

    /// Records the execution cost of each program of `entries`, in their order.
    fn load(&mut self, entries: &[(Address, u64)])
        ensures
            final(self)@ == table_after_load(old(self)@, entries@),
    {
        let mut at: usize = 0;
        while at < entries.len()
            invariant
                at <= entries.len(),
                self@ == table_after_load(old(self)@, entries@.take(at as int)),
            decreases entries.len() - at,
        {
            let (program_id, cost) = entries[at];
            proof {
                assert(entries@.take(at + 1).drop_last() == entries@.take(at as int));
            }
            self.instruction_execution_cost_table.upsert(&program_id, cost);
            at += 1;
        }
        proof {
            assert(entries@.take(at as int) == entries@);
        }
    }

    /// The cost of a transaction: of its signatures, of its write locks under
    /// the given policy, of its instruction data, and of executing its
    /// instructions, with the accounts that it locks for writing.
    pub fn calculate_cost(
        &self,
        transaction: &TransactionStructure,
        demote_program_write_locks: bool,
    ) -> (tx_cost: TransactionCost)
        ensures
            tx_cost.writable_accounts@ == writable_addresses(
                transaction.accounts@,
                demote_program_write_locks,
            ),
            tx_cost.signature_cost == saturated(transaction.signature_count * SIGNATURE_COST),
            tx_cost.write_lock_cost == saturated(tx_cost.writable_accounts@.len() * WRITE_LOCK_UNITS),
            tx_cost.data_bytes_cost == saturated(data_bytes_total(transaction.instructions@)),
            tx_cost.execution_cost == saturated(execution_total(self@, transaction.instructions@)),
    {
        let mut tx_cost = TransactionCost::new_with_capacity(MAX_WRITABLE_ACCOUNTS);

        tx_cost.signature_cost = self.get_signature_cost(transaction);
        self.get_write_lock_cost(&mut tx_cost, transaction, demote_program_write_locks);
        tx_cost.data_bytes_cost = self.get_data_bytes_cost(transaction);
        tx_cost.execution_cost = self.get_transaction_cost(transaction);

        tx_cost
    }

    /// The cost of verifying the signatures of a transaction.
    pub fn get_signature_cost(&self, transaction: &TransactionStructure) -> (cost: u64)
        ensures
            cost == saturated(transaction.signature_count * SIGNATURE_COST),
    {
        let count: u64 = transaction.signature_count as u64;
        match count.checked_mul(SIGNATURE_COST) {
            Some(cost) => cost,
            None => u64::MAX,
        }
    }

    /// Adds to `tx_cost` the accounts that a transaction locks for writing under
    /// the given policy, in the order of its account list, and the cost of their
    /// locks.
    pub fn get_write_lock_cost(
        &self,
        tx_cost: &mut TransactionCost,
        transaction: &TransactionStructure,
        demote_program_write_locks: bool,
    )
        ensures
            final(tx_cost).writable_accounts@ == old(tx_cost).writable_accounts@
                + writable_addresses(transaction.accounts@, demote_program_write_locks),
            final(tx_cost).write_lock_cost == saturated(
                old(tx_cost).write_lock_cost + writable_addresses(
                    transaction.accounts@,
                    demote_program_write_locks,
                ).len() * WRITE_LOCK_UNITS,
            ),
            final(tx_cost).signature_cost == old(tx_cost).signature_cost,
            final(tx_cost).data_bytes_cost == old(tx_cost).data_bytes_cost,
            final(tx_cost).execution_cost == old(tx_cost).execution_cost,
    {
        let mut at: usize = 0;
        while at < transaction.accounts.len()
            invariant
                at <= transaction.accounts.len(),
                tx_cost.writable_accounts@ == old(tx_cost).writable_accounts@ + writable_addresses(
                    transaction.accounts@.take(at as int),
                    demote_program_write_locks,
                ),
                tx_cost.write_lock_cost == saturated(
                    old(tx_cost).write_lock_cost + writable_addresses(
                        transaction.accounts@.take(at as int),
                        demote_program_write_locks,
                    ).len() * WRITE_LOCK_UNITS,
                ),
                tx_cost.signature_cost == old(tx_cost).signature_cost,
                tx_cost.data_bytes_cost == old(tx_cost).data_bytes_cost,
                tx_cost.execution_cost == old(tx_cost).execution_cost,
            decreases transaction.accounts.len() - at,
        {
            let account: &AccountEntry = &transaction.accounts[at];
            proof {
                transaction.accounts@.lemma_filter_map_take_succ(
                    |account: AccountEntry|
                        if account.locked_for_write(demote_program_write_locks) {
                            Some(account.address)
                        } else {
                            None
                        },
                    at as int,
                );
            }
            if account.is_writable(demote_program_write_locks) {
                proof {
                    let locked = writable_addresses(
                        transaction.accounts@.take(at as int),
                        demote_program_write_locks,
                    ).len();
                    assert((locked + 1) * WRITE_LOCK_UNITS == locked * WRITE_LOCK_UNITS
                        + WRITE_LOCK_UNITS) by (nonlinear_arith);
                    assert(locked * WRITE_LOCK_UNITS >= 0) by (nonlinear_arith);
                }
                tx_cost.writable_accounts.push(account.address);
                tx_cost.write_lock_cost = tx_cost.write_lock_cost.saturating_add(WRITE_LOCK_UNITS);
            }
            at += 1;
        }
        proof {
            assert(transaction.accounts@.take(at as int) == transaction.accounts@);
        }
    }

    /// The cost of the data of a transaction's instructions.
    pub fn get_data_bytes_cost(&self, transaction: &TransactionStructure) -> (cost: u64)
        ensures
            cost == saturated(data_bytes_total(transaction.instructions@)),
    {
        let mut data_bytes_cost: u64 = 0;
        let mut at: usize = 0;
        while at < transaction.instructions.len()
            invariant
                at <= transaction.instructions.len(),
                data_bytes_total(transaction.instructions@.take(at as int)) >= 0,
                data_bytes_cost == saturated(
                    data_bytes_total(transaction.instructions@.take(at as int)),
                ),
            decreases transaction.instructions.len() - at,
        {
            let instruction: &InstructionEntry = &transaction.instructions[at];
            proof {
                assert(transaction.instructions@.take(at + 1).drop_last()
                    == transaction.instructions@.take(at as int));
            }
            let length: u64 = instruction.data.len() as u64;
            data_bytes_cost = data_bytes_cost.saturating_add(length / DATA_BYTES_UNITS);
            at += 1;
        }
        proof {
            assert(transaction.instructions@.take(at as int) == transaction.instructions@);
        }
        data_bytes_cost
    }

    /// The cost of executing a transaction's instructions.
    pub fn get_transaction_cost(&self, transaction: &TransactionStructure) -> (cost: u64)
        ensures
            cost == saturated(execution_total(self@, transaction.instructions@)),
    {
        let mut cost: u64 = 0;
        let mut at: usize = 0;
        while at < transaction.instructions.len()
            invariant
                at <= transaction.instructions.len(),
                execution_total(self@, transaction.instructions@.take(at as int)) >= 0,
                cost == saturated(execution_total(self@, transaction.instructions@.take(at as int))),
            decreases transaction.instructions.len() - at,
        {
            let instruction: &InstructionEntry = &transaction.instructions[at];
            proof {
                assert(transaction.instructions@.take(at + 1).drop_last()
                    == transaction.instructions@.take(at as int));
            }
            let instruction_cost: u64 = self.find_instruction_cost(&instruction.program_id);
            cost = cost.saturating_add(instruction_cost);
            at += 1;
        }
        proof {
            assert(transaction.instructions@.take(at as int) == transaction.instructions@);
        }
        cost
    }

    /// The cost to charge for one instruction of the program `program_key`: the
    /// recorded cost if there is one, else the mode of the table.
    pub fn find_instruction_cost(&self, program_key: &Address) -> (cost: u64)
        ensures
            cost == instruction_cost(self@, *program_key),
    {
        match self.instruction_execution_cost_table.get_cost(program_key) {
            Some(cost) => cost,
            None => self.instruction_execution_cost_table.get_mode(),
        }
    }
}

impl Default for CostModel {
    fn default() -> (model: Self)
        ensures
            model@ == Map::<Address, u64>::empty(),
    {
        CostModel::new()
    }
}

} // verus!
