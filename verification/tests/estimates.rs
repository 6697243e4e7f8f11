use cost_model::address::Address;
use cost_model::block_cost_limits::built_in_instruction_costs;
use cost_model::block_cost_limits::SIGNATURE_COST;
use cost_model::block_cost_limits::SYSTEM_PROGRAM;
use cost_model::block_cost_limits::VOTE_PROGRAM;
use cost_model::block_cost_limits::WRITE_LOCK_UNITS;
use cost_model::cost_model::CostModel;
use cost_model::cost_model::TransactionCost;
use cost_model::transaction::AccountEntry;
use cost_model::transaction::InstructionEntry;
use cost_model::transaction::TransactionStructure;

const SIGNER: Address = (11, 0, 0, 0);
const PAYEE: Address = (12, 0, 0, 0);
const READER: Address = (13, 0, 0, 0);
const PROGRAM: Address = (21, 0, 0, 0);
const OTHER_PROGRAM: Address = (22, 0, 0, 0);

fn account(address: Address, writable: bool, writable_when_demoted: bool) -> AccountEntry {
    AccountEntry {
        address,
        writable,
        writable_when_demoted,
    }
}

fn instruction(program_id: Address, data_length: usize) -> InstructionEntry {
    InstructionEntry {
        program_id,
        data: vec![0u8; data_length],
    }
}

fn transaction(
    signature_count: usize,
    accounts: Vec<AccountEntry>,
    instructions: Vec<InstructionEntry>,
) -> TransactionStructure {
    TransactionStructure {
        signature_count,
        accounts,
        instructions,
    }
}

#[test]
fn new_model_has_no_costs() {
    let model = CostModel::new();
    assert!(model.get_instruction_cost_table().is_empty());
    assert_eq!(0, model.instruction_execution_cost_table().get_count());
    assert_eq!(0, model.find_instruction_cost(&PROGRAM));
}

#[test]
fn account_answers_for_either_policy() {
    let demoted = account(PROGRAM, true, false);
    assert!(demoted.is_writable(false));
    assert!(!demoted.is_writable(true));
    let kept = account(PAYEE, true, true);
    assert!(kept.is_writable(false));
    assert!(kept.is_writable(true));
    let read_only = account(READER, false, false);
    assert!(!read_only.is_writable(false));
    assert!(!read_only.is_writable(true));
}

#[test]
fn empty_transaction_costs_nothing() {
    let model = CostModel::new();
    let cost = model.calculate_cost(&transaction(0, vec![], vec![]), true);
    assert!(cost.writable_accounts.is_empty());
    assert_eq!(0, cost.signature_cost);
    assert_eq!(0, cost.write_lock_cost);
    assert_eq!(0, cost.data_bytes_cost);
    assert_eq!(0, cost.execution_cost);
    assert_eq!(0, cost.sum());
}

#[test]
fn signatures_cost_their_unit_each() {
    let model = CostModel::new();
    for count in [0usize, 1, 2, 3, 64, 255] {
        let structure = transaction(count, vec![account(SIGNER, true, true)], vec![]);
        let cost = model.calculate_cost(&structure, false);
        assert_eq!(count as u64 * SIGNATURE_COST, cost.signature_cost);
        assert_eq!(count as u64 * 7000, model.get_signature_cost(&structure));
        assert_eq!(0, cost.execution_cost);
        assert_eq!(0, cost.data_bytes_cost);
    }
}

#[test]
fn signature_cost_stops_at_the_greatest_cost() {
    let model = CostModel::new();
    let fits = (u64::MAX / 7000) as usize;
    assert_eq!(
        fits as u64 * 7000,
        model.get_signature_cost(&transaction(fits, vec![], vec![]))
    );
    assert_eq!(
        u64::MAX,
        model.get_signature_cost(&transaction(fits + 1, vec![], vec![]))
    );
    assert_eq!(
        u64::MAX,
        model.get_signature_cost(&transaction(usize::MAX, vec![], vec![]))
    );
}

#[test]
fn writable_signer_and_payee_are_listed_in_order() {
    let model = CostModel::new();
    let structure = transaction(
        1,
        vec![
            account(SIGNER, true, true),
            account(PAYEE, true, true),
            account(PROGRAM, false, false),
        ],
        vec![instruction(PROGRAM, 12)],
    );
    let cost = model.calculate_cost(&structure, true);
    assert_eq!(vec![SIGNER, PAYEE], cost.writable_accounts);
    assert_eq!(2 * WRITE_LOCK_UNITS, cost.write_lock_cost);
    assert_eq!(1600, cost.write_lock_cost);
}

#[test]
fn demotion_decides_which_locks_count() {
    let model = CostModel::new();
    let structure = transaction(
        1,
        vec![
            account(SIGNER, true, true),
            account(READER, false, false),
            account(PROGRAM, true, false),
            account(PAYEE, true, true),
        ],
        vec![instruction(PROGRAM, 0)],
    );
    let demoted = model.calculate_cost(&structure, true);
    assert_eq!(vec![SIGNER, PAYEE], demoted.writable_accounts);
    assert_eq!(1600, demoted.write_lock_cost);
    let kept = model.calculate_cost(&structure, false);
    assert_eq!(vec![SIGNER, PROGRAM, PAYEE], kept.writable_accounts);
    assert_eq!(2400, kept.write_lock_cost);
}

#[test]
fn write_locks_are_added_to_what_is_counted() {
    let model = CostModel::new();
    let structure = transaction(
        1,
        vec![account(SIGNER, true, true), account(PAYEE, true, true)],
        vec![],
    );
    let mut cost = TransactionCost::new_with_capacity(4);
    cost.writable_accounts.push(READER);
    cost.write_lock_cost = 100;
    cost.signature_cost = 1;
    cost.data_bytes_cost = 2;
    cost.execution_cost = 3;
    model.get_write_lock_cost(&mut cost, &structure, true);
    assert_eq!(vec![READER, SIGNER, PAYEE], cost.writable_accounts);
    assert_eq!(1700, cost.write_lock_cost);
    assert_eq!(1, cost.signature_cost);
    assert_eq!(2, cost.data_bytes_cost);
    assert_eq!(3, cost.execution_cost);
}

#[test]
fn write_lock_cost_stops_at_the_greatest_cost() {
    let model = CostModel::new();
    let structure = transaction(
        1,
        vec![account(SIGNER, true, true), account(PAYEE, true, true)],
        vec![],
    );
    let mut cost = TransactionCost::default();
    cost.write_lock_cost = u64::MAX - 1000;
    model.get_write_lock_cost(&mut cost, &structure, true);
    assert_eq!(vec![SIGNER, PAYEE], cost.writable_accounts);
    assert_eq!(u64::MAX, cost.write_lock_cost);
}

#[test]
fn data_costs_a_unit_for_every_five_whole_bytes() {
    let model = CostModel::new();
    for (length, expected) in [(0usize, 0u64), (1, 0), (4, 0), (5, 1), (9, 1), (10, 2), (1232, 246)]
    {
        let structure = transaction(1, vec![], vec![instruction(PROGRAM, length)]);
        assert_eq!(expected, model.get_data_bytes_cost(&structure));
        assert_eq!(expected, model.calculate_cost(&structure, true).data_bytes_cost);
    }
}

#[test]
fn data_is_rounded_down_for_each_instruction() {
    let model = CostModel::new();
    let structure = transaction(
        1,
        vec![],
        vec![
            instruction(PROGRAM, 4),
            instruction(PROGRAM, 4),
            instruction(OTHER_PROGRAM, 9),
            instruction(PROGRAM, 12),
            instruction(OTHER_PROGRAM, 0),
        ],
    );
    assert_eq!(3, model.get_data_bytes_cost(&structure));
}

#[test]
fn priced_instructions_cost_what_the_table_holds() {
    let mut model = CostModel::new();
    model.upsert_instruction_cost(&PROGRAM, 8).unwrap();
    model.upsert_instruction_cost(&OTHER_PROGRAM, 30).unwrap();
    let structure = transaction(
        1,
        vec![],
        vec![
            instruction(PROGRAM, 0),
            instruction(OTHER_PROGRAM, 0),
            instruction(PROGRAM, 0),
        ],
    );
    assert_eq!(46, model.get_transaction_cost(&structure));
    assert_eq!(46, model.calculate_cost(&structure, true).execution_cost);
}

#[test]
fn unpriced_instructions_cost_the_mode() {
    let mut model = CostModel::new();
    model.upsert_instruction_cost(&(1, 1, 1, 1), 50).unwrap();
    model.upsert_instruction_cost(&(2, 2, 2, 2), 50).unwrap();
    model.upsert_instruction_cost(&(3, 3, 3, 3), 7).unwrap();
    assert_eq!(50, model.instruction_execution_cost_table().get_mode());
    assert_eq!(50, model.find_instruction_cost(&PROGRAM));
    let structure = transaction(
        1,
        vec![],
        vec![instruction(PROGRAM, 0), instruction(OTHER_PROGRAM, 0)],
    );
    assert_eq!(100, model.get_transaction_cost(&structure));
    assert_eq!(
        2 * model.instruction_execution_cost_table().get_mode(),
        model.calculate_cost(&structure, true).execution_cost
    );
}

#[test]
fn unpriced_instructions_cost_nothing_while_the_table_is_empty() {
    let model = CostModel::new();
    let structure = transaction(
        1,
        vec![],
        vec![instruction(PROGRAM, 0), instruction(OTHER_PROGRAM, 0)],
    );
    assert_eq!(0, model.get_transaction_cost(&structure));
}

#[test]
fn execution_cost_stops_at_the_greatest_cost() {
    let mut model = CostModel::new();
    model.upsert_instruction_cost(&PROGRAM, u64::MAX - 5).unwrap();
    model.upsert_instruction_cost(&OTHER_PROGRAM, 4).unwrap();
    let fits = transaction(
        1,
        vec![],
        vec![instruction(PROGRAM, 0), instruction(OTHER_PROGRAM, 0)],
    );
    assert_eq!(u64::MAX - 1, model.get_transaction_cost(&fits));
    let beyond = transaction(
        1,
        vec![],
        vec![
            instruction(PROGRAM, 0),
            instruction(OTHER_PROGRAM, 0),
            instruction(OTHER_PROGRAM, 0),
            instruction(PROGRAM, 0),
        ],
    );
    assert_eq!(u64::MAX, model.get_transaction_cost(&beyond));
    assert_eq!(u64::MAX, model.calculate_cost(&beyond, true).sum());
}

#[test]
fn cost_has_all_four_parts() {
    let mut model = CostModel::new();
    model.upsert_instruction_cost(&PROGRAM, 8).unwrap();
    let structure = transaction(
        2,
        vec![
            account(SIGNER, true, true),
            account(PAYEE, true, true),
            account(READER, false, false),
            account(PROGRAM, false, false),
        ],
        vec![instruction(PROGRAM, 12), instruction(PROGRAM, 3)],
    );
    let cost = model.calculate_cost(&structure, true);
    assert_eq!(14000, cost.signature_cost);
    assert_eq!(1600, cost.write_lock_cost);
    assert_eq!(2, cost.data_bytes_cost);
    assert_eq!(16, cost.execution_cost);
    assert_eq!(15618, cost.sum());
    assert_eq!(vec![SIGNER, PAYEE], cost.writable_accounts);
}

#[test]
fn estimate_leaves_the_table_as_it_is() {
    let mut model = CostModel::new();
    model.upsert_instruction_cost(&PROGRAM, 8).unwrap();
    let structure = transaction(1, vec![], vec![instruction(OTHER_PROGRAM, 5)]);
    let first = model.calculate_cost(&structure, true);
    let second = model.calculate_cost(&structure, true);
    assert_eq!(first.sum(), second.sum());
    assert_eq!(1, model.instruction_execution_cost_table().get_count());
    assert_eq!(Some(8), model.instruction_execution_cost_table().get_cost(&PROGRAM));
    assert_eq!(None, model.instruction_execution_cost_table().get_cost(&OTHER_PROGRAM));
}

#[test]
fn upsert_returns_the_cost_that_is_held() {
    let mut model = CostModel::new();
    assert_eq!(Ok(100), model.upsert_instruction_cost(&PROGRAM, 100));
    assert_eq!(Ok(150), model.upsert_instruction_cost(&PROGRAM, 200));
    assert_eq!(Ok(75), model.upsert_instruction_cost(&PROGRAM, 1));
    assert_eq!(Some(&75), model.get_instruction_cost_table().get(&PROGRAM));
}

#[test]
fn initialized_table_holds_loaded_and_built_in_costs() {
    let mut model = CostModel::new();
    model.initialize_cost_table(&[(PROGRAM, 10), (OTHER_PROGRAM, 20)]);
    assert_eq!(10, model.find_instruction_cost(&PROGRAM));
    assert_eq!(20, model.find_instruction_cost(&OTHER_PROGRAM));
    for (program, cost) in built_in_instruction_costs() {
        assert_eq!(Some(cost), model.instruction_execution_cost_table().get_cost(&program));
    }
    assert_eq!(11, model.instruction_execution_cost_table().get_count());
    // four of the built-in programs cost 80 each
    assert_eq!(80, model.instruction_execution_cost_table().get_mode());
}

#[test]
fn initialized_table_without_loaded_costs_holds_built_in_costs() {
    let mut model = CostModel::new();
    model.initialize_cost_table(&[]);
    assert_eq!(9, model.instruction_execution_cost_table().get_count());
    assert_eq!(600, model.find_instruction_cost(&SYSTEM_PROGRAM));
    assert_eq!(3400, model.find_instruction_cost(&VOTE_PROGRAM));
    assert_eq!(80, model.find_instruction_cost(&PROGRAM));
}

#[test]
fn loaded_cost_of_built_in_program_is_averaged() {
    let mut model = CostModel::new();
    model.initialize_cost_table(&[(SYSTEM_PROGRAM, 100)]);
    assert_eq!(350, model.find_instruction_cost(&SYSTEM_PROGRAM));
    // loaded once more, the cost moves toward what is loaded
    model.initialize_cost_table(&[(SYSTEM_PROGRAM, 100)]);
    assert_eq!(412, model.find_instruction_cost(&SYSTEM_PROGRAM));
}

#[test]
fn cost_loaded_twice_is_averaged() {
    let mut model = CostModel::new();
    model.initialize_cost_table(&[(PROGRAM, 10), (OTHER_PROGRAM, 7), (PROGRAM, 30)]);
    assert_eq!(20, model.find_instruction_cost(&PROGRAM));
    assert_eq!(7, model.find_instruction_cost(&OTHER_PROGRAM));
}

#[test]
fn loaded_cost_is_averaged_with_the_entry() {
    let mut model = CostModel::new();
    model.upsert_instruction_cost(&PROGRAM, 40).unwrap();
    model.initialize_cost_table(&[(PROGRAM, 10)]);
    assert_eq!(25, model.find_instruction_cost(&PROGRAM));
}
