//! The table of execution costs per program, with its most frequent cost.
//!
//! The table is kept in order of the programs' addresses. Beside it stand the
//! number of programs for each cost and a ranking of the costs by that number,
//! both brought up to date with every entry that changes, so that the mode is
//! at hand without a walk through the table.
use crate::address::Address;
use std::collections::BTreeMap;
use std::collections::BTreeSet;
use vstd::prelude::*;
use vstd::std_specs::btree::spec_btree_keys_iter;
use vstd::std_specs::cmp::OrdSpec;
use vstd::std_specs::iter::IteratorSpec;

verus! {

broadcast use {vstd::laws_cmp::group_laws_cmp, vstd::std_specs::btree::group_btree_axioms};

/// The programs of `table` whose recorded cost is `cost`.
pub open spec fn programs_with_cost(table: Map<Address, u64>, cost: u64) -> Set<Address> {
    table.dom().filter(|program: Address| table[program] == cost)
}

/// How many programs of `table` have `cost` recorded.
pub open spec fn frequency(table: Map<Address, u64>, cost: u64) -> nat {
    programs_with_cost(table, cost).len()
}

/// Only finitely many programs have a given cost, and no more than the table
/// has entries.
pub proof fn lemma_frequency_is_bounded(table: Map<Address, u64>, cost: u64)
    requires
        table.dom().finite(),
    ensures
        programs_with_cost(table, cost).finite(),
        frequency(table, cost) <= table.dom().len(),
{
    let has_cost = |program: Address| table[program] == cost;
    table.dom().lemma_len_filter(has_cost);
    assert(programs_with_cost(table, cost) =~= table.dom().filter(has_cost));
}

/// What one more observation does to the frequencies: the cost that `key` had, if
/// any, loses one program, and the cost recorded now gains one.
pub proof fn lemma_frequency_after_insert(table: Map<Address, u64>, key: Address, cost: u64, other: u64)
    requires
        table.dom().finite(),
    ensures
        frequency(table.insert(key, cost), other) == frequency(table, other) - (if table.contains_key(key)
            && table[key] == other {
            1int
        } else {
            0int
        }) + (if cost == other {
            1int
        } else {
            0int
        }),
{
    let before = programs_with_cost(table, other);
    let after = programs_with_cost(table.insert(key, cost), other);
    let rest = before.remove(key);
    lemma_frequency_is_bounded(table, other);
    if cost == other {
        assert(after =~= rest.insert(key));
    } else {
        assert(after =~= rest);
    }
}

/// The cost recorded when `observed` is averaged into `recorded`: their mean,
/// rounded down.
pub open spec fn averaged(recorded: u64, observed: u64) -> u64 {
    ((recorded + observed) / 2) as u64
}

/// The cost that `key` has after `observed` is recorded for it: `observed` itself
/// for a program without an entry, else the average with the entry.
pub open spec fn cost_after_upsert(table: Map<Address, u64>, key: Address, observed: u64) -> u64 {
    if table.contains_key(key) {
        averaged(table[key], observed)
    } else {
        observed
    }
}

/// The table after `observed` is recorded for `key`.
pub open spec fn table_after_upsert(table: Map<Address, u64>, key: Address, observed: u64) -> Map<
    Address,
    u64,
> {
    table.insert(key, cost_after_upsert(table, key, observed))
}

/// Whether `cost` is the mode of `table`: 0 for an empty table; else the cost
/// that most programs have, and among several such costs the lowest.
pub open spec fn is_mode_of(table: Map<Address, u64>, cost: u64) -> bool {
    if table.dom().is_empty() {
        cost == 0
    } else {
        &&& frequency(table, cost) > 0
        &&& forall|other: u64|
            #![trigger frequency(table, other)]
            frequency(table, other) < frequency(table, cost) || (frequency(table, other)
                == frequency(table, cost) && cost <= other)
    }
}

/// The mode of `table`.
pub open spec fn mode_of(table: Map<Address, u64>) -> u64 {
    choose|cost: u64| is_mode_of(table, cost)
}

/// A table has one mode only.
pub proof fn lemma_mode_is_unique(table: Map<Address, u64>, first: u64, second: u64)
    requires
        is_mode_of(table, first),
        is_mode_of(table, second),
    ensures
        first == second,
        mode_of(table) == first,
{
    if !table.dom().is_empty() {
        assert(frequency(table, first) <= frequency(table, second));
        assert(frequency(table, second) <= frequency(table, first));
        let chosen = mode_of(table);
        assert(frequency(table, first) <= frequency(table, chosen));
        assert(frequency(table, chosen) <= frequency(table, first));
    }
}

/// The cost to charge for one instruction of the program `key`: the recorded
/// cost if there is one, else the mode of the table.
pub open spec fn instruction_cost(table: Map<Address, u64>, key: Address) -> u64 {
    if table.contains_key(key) {
        table[key]
    } else {
        mode_of(table)
    }
}

/// Among finitely many costs, at least one, there is one that the most programs
/// have, and that is the lowest of those that as many programs have.
proof fn lemma_best_cost_exists(table: Map<Address, u64>, costs: Set<u64>)
    requires
        costs.finite(),
        !costs.is_empty(),
    ensures
        exists|best: u64|
            costs.contains(best) && forall|other: u64|
                #![trigger frequency(table, other)]
                costs.contains(other) ==> frequency(table, other) < frequency(table, best) || (
                frequency(table, other) == frequency(table, best) && best <= other),
    decreases costs.len(),
{
    let cost = costs.choose();
    let rest = costs.remove(cost);
    let best = if rest.is_empty() {
        cost
    } else {
        lemma_best_cost_exists(table, rest);
        let best_of_rest = choose|best: u64|
            rest.contains(best) && forall|other: u64|
                #![trigger frequency(table, other)]
                rest.contains(other) ==> frequency(table, other) < frequency(table, best) || (
                frequency(table, other) == frequency(table, best) && best <= other);
        if frequency(table, cost) > frequency(table, best_of_rest) || (frequency(table, cost)
            == frequency(table, best_of_rest) && cost < best_of_rest) {
            cost
        } else {
            best_of_rest
        }
    };
    assert(costs.contains(best));
    assert forall|other: u64|
        #![trigger frequency(table, other)]
        costs.contains(other) implies frequency(table, other) < frequency(table, best) || (
    frequency(table, other) == frequency(table, best) && best <= other) by {
        if other != cost {
            assert(rest.contains(other));
        }
    }
}

/// Every table of finitely many programs has a mode.
pub proof fn lemma_mode_exists(table: Map<Address, u64>)
    requires
        table.dom().finite(),
    ensures
        is_mode_of(table, mode_of(table)),
{
    if table.dom().is_empty() {
        assert(is_mode_of(table, 0));
    } else {
        let costs = table.values();
        table.lemma_values_len();
        let program = table.dom().choose();
        assert(table.contains_key(program));
        assert(costs.contains(table[program]));
        lemma_best_cost_exists(table, costs);
        let best = choose|best: u64|
            costs.contains(best) && forall|other: u64|
                #![trigger frequency(table, other)]
                costs.contains(other) ==> frequency(table, other) < frequency(table, best) || (
                frequency(table, other) == frequency(table, best) && best <= other);
        let holder = choose|holder: Address| table.contains_key(holder) && table[holder] == best;
        lemma_frequency_is_bounded(table, best);
        assert(programs_with_cost(table, best).contains(holder));
        assert forall|other: u64|
            #![trigger frequency(table, other)]
            frequency(table, other) < frequency(table, best) || (frequency(table, other)
                == frequency(table, best) && best <= other) by {
            if !costs.contains(other) {
                assert(programs_with_cost(table, other) =~= Set::empty()) by {
                    assert forall|held: Address| !programs_with_cost(table, other).contains(held) by {
                        if table.contains_key(held) && table[held] == other {
                            assert(costs.contains(other));
                        }
                    }
                }
            }
        }
        assert(is_mode_of(table, best));
    }
}

/// An empty table has the mode 0.
pub proof fn lemma_mode_of_empty_table()
    ensures
        is_mode_of(Map::<Address, u64>::empty(), 0),
        mode_of(Map::<Address, u64>::empty()) == 0,
{
    let table = Map::<Address, u64>::empty();
    assert(table.dom() =~= Set::empty());
    lemma_mode_is_unique(table, 0, 0);
}

/// The mode of a table with entries is the cost of one of them.
pub proof fn lemma_mode_is_recorded(table: Map<Address, u64>)
    requires
        table.dom().finite(),
        !table.dom().is_empty(),
    ensures
        exists|key: Address| #[trigger] table.contains_key(key) && table[key] == mode_of(table),
{
    let mode = mode_of(table);
    lemma_mode_exists(table);
    lemma_frequency_is_bounded(table, mode);
    let key = programs_with_cost(table, mode).choose();
    assert(programs_with_cost(table, mode).contains(key));
    assert(table.contains_key(key) && table[key] == mode);
}

/// A program without an entry gets the cost that is first observed for it.
pub proof fn lemma_first_observation_is_recorded(table: Map<Address, u64>, key: Address, cost: u64)
    requires
        !table.contains_key(key),
    ensures
        table_after_upsert(table, key, cost).contains_key(key),
        table_after_upsert(table, key, cost)[key] == cost,
{
}

/// After two observations for a program without an entry, the program has
/// their mean, rounded down.
pub proof fn lemma_second_observation_is_averaged(
    table: Map<Address, u64>,
    key: Address,
    first: u64,
    second: u64,
)
    requires
        !table.contains_key(key),
    ensures
        table_after_upsert(table_after_upsert(table, key, first), key, second).contains_key(key),
        table_after_upsert(table_after_upsert(table, key, first), key, second)[key] == (first
            + second) / 2,
{
}

/// An instruction of a program without an entry is charged the mode of the
/// table.
pub proof fn lemma_unknown_program_costs_the_mode(table: Map<Address, u64>, key: Address)
    requires
        !table.contains_key(key),
    ensures
        instruction_cost(table, key) == mode_of(table),
        table == Map::<Address, u64>::empty() ==> instruction_cost(table, key) == 0,
{
    lemma_mode_of_empty_table();
}

/// `occurrences` holds, for each cost that some program of `table` has, the
/// number of those programs, and nothing else.
spec fn tallied(table: Map<Address, u64>, occurrences: Map<u64, u64>) -> bool {
    forall|cost: u64|
        #![trigger occurrences.contains_key(cost)]
        #![trigger frequency(table, cost)]
        {
            &&& occurrences.contains_key(cost) <==> frequency(table, cost) > 0
            &&& occurrences.contains_key(cost) ==> occurrences[cost] == frequency(table, cost)
        }
}

/// The place of a cost in the ranking: costs with more programs come first, and
/// of two costs with as many programs the lower one.
spec fn rank(count: u64, cost: u64) -> (u64, u64) {
    ((u64::MAX - count) as u64, cost)
}

/// `ranking` holds the rank of each cost in `occurrences`, and nothing else.
spec fn ranked(occurrences: Map<u64, u64>, ranking: Set<(u64, u64)>) -> bool {
    forall|entry: (u64, u64)| #[trigger]
        ranking.contains(entry) <==> occurrences.contains_key(entry.1) && entry == rank(
            occurrences[entry.1],
            entry.1,
        )
}

/// Whether `first` comes before `second` in the order of pairs, or is the same.
spec fn pair_le(first: (u64, u64), second: (u64, u64)) -> bool {
    first.0 < second.0 || (first.0 == second.0 && first.1 <= second.1)
}

/// The first entry of the ranking, which is its least: the ranking is walked in
/// its order, and the walk ends at the first entry.
fn first_ranked(ranking: &BTreeSet<(u64, u64)>) -> (first: Option<(u64, u64)>)
    ensures
        match first {
            None => ranking@.is_empty(),
            Some(entry) => ranking@.contains(entry) && forall|other: (u64, u64)|
                ranking@.contains(other) ==> pair_le(entry, other),
        },
{
    for entry in entries: ranking.iter()
        invariant
            entries.index() == 0,
            entries.seq() == spec_btree_keys_iter(ranking).remaining(),
    {
        proof {
            let order = entries.seq();
            assert(order.unref()[0] == *entry);
            assert forall|other: (u64, u64)| ranking@.contains(other) implies pair_le(
                *entry,
                other,
            ) by {
                assert(order.unref().contains(other));
                let at = choose|at: int| 0 <= at < order.unref().len() && order.unref()[at] == other;
                assert(*order[at] == other);
                if at > 0 {
                    vstd::std_specs::btree::axiom_increasing_seq_meaning::<&(u64, u64)>(order);
                    assert(OrdSpec::cmp_spec(&order[0], &order[at]) is Less);
                }
            }
        }
        return Some(*entry);
    }
    proof {
        assert(spec_btree_keys_iter(ranking).remaining().len() == 0);
    }
    None
}

/// Counts one program less for `cost`.
fn release(occurrences: &mut BTreeMap<u64, u64>, ranking: &mut BTreeSet<(u64, u64)>, cost: u64)
    requires
        ranked(old(occurrences)@, old(ranking)@),
        old(occurrences)@.contains_key(cost),
        old(occurrences)@[cost] >= 1,
    ensures
        ranked(final(occurrences)@, final(ranking)@),
        final(occurrences)@ == if old(occurrences)@[cost] == 1 {
            old(occurrences)@.remove(cost)
        } else {
            old(occurrences)@.insert(cost, (old(occurrences)@[cost] - 1) as u64)
        },
{
    if let Some(count) = occurrences.get(&cost) {
        let count: u64 = *count;
        ranking.remove(&(u64::MAX - count, cost));
        if count == 1 {
            occurrences.remove(&cost);
        } else {
            occurrences.insert(cost, count - 1);
            ranking.insert((u64::MAX - (count - 1), cost));
        }
    }
}

/// Counts one program more for `cost`.
fn record(occurrences: &mut BTreeMap<u64, u64>, ranking: &mut BTreeSet<(u64, u64)>, cost: u64)
    requires
        ranked(old(occurrences)@, old(ranking)@),
        old(occurrences)@.contains_key(cost) ==> old(occurrences)@[cost] < u64::MAX,
    ensures
        ranked(final(occurrences)@, final(ranking)@),
        final(occurrences)@ == old(occurrences)@.insert(
            cost,
            if old(occurrences)@.contains_key(cost) {
                (old(occurrences)@[cost] + 1) as u64
            } else {
                1u64
            },
        ),
{
    let count: u64 = match occurrences.get(&cost) {
        Some(count) => {
            let count: u64 = *count;
            ranking.remove(&(u64::MAX - count, cost));
            count
        },
        None => 0,
    };
    occurrences.insert(cost, count + 1);
    ranking.insert((u64::MAX - (count + 1), cost));
}

/// The mean of two costs, rounded down.
fn average(recorded: u64, observed: u64) -> (mean: u64)
    ensures
        mean == averaged(recorded, observed),
{
    let sum: u128 = recorded as u128 + observed as u128;
    (sum / 2) as u64
}

/// The lowest of the most frequent costs stands first in the ranking.
proof fn lemma_first_ranked_is_mode(
    table: Map<Address, u64>,
    occurrences: Map<u64, u64>,
    ranking: Set<(u64, u64)>,
    first: (u64, u64),
)
    requires
        table.dom().finite(),
        tallied(table, occurrences),
        ranked(occurrences, ranking),
        ranking.contains(first),
        forall|other: (u64, u64)| ranking.contains(other) ==> pair_le(first, other),
    ensures
        is_mode_of(table, first.1),
{
    assert(occurrences.contains_key(first.1));
    assert(frequency(table, first.1) > 0);
    assert(!table.dom().is_empty()) by {
        if table.dom().is_empty() {
            assert(programs_with_cost(table, first.1) =~= Set::empty());
        }
    }
    assert forall|other: u64|
        #![trigger frequency(table, other)]
        frequency(table, other) < frequency(table, first.1) || (frequency(table, other)
            == frequency(table, first.1) && first.1 <= other) by {
        if occurrences.contains_key(other) {
            assert(ranking.contains(rank(occurrences[other], other)));
        }
    }
}

/// Records `observed` for `key` in the table, and brings the count of programs
/// per cost, the ranking and the mode up to date.
fn upsert_parts(
    table: &mut BTreeMap<Address, u64>,
    occurrences: &mut BTreeMap<u64, u64>,
    ranking: &mut BTreeSet<(u64, u64)>,
    mode: &mut u64,
    key: &Address,
    observed: u64,
) -> (cost: u64)
    requires
        tallied(old(table)@, old(occurrences)@),
        ranked(old(occurrences)@, old(ranking)@),
        is_mode_of(old(table)@, *old(mode)),
    ensures
        tallied(final(table)@, final(occurrences)@),
        ranked(final(occurrences)@, final(ranking)@),
        is_mode_of(final(table)@, *final(mode)),
        final(table)@ == table_after_upsert(old(table)@, *key, observed),
        cost == cost_after_upsert(old(table)@, *key, observed),
{
    let recorded: Option<u64> = match table.get(key) {
        Some(recorded) => Some(*recorded),
        None => None,
    };
    let cost: u64 = match recorded {
        Some(recorded) => average(recorded, observed),
        None => observed,
    };
    let unchanged: bool = match recorded {
        Some(recorded) => recorded == cost,
        None => false,
    };
    if unchanged {
        proof {
            assert(table@.insert(*key, cost) =~= table@);
        }
        return cost;
    }
    proof {
        assert forall|other: u64|
            #![trigger frequency(table@, other)]
            #![trigger frequency(table@.insert(*key, cost), other)]
            frequency(table@.insert(*key, cost), other) <= table@.insert(*key, cost).dom().len()
                && frequency(table@.insert(*key, cost), other) == frequency(table@, other) - (
            if table@.contains_key(*key) && table@[*key] == other {
                1int
            } else {
                0int
            }) + (if cost == other {
                1int
            } else {
                0int
            }) by {
            lemma_frequency_after_insert(table@, *key, cost, other);
            lemma_frequency_is_bounded(table@.insert(*key, cost), other);
        }
    }
    table.insert(*key, cost);
    proof {
        vstd::std_specs::btree::axiom_spec_btree_map_len(table);
    }
    if let Some(recorded) = recorded {
        release(occurrences, ranking, recorded);
    }
    record(occurrences, ranking, cost);
    proof {
        assert(ranking@.contains(rank(occurrences@[cost], cost)));
    }
    if let Some(first) = first_ranked(ranking) {
        proof {
            lemma_first_ranked_is_mode(table@, occurrences@, ranking@, first);
        }
        *mode = first.1;
    }
    cost
}

/// The execution cost recorded for each program, with the most frequent cost
/// kept at hand for programs that have none.
#[derive(Debug)]
pub struct ExecuteCostTable {
    /// The recorded cost of each program.
    table: BTreeMap<Address, u64>,
    /// For each recorded cost, the number of programs that have it.
    occurrences: BTreeMap<u64, u64>,
    /// The rank of each recorded cost; the mode has the first.
    ranking: BTreeSet<(u64, u64)>,
    /// The mode of the table.
    mode: u64,
}

impl View for ExecuteCostTable {
    type V = Map<Address, u64>;

    /// The recorded cost of each program.
    closed spec fn view(&self) -> Map<Address, u64> {
        self.table@
    }
}

impl ExecuteCostTable {
    #[verifier::type_invariant]
    spec fn well_formed(&self) -> bool {
        &&& tallied(self.table@, self.occurrences@)
        &&& ranked(self.occurrences@, self.ranking@)
        &&& is_mode_of(self.table@, self.mode)
    }

    /// The table holds finitely many programs.
    pub proof fn lemma_programs_are_finite(&self)
        ensures
            self@.dom().finite(),
    {
    }

    /// A table without entries.
    pub fn new() -> (table: Self)
        ensures
            table@ == Map::<Address, u64>::empty(),
    {
        let table: BTreeMap<Address, u64> = BTreeMap::new();
        proof {
            assert forall|cost: u64| frequency(table@, cost) == 0 by {
                assert(programs_with_cost(table@, cost) =~= Set::empty());
            }
        }
        ExecuteCostTable { table, occurrences: BTreeMap::new(), ranking: BTreeSet::new(), mode: 0 }
    }

    /// The whole table, to read.
    pub fn get_cost_table(&self) -> (table: &BTreeMap<Address, u64>)
        ensures
            table@ == self@,
    {
        &self.table
    }

    /// The number of programs with a recorded cost.
    pub fn get_count(&self) -> (count: usize)
        ensures
            count == self@.len(),
    {
        self.table.len()
    }

    /// The cost recorded for `key`, if there is one.
    pub fn get_cost(&self, key: &Address) -> (cost: Option<u64>)
        ensures
            cost == if self@.contains_key(*key) {
                Some(self@[*key])
            } else {
                None
            },
    {
        match self.table.get(key) {
            Some(cost) => Some(*cost),
            None => None,
        }
    }

    /// The mode of the table: the cost that most programs have, the lowest of
    /// them if there are several, and 0 while the table is empty.
    pub fn get_mode(&self) -> (mode: u64)
        ensures
            is_mode_of(self@, mode),
            mode == mode_of(self@),
    {
        proof {
            use_type_invariant(self);
            lemma_mode_is_unique(self@, self.mode, self.mode);
        }
        self.mode
    }

    /// Records the observed cost `value` for `key`: as it is for a program
    /// without an entry, else averaged with the entry. Returns the cost now
    /// recorded.
    pub fn upsert(&mut self, key: &Address, value: u64) -> (cost: u64)
        ensures
            final(self)@ == table_after_upsert(old(self)@, *key, value),
            cost == cost_after_upsert(old(self)@, *key, value),
    {
        proof {
            use_type_invariant(&*self);
        }
        // The parts are taken out while they are brought up to date one by one,
        // and put back together.
        let mut taken = ExecuteCostTable::new();
        std::mem::swap(self, &mut taken);
        let ExecuteCostTable { mut table, mut occurrences, mut ranking, mut mode } = taken;
        let cost: u64 = upsert_parts(
            &mut table,
            &mut occurrences,
            &mut ranking,
            &mut mode,
            key,
            value,
        );
        *self = ExecuteCostTable { table, occurrences, ranking, mode };
        cost
    }
}

impl Default for ExecuteCostTable {
    fn default() -> (table: Self)
        ensures
            table@ == Map::<Address, u64>::empty(),
    {
        ExecuteCostTable::new()
    }
}

} // verus!
