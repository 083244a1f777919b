//! The scan planner: which of the constraints that the host offers become
//! arguments of the scan, and the plan that travels with the scan.
use vstd::prelude::*;
use crate::table::GraphQLTab;

verus! {

/// A constraint that the host offers for a scan.
#[derive(Debug, Clone, Copy, PartialEq, Eq)]
pub struct Constraint {
    /// The column it is on; the host numbers the row id below zero.
    pub column: i32,
    /// Whether the host can supply its right-hand side.
    pub usable: bool,
    /// Whether its operator is equality.
    pub equality: bool,
}

/// One bound argument of a scan: the column its constraint is on.
#[derive(Debug, Clone, Copy, PartialEq, Eq)]
pub struct ParameterDetail {
    /// column number of the parameter
    pub col: usize,
}

/// The plan of one scan: the columns of its arguments, in argument order,
/// and the set of result columns that the host will read, one bit for each.
#[derive(Debug, Clone, PartialEq, Eq)]
pub struct QueryInfo {
    pub params: Vec<ParameterDetail>,
    pub col_used: u64,
}

/// What the planner hands back to the host.
#[derive(Debug, Clone, PartialEq, Eq)]
pub struct IndexPlan {
    /// The plan, to be handed back unchanged when the scan runs.
    pub query_info: QueryInfo,
    /// For each offered constraint the place of its value among the scan's
    /// arguments, counted from 1, or 0 where it is no argument.
    pub argv_index: Vec<usize>,
    /// The cost of the scan as the host is told it.
    pub estimated_cost: u64,
}

/// Every scan is a network round trip: the host is told a large cost.
pub const ESTIMATED_COST: u64 = 1_000_000;

/// The columns of a list of parameters.
pub open spec fn columns_of(params: Seq<ParameterDetail>) -> Seq<nat> {
    params.map_values(|p: ParameterDetail| p.col as nat)
}

impl View for QueryInfo {
    type V = (Seq<nat>, u64);

    open spec fn view(&self) -> (Seq<nat>, u64) {
        (columns_of(self.params@), self.col_used)
    }
}

/// The result columns among the columns that the host reads: the bits below
/// the number of result columns. From 64 result columns on every bit speaks
/// of a result column.
pub open spec fn result_columns(col_used: u64, result_count: nat) -> u64 {
    if result_count >= 64 {
        col_used
    } else {
        col_used & (((1u64 << (result_count as u64)) - 1) as u64)
    }
}

/// Bit `i` of the result columns read is set exactly where `i` is a result
/// column and the host reads it.
pub proof fn lemma_result_columns_bits(col_used: u64, result_count: nat, i: u64)
    requires
        i < 64,
    ensures
        ((result_columns(col_used, result_count) >> i) & 1 == 1) == (i < result_count && (col_used
            >> i) & 1 == 1),
{
    if result_count < 64 {
        let r = result_count as u64;
        assert(((col_used & (((1u64 << r) - 1) as u64)) >> i) & 1 == (if i < r {
            (col_used >> i) & 1
        } else {
            0
        })) by (bit_vector)
            requires
                i < 64,
                r < 64,
        ;
    }
}

/// Whether a constraint becomes an argument: it is usable, an equality, and
/// on a variable column, that is one at or after the result columns.
pub open spec fn accepted(c: Constraint, result_count: nat) -> bool {
    c.usable && c.equality && c.column >= result_count
}

/// The columns of the accepted constraints, in the order offered.
pub open spec fn planned_columns(constraints: Seq<Constraint>, result_count: nat) -> Seq<nat>
    decreases constraints.len(),
{
    if constraints.len() == 0 {
        Seq::empty()
    } else if accepted(constraints.last(), result_count) {
        planned_columns(constraints.drop_last(), result_count).push(
            constraints.last().column as nat,
        )
    } else {
        planned_columns(constraints.drop_last(), result_count)
    }
}

/// The argument slot of constraint `i`, counted from 1: one more than the
/// number of accepted constraints before it; 0 where it is not accepted.
pub open spec fn slot(constraints: Seq<Constraint>, result_count: nat, i: int) -> nat {
    if accepted(constraints[i], result_count) {
        planned_columns(constraints.take(i), result_count).len() + 1
    } else {
        0
    }
}

impl GraphQLTab {
    /// Plans a scan. Every usable equality constraint on a variable column
    /// becomes an argument, in the order offered; of the columns that the
    /// host reads the result columns go into the plan. Nothing is rejected.
    pub fn best_index(&self, constraints: &Vec<Constraint>, col_used: u64) -> (plan: IndexPlan)
        ensures
            plan.query_info@ == (
                planned_columns(constraints@, self.config@.query_details.results.len()),
                result_columns(col_used, self.config@.query_details.results.len()),
            ),
            plan.argv_index@.len() == constraints@.len(),
            forall|i: int|
                0 <= i < constraints@.len() ==> plan.argv_index@[i] == slot(
                    constraints@,
                    self.config@.query_details.results.len(),
                    i,
                ),
            plan.estimated_cost == ESTIMATED_COST,
    {
        let result_count = self.config.query_details.results.len();
        let mut params: Vec<ParameterDetail> = Vec::new();
        let mut argv_index: Vec<usize> = Vec::new();
        let mut i: usize = 0;
        while i < constraints.len()
            invariant
                i <= constraints.len(),
                result_count == self.config@.query_details.results.len(),
                columns_of(params@) == planned_columns(
                    constraints@.take(i as int),
                    result_count as nat,
                ),
                params.len() <= i,
                argv_index.len() == i,
                forall|j: int|
                    0 <= j < i ==> argv_index@[j] == slot(constraints@, result_count as nat, j),
            decreases constraints.len() - i,
        {
            let c = constraints[i];
            proof {
                assert(constraints@.take(i as int + 1).drop_last() =~= constraints@.take(i as int));
                assert(constraints@.take(i as int + 1).last() == c);
            }
            if c.usable && c.equality && c.column >= 0 && c.column as usize >= result_count {
                let ghost before = params@;
                params.push(ParameterDetail { col: c.column as usize });
                argv_index.push(params.len());
                assert(columns_of(params@) =~= columns_of(before).push(c.column as nat));
            } else {
                argv_index.push(0);
            }
            i = i + 1;
        }
        assert(constraints@.take(constraints.len() as int) =~= constraints@);
        let col_used = if result_count >= 64 {
            col_used
        } else {
            let width = result_count as u64;
            assert((1u64 << width) >= 1) by (bit_vector)
                requires
                    width < 64,
            ;
            col_used & ((1u64 << width) - 1)
        };
        IndexPlan {
            query_info: QueryInfo { params, col_used },
            argv_index,
            estimated_cost: ESTIMATED_COST,
        }
    }
}

} // verus!
