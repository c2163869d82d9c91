use vstd::prelude::*;

use crate::cost::{
    block_nested_cost,
    block_nested_join_cost,
    cost_of,
    hash_cost,
    hash_join_cost,
    indexed_cost,
    indexed_join_cost,
    merge_cost,
    merge_join_cost,
};
use crate::schema::{Column, Table};

verus! {

/// The join algorithms, in the order in which they are considered.
#[derive(Clone, Copy, Debug, PartialEq, Eq, Structural)]
pub enum JoinMethod {
    BlockNested,
    Indexed,
    Merge,
    Hash,
}

/// The name under which a join method is reported.
pub open spec fn method_name(m: JoinMethod) -> Seq<char> {
    match m {
        JoinMethod::BlockNested => "Block Nested Join"@,
        JoinMethod::Indexed => "Indexed Join"@,
        JoinMethod::Merge => "Merge Join"@,
        JoinMethod::Hash => "Hash Join"@,
    }
}

impl JoinMethod {
    /// The name under which this method is reported.
    pub fn name(&self) -> (r: &'static str)
        ensures
            r@ == method_name(*self),
    {
        match self {
            JoinMethod::BlockNested => "Block Nested Join",
            JoinMethod::Indexed => "Indexed Join",
            JoinMethod::Merge => "Merge Join",
            JoinMethod::Hash => "Hash Join",
        }
    }
}

/// One step of the selection: an applicable candidate replaces the current best
/// only when it is strictly cheaper.
pub open spec fn pick(best: (JoinMethod, int), cand: (JoinMethod, Option<int>)) -> (JoinMethod, int) {
    match cand.1 {
        Some(c) => if c < best.1 {
            (cand.0, c)
        } else {
            best
        },
        None => best,
    }
}

/// The result of folding `pick` over `cands`, starting from `first`.
pub open spec fn cheapest(first: (JoinMethod, int), cands: Seq<(JoinMethod, Option<int>)>) -> (
    JoinMethod,
    int,
)
    decreases cands.len(),
{
    if cands.len() == 0 {
        first
    } else {
        pick(cheapest(first, cands.drop_last()), cands.last())
    }
}

/// Candidates with their costs read as integers.
pub open spec fn costs_of(cands: Seq<(JoinMethod, Option<u64>)>) -> Seq<(JoinMethod, Option<int>)> {
    cands.map_values(|c: (JoinMethod, Option<u64>)| (c.0, cost_of(c.1)))
}

/// Starting from `first`, which is always applicable, takes each applicable
/// candidate in order that is strictly cheaper than the best so far: the result
/// is the first of the cheapest.
pub fn select_cheapest(first: (JoinMethod, u64), cands: &Vec<(JoinMethod, Option<u64>)>) -> (r: (
    JoinMethod,
    u64,
))
    ensures
        (r.0, r.1 as int) == cheapest((first.0, first.1 as int), costs_of(cands@)),
{
    let ghost start = (first.0, first.1 as int);
    let mut best = first;
    let mut i: usize = 0;
    while i < cands.len()
        invariant
            i <= cands.len(),
            (best.0, best.1 as int) == cheapest(start, costs_of(cands@.subrange(0, i as int))),
        decreases cands.len() - i,
    {
        let cand = cands[i];
        assert(costs_of(cands@.subrange(0, i + 1)).drop_last() =~= costs_of(
            cands@.subrange(0, i as int),
        ));
        assert(costs_of(cands@.subrange(0, i + 1)).last() == (cand.0, cost_of(cand.1)));
        match cand.1 {
            Some(c) => {
                if c < best.1 {
                    best = (cand.0, c);
                }
            },
            None => {},
        }
        i = i + 1;
    }
    assert(cands@.subrange(0, cands.len() as int) =~= cands@);
    best
}

/// The reported method and cost for joining `t1` on `c1` with `t2` on `c2`
/// under `m` blocks of memory: block nested loop first, then indexed, merge and
/// hash join, each taken only when strictly cheaper.
pub open spec fn best_join(t1: Table, c1: Column, t2: Table, c2: Column, m: int) -> (JoinMethod, int) {
    cheapest(
        (JoinMethod::BlockNested, block_nested_cost(t1.br as int, t2.br as int, m)),
        seq![
            (JoinMethod::Indexed, indexed_cost(t1, c1, t2, c2)),
            (JoinMethod::Merge, Some(merge_cost(t1, c1, t2, c2, m))),
            (JoinMethod::Hash, hash_cost(t1.br as int, t2.br as int, m)),
        ],
    )
}

/// Picks the cheapest join method for joining `table1` on `column1` with
/// `table2` on `column2` under `memory_size` blocks of memory; among equal
/// costs the method evaluated first wins (block nested, indexed, merge, hash).
pub fn best_join_method(
    table1: &Table,
    column1: &Column,
    table2: &Table,
    column2: &Column,
    memory_size: u32,
) -> (r: (JoinMethod, u64))
    requires
        memory_size >= 1,
    ensures
        (r.0, r.1 as int) == best_join(*table1, *column1, *table2, *column2, memory_size as int),
{
    let bnl = block_nested_join_cost(table1, table2, memory_size);
    let idx = indexed_join_cost(table1, column1, table2, column2);
    let merge = merge_join_cost(table1, column1, table2, column2, memory_size);
    let hash = hash_join_cost(table1, table2, memory_size);
    let cands = vec![(JoinMethod::Indexed, idx), (JoinMethod::Merge, Some(merge)), (JoinMethod::Hash, hash)];
    assert(costs_of(cands@) =~= seq![
        (JoinMethod::Indexed, indexed_cost(*table1, *column1, *table2, *column2)),
        (JoinMethod::Merge, Some(merge_cost(*table1, *column1, *table2, *column2, memory_size as int))),
        (JoinMethod::Hash, hash_cost(table1.br as int, table2.br as int, memory_size as int)),
    ]);
    select_cheapest((JoinMethod::BlockNested, bnl), &cands)
}

/// The selection returns the cheapest of `first` and the applicable candidates,
/// and among equal costs the one met first: `first` unless a candidate is
/// strictly cheaper, else the earliest candidate with the least cost.
pub proof fn lemma_cheapest_is_first_minimum(
    first: (JoinMethod, int),
    cands: Seq<(JoinMethod, Option<int>)>,
)
    ensures
        cheapest(first, cands).1 <= first.1,
        forall|i: int|
            0 <= i < cands.len() && #[trigger] cands[i].1 is Some ==> cheapest(first, cands).1
                <= cands[i].1->0,
        cheapest(first, cands) == first || exists|i: int|
            0 <= i < cands.len() && #[trigger] cands[i] == (
                cheapest(first, cands).0,
                Some(cheapest(first, cands).1),
            ) && cheapest(first, cands).1 < first.1 && forall|j: int|
                0 <= j < i && #[trigger] cands[j].1 is Some ==> cheapest(first, cands).1
                    < cands[j].1->0,
    decreases cands.len(),
{
    if cands.len() > 0 {
        let prev = cands.drop_last();
        lemma_cheapest_is_first_minimum(first, prev);
        let p = cheapest(first, prev);
        let n = cands.len() - 1;
        assert forall|i: int| 0 <= i < n implies #[trigger] cands[i] == prev[i] by {}
        if cands.last().1 is Some && cands.last().1->0 < p.1 {
            assert(cands[n] == (cheapest(first, cands).0, Some(cheapest(first, cands).1)));
        } else if cheapest(first, cands) != first {
            let i = choose|i: int|
                0 <= i < prev.len() && #[trigger] prev[i] == (p.0, Some(p.1)) && p.1 < first.1
                    && forall|j: int| 0 <= j < i && #[trigger] prev[j].1 is Some ==> p.1 < prev[j].1->0;
            assert(cands[i] == prev[i]);
            assert forall|j: int| 0 <= j < i && #[trigger] cands[j].1 is Some implies p.1
                < cands[j].1->0 by {
                assert(cands[j] == prev[j]);
            }
        }
    }
}

/// When the indexed join costs exactly as much as the block nested loop join,
/// and neither merge nor hash join is cheaper, the block nested loop join is
/// reported, since it is evaluated first.
pub proof fn lemma_tie_keeps_block_nested(
    table1: Table,
    column1: Column,
    table2: Table,
    column2: Column,
    memory_size: int,
)
    requires
        memory_size >= 1,
        indexed_cost(table1, column1, table2, column2) == Some(
            block_nested_cost(table1.br as int, table2.br as int, memory_size),
        ),
        merge_cost(table1, column1, table2, column2, memory_size) >= block_nested_cost(
            table1.br as int,
            table2.br as int,
            memory_size,
        ),
        hash_cost(table1.br as int, table2.br as int, memory_size) matches Some(h) ==> h
            >= block_nested_cost(table1.br as int, table2.br as int, memory_size),
    ensures
        best_join(table1, column1, table2, column2, memory_size) == (
            JoinMethod::BlockNested,
            block_nested_cost(table1.br as int, table2.br as int, memory_size),
        ),
{
    let s = seq![
        (JoinMethod::Indexed, indexed_cost(table1, column1, table2, column2)),
        (JoinMethod::Merge, Some(merge_cost(table1, column1, table2, column2, memory_size))),
        (JoinMethod::Hash, hash_cost(table1.br as int, table2.br as int, memory_size)),
    ];
    assert(s.drop_last() =~= s.subrange(0, 2));
    assert(s.subrange(0, 2).drop_last() =~= s.subrange(0, 1));
    assert(s.subrange(0, 1).drop_last() =~= Seq::<(JoinMethod, Option<int>)>::empty());
    reveal_with_fuel(cheapest, 4);
}

/// With no index on either join column, the indexed join is never reported.
pub proof fn lemma_no_index_never_indexed(
    table1: Table,
    column1: Column,
    table2: Table,
    column2: Column,
    memory_size: int,
)
    requires
        memory_size >= 1,
        !column1.indexed,
        !column2.indexed,
    ensures
        best_join(table1, column1, table2, column2, memory_size).0 != JoinMethod::Indexed,
{
    let s = seq![
        (JoinMethod::Indexed, indexed_cost(table1, column1, table2, column2)),
        (JoinMethod::Merge, Some(merge_cost(table1, column1, table2, column2, memory_size))),
        (JoinMethod::Hash, hash_cost(table1.br as int, table2.br as int, memory_size)),
    ];
    assert(s.drop_last() =~= s.subrange(0, 2));
    assert(s.subrange(0, 2).drop_last() =~= s.subrange(0, 1));
    assert(s.subrange(0, 1).drop_last() =~= Seq::<(JoinMethod, Option<int>)>::empty());
    reveal_with_fuel(cheapest, 4);
}

} // verus!
