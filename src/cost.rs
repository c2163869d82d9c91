use vstd::prelude::*;

use crate::schema::{Column, Table};

verus! {

/// `ceil(a / b)` on natural numbers.
pub open spec fn ceil_div(a: int, b: int) -> int {
    (a + b - 1) / b
}

/// `b` raised to the power `e`.
pub open spec fn power(b: int, e: nat) -> int
    decreases e,
{
    if e == 0 {
        1
    } else {
        b * power(b, (e - 1) as nat)
    }
}

/// `ceil(log_b(k))` for `k >= 1`, and 0 for `k <= 1`: the number of times `k`
/// must be divided by `b` (rounding up) to reach 1.
pub open spec fn ceil_log(b: int, k: int) -> nat
    decreases k via ceil_log_decreases
{
    if b < 2 || k <= 1 {
        0
    } else {
        1 + ceil_log(b, ceil_div(k, b))
    }
}

#[via_fn]
proof fn ceil_log_decreases(b: int, k: int) {
    if b >= 2 && k > 1 {
        lemma_ceil_div_halves(b, k, k);
    }
}

proof fn lemma_ceil_div_halves(b: int, k: int, p: int)
    requires
        b >= 2,
        k >= 2,
        k <= 2 * p,
    ensures
        ceil_div(k, b) <= p,
        ceil_div(k, b) < k,
        1 <= ceil_div(k, b),
        b * ceil_div(k, b) >= k,
        b * (ceil_div(k, b) - 1) < k,
{
    let q = ceil_div(k, b);
    let r = (k + b - 1) % b;
    assert(k + b - 1 == b * q + r && 0 <= r < b) by {
        vstd::arithmetic::div_mod::lemma_fundamental_div_mod(k + b - 1, b);
    }
    assert(b * q >= k) by (nonlinear_arith)
        requires k + b - 1 == b * q + r, r < b;
    assert(b * (q - 1) < k) by (nonlinear_arith)
        requires k + b - 1 == b * q + r, 0 <= r;
    assert(q >= 1) by (nonlinear_arith)
        requires b * q >= k, k >= 2, b >= 2;
    assert(2 * (q - 1) <= b * (q - 1)) by (nonlinear_arith)
        requires q >= 1, b >= 2;
}

/// `ceil_log(b, k)` is the least `h` with `b^h >= k`.
pub proof fn lemma_ceil_log_least_power(b: int, k: int)
    requires
        b >= 2,
    ensures
        power(b, ceil_log(b, k)) >= k,
        ceil_log(b, k) > 0 ==> power(b, (ceil_log(b, k) - 1) as nat) < k,
    decreases k,
{
    if k >= 2 {
        let q = ceil_div(k, b);
        lemma_ceil_div_halves(b, k, k);
        lemma_ceil_log_least_power(b, q);
        let h = ceil_log(b, q);
        assert(power(b, h + 1) == b * power(b, h));
        assert(b * power(b, h) >= b * q) by (nonlinear_arith)
            requires power(b, h) >= q, b >= 2;
        if h > 0 {
            assert(power(b, h) == b * power(b, (h - 1) as nat));
            assert(b * power(b, (h - 1) as nat) <= b * (q - 1)) by (nonlinear_arith)
                requires power(b, (h - 1) as nat) <= q - 1, b >= 2;
        }
    }
}

/// Any `k` up to `2^n` has `ceil_log(b, k) <= n`.
proof fn lemma_ceil_log_bounded(b: int, k: int, n: nat)
    requires
        b >= 2,
        k <= power(2, n),
    ensures
        ceil_log(b, k) <= n,
    decreases k,
{
    if k >= 2 {
        if n == 0 {
            assert(power(2, 0) == 1);
        } else {
            assert(power(2, n) == 2 * power(2, (n - 1) as nat));
            lemma_ceil_div_halves(b, k, power(2, (n - 1) as nat));
            lemma_ceil_log_bounded(b, ceil_div(k, b), (n - 1) as nat);
        }
    }
}

/// Every value of a `u32` is at most `2^32`.
proof fn lemma_u32_below_power(k: u32)
    ensures
        (k as int) <= power(2, 32),
{
    assert(power(2, 32) == 0x1_0000_0000int) by {
        reveal_with_fuel(power, 33);
    }
}

/// Computes `ceil_log(b, k)` by repeated division, rounding up.
fn ceil_log_exec(b: u32, k: u32) -> (r: u32)
    requires
        b >= 2,
    ensures
        r == ceil_log(b as int, k as int),
        r <= 32,
{
    let mut x: u64 = k as u64;
    let mut h: u32 = 0;
    proof {
        lemma_u32_below_power(k);
        lemma_ceil_log_bounded(b as int, k as int, 32);
    }
    while x > 1
        invariant
            b >= 2,
            x <= k,
            h + ceil_log(b as int, x as int) == ceil_log(b as int, k as int),
            ceil_log(b as int, k as int) <= 32,
        decreases x,
    {
        proof {
            lemma_ceil_div_halves(b as int, x as int, x as int);
        }
        x = (x + b as u64 - 1) / b as u64;
        h = h + 1;
    }
    h
}

/// Height of an index tree whose nodes have fan-out `n`, over `k` distinct values:
/// `ceil(log_{n/2}(k))`, which is 0 when `k <= 1`.
pub fn height_of_index_tree(n: u32, k: u32) -> (r: u32)
    requires
        n >= 4,
    ensures
        r == ceil_log(n as int / 2, k as int),
        power(n as int / 2, r as nat) >= k,
        r > 0 ==> power(n as int / 2, (r - 1) as nat) < k,
        r <= 32,
{
    proof {
        lemma_ceil_log_least_power(n as int / 2, k as int);
    }
    ceil_log_exec(n / 2, k)
}

/// Fan-out of an index node: each node holds this many entries.
pub const INDEX_FAN_OUT: u32 = 10;

/// The smaller of two block counts.
pub open spec fn smaller(a: int, b: int) -> int {
    if a <= b {
        a
    } else {
        b
    }
}

/// A cost in `u64`, read as a mathematical integer.
pub open spec fn cost_of(c: Option<u64>) -> Option<int> {
    match c {
        Some(x) => Some(x as int),
        None => None,
    }
}

/// Block nested loop join: a single pass over each table when the smaller one
/// fits in memory, else the inner table is read once per block of the outer one.
pub open spec fn block_nested_cost(br1: int, br2: int, m: int) -> int {
    let s = smaller(br1, br2);
    if s < m {
        br1 + br2
    } else {
        s * (br1 + br2 - s + 1)
    }
}

/// Cost of joining by probing, for each row of `other`, the index on `col`,
/// plus one scan of `other`.
pub open spec fn probe_cost(other: Table, col: Column) -> int {
    other.nr * ceil_log(INDEX_FAN_OUT as int / 2, col.total_values as int) + other.br
}

/// Indexed join: the cheaper probe over the indexed columns, none if neither is indexed.
pub open spec fn indexed_cost(t1: Table, c1: Column, t2: Table, c2: Column) -> Option<int> {
    if c1.indexed && c2.indexed {
        Some(smaller(probe_cost(t2, c1), probe_cost(t1, c2)))
    } else if c1.indexed {
        Some(probe_cost(t2, c1))
    } else if c2.indexed {
        Some(probe_cost(t1, c2))
    } else {
        None
    }
}

/// Number of runs merged at once by an external sort with `m` blocks of memory:
/// `m - 1`, and never fewer than 2.
pub open spec fn merge_fan_in(m: int) -> int {
    if m >= 3 {
        m - 1
    } else {
        2
    }
}

/// Merge passes of an external sort of `b` blocks: `ceil(log_{m-1}(ceil(b / m)))`.
pub open spec fn sort_passes(b: int, m: int) -> nat {
    ceil_log(merge_fan_in(m), ceil_div(b, m))
}

/// External sort of `b` blocks: every pass reads and writes the whole relation.
pub open spec fn sort_cost(b: int, m: int) -> int {
    2 * b * sort_passes(b, m)
}

/// Sort cost of `t` unless it is already sorted on `c`.
pub open spec fn sort_cost_unless_sorted(t: Table, c: Column, m: int) -> int {
    if t.sorted_column.name@ == c.name@ {
        0
    } else {
        sort_cost(t.br as int, m)
    }
}

/// Sort-merge join: sort each table not yet sorted on its join column, then one
/// merge scan over both.
pub open spec fn merge_cost(t1: Table, c1: Column, t2: Table, c2: Column, m: int) -> int {
    sort_cost_unless_sorted(t1, c1, m) + sort_cost_unless_sorted(t2, c2, m) + t1.br + t2.br
}

/// Hash join: applicable when `m^2` exceeds the smaller table's blocks; three
/// passes over both tables plus one per partition.
pub open spec fn hash_cost(br1: int, br2: int, m: int) -> Option<int> {
    let s = smaller(br1, br2);
    if m * m > s {
        Some(3 * (br1 + br2) + ceil_div(s, m) + 1)
    } else {
        None
    }
}

proof fn lemma_ceil_div_at_most(a: int, m: int)
    requires
        a >= 0,
        m >= 1,
    ensures
        0 <= ceil_div(a, m) <= a,
{
    assert((a + m - 1) / m <= a) by {
        if a == 0 {
            vstd::arithmetic::div_mod::lemma_basic_div(m - 1, m);
        } else {
            assert(a + m - 1 <= a * m) by (nonlinear_arith)
                requires a >= 1, m >= 1;
            vstd::arithmetic::div_mod::lemma_div_is_ordered(a + m - 1, a * m, m);
            vstd::arithmetic::div_mod::lemma_div_by_multiple(a, m);
        }
    }
    vstd::arithmetic::div_mod::lemma_div_pos_is_pos(a + m - 1, m);
}

/// Block nested loop join cost; defined for every input and symmetric in the tables.
pub fn block_nested_join_cost(table1: &Table, table2: &Table, memory_size: u32) -> (r: u64)
    ensures
        r == block_nested_cost(table1.br as int, table2.br as int, memory_size as int),
{
    let b1 = table1.br as u64;
    let b2 = table2.br as u64;
    let s: u64 = if b1 <= b2 {
        b1
    } else {
        b2
    };
    if s < memory_size as u64 {
        b1 + b2
    } else {
        let rest: u64 = b1 + b2 - s + 1;
        assert(s * rest <= 0xffff_ffff * 0x1_0000_0000) by (nonlinear_arith)
            requires s <= 0xffff_ffff, rest <= 0x1_0000_0000;
        s * rest
    }
}

/// Cost of probing the index on `column` once per row of `other`, plus a scan of `other`.
fn probe_join_cost(other: &Table, column: &Column) -> (r: u64)
    ensures
        r == probe_cost(*other, *column),
{
    let h = height_of_index_tree(INDEX_FAN_OUT, column.total_values);
    assert((other.nr as u64) * (h as u64) <= 0xffff_ffff * 32) by (nonlinear_arith)
        requires other.nr <= 0xffff_ffff, h <= 32;
    (other.nr as u64) * (h as u64) + other.br as u64
}

/// Indexed join cost: none when neither column is indexed; otherwise the cheaper
/// of probing through each indexed column.
pub fn indexed_join_cost(table1: &Table, column1: &Column, table2: &Table, column2: &Column) -> (r:
    Option<u64>)
    ensures
        cost_of(r) == indexed_cost(*table1, *column1, *table2, *column2),
        r is None <==> !column1.indexed && !column2.indexed,
        column1.indexed && !column2.indexed ==> cost_of(r) == Some(probe_cost(*table2, *column1)),
        !column1.indexed && column2.indexed ==> cost_of(r) == Some(probe_cost(*table1, *column2)),
{
    let mut cost: Option<u64> = None;
    if column1.indexed {
        cost = Some(probe_join_cost(table2, column1));
    }
    if column2.indexed {
        let c2 = probe_join_cost(table1, column2);
        cost = match cost {
            None => Some(c2),
            Some(c1) => Some(if c2 < c1 {
                c2
            } else {
                c1
            }),
        };
    }
    cost
}

/// External sort cost of `br` blocks with `memory_size` blocks of memory.
pub fn sorting_cost(br: u32, memory_size: u32) -> (r: u64)
    requires
        memory_size >= 1,
    ensures
        r == sort_cost(br as int, memory_size as int),
        r <= 2 * 0xffff_ffff * 32,
{
    let fan_in: u32 = if memory_size >= 3 {
        memory_size - 1
    } else {
        2
    };
    proof {
        lemma_ceil_div_at_most(br as int, memory_size as int);
    }
    let runs: u64 = (br as u64 + memory_size as u64 - 1) / memory_size as u64;
    let passes = ceil_log_exec(fan_in, runs as u32);
    assert(2 * (br as u64) * (passes as u64) <= 2 * 0xffff_ffff * 32) by (nonlinear_arith)
        requires br <= 0xffff_ffff, passes <= 32;
    2 * (br as u64) * (passes as u64)
}

/// Sort-merge join cost: sorts each table not already sorted on its join column.
pub fn merge_join_cost(
    table1: &Table,
    column1: &Column,
    table2: &Table,
    column2: &Column,
    memory_size: u32,
) -> (r: u64)
    requires
        memory_size >= 1,
    ensures
        r == merge_cost(*table1, *column1, *table2, *column2, memory_size as int),
        table1.sorted_column.name@ == column1.name@ && table2.sorted_column.name@ == column2.name@
            ==> r == table1.br + table2.br,
{
    let mut cost_to_sort: u64 = 0;
    if !(table1.sorted_column.name == column1.name) {
        cost_to_sort = sorting_cost(table1.br, memory_size);
    }
    if !(table2.sorted_column.name == column2.name) {
        cost_to_sort = cost_to_sort + sorting_cost(table2.br, memory_size);
    }
    cost_to_sort + table1.br as u64 + table2.br as u64
}

/// Hash join cost: none when `memory_size^2` does not exceed the smaller table's blocks.
pub fn hash_join_cost(table1: &Table, table2: &Table, memory_size: u32) -> (r: Option<u64>)
    ensures
        cost_of(r) == hash_cost(table1.br as int, table2.br as int, memory_size as int),
        r is None <==> memory_size * memory_size <= smaller(table1.br as int, table2.br as int),
{
    let b1 = table1.br as u64;
    let b2 = table2.br as u64;
    let s: u64 = if b1 <= b2 {
        b1
    } else {
        b2
    };
    let m = memory_size as u64;
    assert(m * m <= 0xffff_ffff * 0xffff_ffff) by (nonlinear_arith)
        requires m <= 0xffff_ffff;
    if m * m > s {
        assert(m >= 1) by (nonlinear_arith)
            requires m * m > s, s >= 0;
        proof {
            lemma_ceil_div_at_most(s as int, m as int);
        }
        let nh: u64 = (s + m - 1) / m + 1;
        Some(3 * (b1 + b2) + nh)
    } else {
        None
    }
}

/// Block nested loop cost does not depend on the order of the two tables.
pub proof fn lemma_block_nested_symmetric(table1: Table, table2: Table, memory_size: int)
    requires
        memory_size >= 1,
    ensures
        block_nested_cost(table1.br as int, table2.br as int, memory_size) == block_nested_cost(
            table2.br as int,
            table1.br as int,
            memory_size,
        ),
{
}

} // verus!
