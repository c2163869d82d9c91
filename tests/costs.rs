use joiner::cost::{
    block_nested_join_cost, hash_join_cost, height_of_index_tree, indexed_join_cost,
    merge_join_cost, sorting_cost, INDEX_FAN_OUT,
};
use joiner::schema::{Column, Table};

fn column(name: &str, indexed: bool, total_values: u32) -> Column {
    Column { name: name.to_string(), indexed, total_values }
}

fn table(name: &str, sorted_on: &str, nr: u32, br: u32) -> Table {
    Table {
        name: name.to_string(),
        columns: vec![column("id", false, 0), column(sorted_on, false, 0)],
        sorted_column: column(sorted_on, false, 0),
        nr,
        br,
    }
}

#[test]
fn block_nested_outer_does_not_fit() {
    let t1 = table("t1", "id", 1000, 100);
    let t2 = table("t2", "id", 500, 50);
    assert_eq!(block_nested_join_cost(&t1, &t2, 10), 5050);
}

#[test]
fn block_nested_smaller_fits() {
    let t1 = table("t1", "id", 50, 5);
    let t2 = table("t2", "id", 30, 3);
    assert_eq!(block_nested_join_cost(&t1, &t2, 10), 8);
}

#[test]
fn block_nested_equal_to_memory_does_not_fit() {
    let t1 = table("t1", "id", 50, 10);
    let t2 = table("t2", "id", 30, 20);
    assert_eq!(block_nested_join_cost(&t1, &t2, 10), 10 * 21);
}

#[test]
fn block_nested_symmetric_on_values() {
    let t1 = table("t1", "id", 1000, 100);
    let t2 = table("t2", "id", 500, 50);
    for m in [1u32, 10, 50, 51, 1000] {
        assert_eq!(block_nested_join_cost(&t1, &t2, m), block_nested_join_cost(&t2, &t1, m));
    }
}

#[test]
fn block_nested_largest_tables() {
    let t1 = table("t1", "id", 0, u32::MAX);
    let t2 = table("t2", "id", 0, u32::MAX);
    let max = u32::MAX as u64;
    assert_eq!(block_nested_join_cost(&t1, &t2, 1), max * (max + 1));
}

#[test]
fn index_height_values() {
    assert_eq!(height_of_index_tree(INDEX_FAN_OUT, 0), 0);
    assert_eq!(height_of_index_tree(INDEX_FAN_OUT, 1), 0);
    assert_eq!(height_of_index_tree(INDEX_FAN_OUT, 5), 1);
    assert_eq!(height_of_index_tree(INDEX_FAN_OUT, 6), 2);
    assert_eq!(height_of_index_tree(INDEX_FAN_OUT, 25), 2);
    assert_eq!(height_of_index_tree(INDEX_FAN_OUT, 26), 3);
    assert_eq!(height_of_index_tree(INDEX_FAN_OUT, 125), 3);
    assert_eq!(height_of_index_tree(4, 1024), 10);
}

#[test]
fn indexed_join_neither_indexed() {
    let t1 = table("t1", "id", 1000, 100);
    let t2 = table("t2", "id", 500, 50);
    assert_eq!(indexed_join_cost(&t1, &column("a", false, 100), &t2, &column("b", false, 30)), None);
}

#[test]
fn indexed_join_one_side() {
    let t1 = table("t1", "id", 1000, 100);
    let t2 = table("t2", "id", 500, 50);
    let c1 = column("a", true, 100);
    let c2 = column("b", true, 30);
    assert_eq!(indexed_join_cost(&t1, &c1, &t2, &column("b", false, 30)), Some(500 * 3 + 50));
    assert_eq!(indexed_join_cost(&t1, &column("a", false, 100), &t2, &c2), Some(1000 * 3 + 100));
}

#[test]
fn indexed_join_both_sides_takes_cheaper() {
    let t1 = table("t1", "id", 1000, 100);
    let t2 = table("t2", "id", 500, 50);
    let c1 = column("a", true, 100);
    let c2 = column("b", true, 30);
    assert_eq!(indexed_join_cost(&t1, &c1, &t2, &c2), Some(1550));
    assert_eq!(indexed_join_cost(&t2, &c2, &t1, &c1), Some(1550));
}

#[test]
fn sorting_cost_values() {
    assert_eq!(sorting_cost(100, 10), 400);
    assert_eq!(sorting_cost(90, 10), 180);
    assert_eq!(sorting_cost(10, 10), 0);
    assert_eq!(sorting_cost(50, 10), 100);
    assert_eq!(sorting_cost(5, 2), 20);
    assert_eq!(sorting_cost(5, 1), 30);
}

#[test]
fn merge_join_both_sorted() {
    let t1 = table("t1", "a", 1000, 100);
    let t2 = table("t2", "b", 500, 50);
    let c1 = column("a", false, 0);
    let c2 = column("b", false, 0);
    assert_eq!(merge_join_cost(&t1, &c1, &t2, &c2, 10), 150);
}

#[test]
fn merge_join_sorts_unsorted_sides() {
    let t1 = table("t1", "x", 1000, 100);
    let t2 = table("t2", "b", 500, 50);
    let c1 = column("a", false, 0);
    let c2 = column("b", false, 0);
    assert_eq!(merge_join_cost(&t1, &c1, &t2, &c2, 10), 400 + 150);
    let t2 = table("t2", "y", 500, 50);
    assert_eq!(merge_join_cost(&t1, &c1, &t2, &c2, 10), 400 + 100 + 150);
}

#[test]
fn hash_join_applicable() {
    let t1 = table("t1", "id", 1000, 100);
    let t2 = table("t2", "id", 500, 50);
    assert_eq!(hash_join_cost(&t1, &t2, 10), Some(3 * 150 + 6));
    assert_eq!(hash_join_cost(&t2, &t1, 10), Some(3 * 150 + 6));
}

#[test]
fn hash_join_inapplicable_when_memory_squared_not_above_smaller() {
    let t1 = table("t1", "id", 1000, 100);
    let t2 = table("t2", "id", 200, 20);
    assert_eq!(hash_join_cost(&t1, &t2, 4), None);
    assert_eq!(hash_join_cost(&t1, &t2, 5), Some(3 * 120 + 5));
    let t3 = table("t3", "id", 200, 16);
    assert_eq!(hash_join_cost(&t1, &t3, 4), None);
    assert_eq!(hash_join_cost(&t1, &t2, 0), None);
}
