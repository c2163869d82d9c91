use vstd::prelude::*;

verus! {

/// A column with its statistics.
#[derive(Clone, Debug)]
pub struct Column {
    pub name: String,
    /// Whether an index exists on this column.
    pub indexed: bool,
    /// Number of distinct values, the input of the index height.
    pub total_values: u32,
}

/// A table with its statistics. `br` is expected to be at least 1; the cost
/// formulas are defined for every value and need no such bound.
#[derive(Clone, Debug)]
pub struct Table {
    pub name: String,
    pub columns: Vec<Column>,
    /// The column the table is physically sorted on; it need not be one of `columns`.
    pub sorted_column: Column,
    /// Number of rows.
    pub nr: u32,
    /// Number of blocks.
    pub br: u32,
}

/// The position of the first table named `name`, if any.
pub fn find_table(tables: &Vec<Table>, name: &String) -> (r: Option<usize>)
    ensures
        r matches Some(i) ==> i < tables.len() && tables@[i as int].name@ == name@ && forall|j: int|
            0 <= j < i ==> tables@[j].name@ != name@,
        r is None ==> forall|j: int| 0 <= j < tables.len() ==> tables@[j].name@ != name@,
{
    let mut i: usize = 0;
    while i < tables.len()
        invariant
            i <= tables.len(),
            forall|j: int| 0 <= j < i ==> tables@[j].name@ != name@,
        decreases tables.len() - i,
    {
        if tables[i].name == *name {
            return Some(i);
        }
        i = i + 1;
    }
    None
}

/// The position of the first column of `table` named `name`, if any.
pub fn find_column(table: &Table, name: &String) -> (r: Option<usize>)
    ensures
        r matches Some(i) ==> i < table.columns.len() && table.columns@[i as int].name@ == name@
            && forall|j: int| 0 <= j < i ==> table.columns@[j].name@ != name@,
        r is None ==> forall|j: int|
            0 <= j < table.columns.len() ==> table.columns@[j].name@ != name@,
{
    let mut i: usize = 0;
    while i < table.columns.len()
        invariant
            i <= table.columns.len(),
            forall|j: int| 0 <= j < i ==> table.columns@[j].name@ != name@,
        decreases table.columns.len() - i,
    {
        if table.columns[i].name == *name {
            return Some(i);
        }
        i = i + 1;
    }
    None
}

} // verus!
