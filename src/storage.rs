//! The storage engine: a database of named tables, each an ordered column
//! schema with rows appended in insertion order.
use vstd::prelude::*;
use crate::text::{texts, lemma_texts_len, same_text, index_of, find_text, lemma_position_facts, lemma_position_prefix};

verus! {

/// One row: an ordered sequence of cells.
pub struct Row(Vec<String>);

impl View for Row {
    type V = Seq<Seq<char>>;

    closed spec fn view(&self) -> Seq<Seq<char>> {
        texts(self.0@)
    }
}

impl Row {
    pub fn new(data: Vec<String>) -> (r: Self)
        ensures
            r@ == texts(data@),
    {
        Row(data)
    }

    pub fn get_inner_vec(&self) -> (r: &Vec<String>)
        ensures
            texts(r@) == self@,
    {
        &self.0
    }
}

/// The cells of each row.
pub open spec fn rows_view(rows: Seq<Row>) -> Seq<Seq<Seq<char>>> {
    rows.map_values(|r: Row| r@)
}

/// The cells of each referenced row.
pub open spec fn row_refs_view(rows: Seq<&Row>) -> Seq<Seq<Seq<char>>> {
    rows.map_values(|r: &Row| r@)
}

pub proof fn lemma_row_refs_len(rows: Seq<&Row>)
    ensures
        row_refs_view(rows).len() == rows.len(),
{
}

/// References to each row, in order.
pub fn row_refs(rows: &Vec<Row>) -> (r: Vec<&Row>)
    ensures
        row_refs_view(r@) == rows_view(rows@),
{
    let mut out: Vec<&Row> = Vec::new();
    let mut k: usize = 0;
    while k < rows.len()
        invariant
            k <= rows.len(),
            row_refs_view(out@) == rows_view(rows@.subrange(0, k as int)),
        decreases rows.len() - k,
    {
        let ghost before = out@;
        let r = &rows[k];
        out.push(r);
        assert(row_refs_view(out@) =~= row_refs_view(before).push(rows@[k as int]@));
        k = k + 1;
        assert(row_refs_view(out@) =~= rows_view(rows@.subrange(0, k as int)));
    }
    assert(rows@.subrange(0, rows.len() as int) =~= rows@);
    out
}

/// A table seen as its column names and its rows, in insertion order.
pub struct TableView {
    pub columns: Seq<Seq<char>>,
    pub rows: Seq<Seq<Seq<char>>>,
}

/// Every row has one cell per column.
pub open spec fn rows_fit(t: TableView) -> bool {
    forall|k: int| 0 <= k < t.rows.len() ==> (#[trigger] t.rows[k]).len() == t.columns.len()
}

/// The rows, among the first `n`, whose cell at `idx` equals `value`, in order.
pub open spec fn matching(rows: Seq<Seq<Seq<char>>>, idx: int, value: Seq<char>, n: int) -> Seq<Seq<Seq<char>>>
    decreases n,
{
    if n <= 0 {
        Seq::empty()
    } else {
        let before = matching(rows, idx, value, n - 1);
        let row = rows[n - 1];
        if 0 <= idx < row.len() && row[idx] == value {
            before.push(row)
        } else {
            before
        }
    }
}

/// Whether a row's cell at `idx` exists and equals `value`.
pub open spec fn cell_is(row: Seq<Seq<char>>, idx: int, value: Seq<char>) -> bool {
    0 <= idx < row.len() && row[idx] == value
}

/// The test that keeps a row in an equality lookup.
pub open spec fn keeps(idx: int, value: Seq<char>) -> spec_fn(Seq<Seq<char>>) -> bool {
    |row: Seq<Seq<char>>| cell_is(row, idx, value)
}

/// An equality lookup returns exactly the rows whose cell in the looked-up
/// column equals the value, case-sensitively, in insertion order, and no
/// others; it is empty when the table has no such column.
pub proof fn lemma_rows_where_is_filter(t: TableView, column: Seq<char>, value: Seq<char>)
    ensures
        rows_where(t, column, value) == match index_of(t.columns, column) {
            None => Seq::<Seq<Seq<char>>>::empty(),
            Some(idx) => t.rows.filter(keeps(idx, value)),
        },
{
    if let Some(idx) = index_of(t.columns, column) {
        lemma_matching_filter(t.rows, idx, value, t.rows.len() as int);
        assert(t.rows.subrange(0, t.rows.len() as int) =~= t.rows);
    }
}

proof fn lemma_matching_filter(rows: Seq<Seq<Seq<char>>>, idx: int, value: Seq<char>, n: int)
    requires
        0 <= n <= rows.len(),
    ensures
        matching(rows, idx, value, n)
            == rows.subrange(0, n).filter(keeps(idx, value)),
    decreases n,
{
    if n > 0 {
        lemma_matching_filter(rows, idx, value, n - 1);
        let s = rows.subrange(0, n);
        assert(s.drop_last() =~= rows.subrange(0, n - 1));
        assert(s.last() == rows[n - 1]);
        reveal(Seq::filter);
        assert(s.filter(keeps(idx, value)) == if keeps(idx, value)(s.last()) {
            s.drop_last().filter(keeps(idx, value)).push(s.last())
        } else {
            s.drop_last().filter(keeps(idx, value))
        });
    } else {
        reveal(Seq::filter);
        assert(rows.subrange(0, 0) =~= Seq::<Seq<Seq<char>>>::empty());
    }
}

/// The rows of `t` whose cell in column `column` equals `value`; none when
/// the table has no such column.
pub open spec fn rows_where(t: TableView, column: Seq<char>, value: Seq<char>) -> Seq<Seq<Seq<char>>> {
    match index_of(t.columns, column) {
        None => Seq::empty(),
        Some(idx) => matching(t.rows, idx, value, t.rows.len() as int),
    }
}

/// Why a row could not be stored.
#[derive(Debug, PartialEq, Eq, Structural)]
pub enum StorageError {
    TableNotFound,
    ArityMismatch { expected: usize, got: usize },
}

pub struct Table {
    pub columns: Vec<String>,
    rows: Vec<Row>,
}

impl View for Table {
    type V = TableView;

    closed spec fn view(&self) -> TableView {
        TableView { columns: texts(self.columns@), rows: rows_view(self.rows@) }
    }
}

impl Table {
    /// An empty table with the given columns.
    pub fn new(columns: Vec<String>) -> (r: Self)
        ensures
            r@.columns == texts(columns@),
            r@.rows.len() == 0,
    {
        let r = Table { columns, rows: Vec::new() };
        assert(r@.rows =~= Seq::<Seq<Seq<char>>>::empty());
        r
    }

    /// Appends the row when it has one cell per column; otherwise leaves the
    /// table as it was and reports the mismatch.
    pub fn insert(&mut self, row: Row) -> (r: Result<(), StorageError>)
        ensures
            row@.len() == old(self)@.columns.len() ==> r is Ok && final(self)@ == (TableView {
                columns: old(self)@.columns,
                rows: old(self)@.rows.push(row@),
            }),
            row@.len() != old(self)@.columns.len() ==> r == Err::<(), StorageError>(
                StorageError::ArityMismatch {
                    expected: old(self)@.columns.len() as usize,
                    got: row@.len() as usize,
                },
            ) && final(self)@ == old(self)@,
    {
        proof { lemma_texts_len(self.columns@); lemma_texts_len(row.0@); }
        if self.columns.len() == row.0.len() {
            let ghost before = self.rows@;
            self.rows.push(row);
            assert(rows_view(self.rows@) =~= rows_view(before).push(row@));
            Ok(())
        } else {
            Err(StorageError::ArityMismatch { expected: self.columns.len(), got: row.0.len() })
        }
    }

    /// The column names, in declared order.
    pub fn column_names(&self) -> (r: &Vec<String>)
        ensures
            texts(r@) == self@.columns,
            r@.len() == self@.columns.len(),
    {
        proof { lemma_texts_len(self.columns@); }
        &self.columns
    }

    pub fn select_all(&self) -> (r: &Vec<Row>)
        ensures
            rows_view(r@) == self@.rows,
    {
        &self.rows
    }

    /// The rows whose cell in `column_name` equals `value`, in insertion
    /// order; none when the column does not exist.
    pub fn select_where(&self, column_name: &str, value: &str) -> (r: Vec<&Row>)
        ensures
            row_refs_view(r@) == rows_where(self@, column_name@, value@),
    {
        let mut out: Vec<&Row> = Vec::new();
        match find_text(&self.columns, column_name) {
            None => {
                assert(row_refs_view(out@) =~= Seq::<Seq<Seq<char>>>::empty());
                out
            },
            Some(idx) => {
                let ghost rv = rows_view(self.rows@);
                let mut k: usize = 0;
                assert(row_refs_view(out@) =~= matching(rv, idx as int, value@, 0));
                while k < self.rows.len()
                    invariant
                        k <= self.rows.len(),
                        rv == rows_view(self.rows@),
                        row_refs_view(out@) == matching(rv, idx as int, value@, k as int),
                    decreases self.rows.len() - k,
                {
                    let row = &self.rows[k];
                    let cells = &row.0;
                    let ghost before = out@;
                    if idx < cells.len() && same_text(cells[idx].as_str(), value) {
                        out.push(row);
                        assert(row_refs_view(out@) =~= row_refs_view(before).push(row@));
                    }
                    k = k + 1;
                }
                out
            },
        }
    }
}

pub struct Database {
    names: Vec<String>,
    tables: Vec<Table>,
}

impl Database {
    /// One table per name, no name twice, and every row of every table fits
    /// its columns.
    pub closed spec fn wf(&self) -> bool {
        &&& self.names.len() == self.tables.len()
        &&& forall|i: int, j: int| 0 <= i < j < self.names.len()
            ==> texts(self.names@)[i] != texts(self.names@)[j]
        &&& forall|i: int| 0 <= i < self.tables.len() ==> rows_fit(#[trigger] self.tables@[i]@)
    }

    /// The table called `name`, as the database holds it.
    pub closed spec fn table(&self, name: Seq<char>) -> Option<TableView> {
        match index_of(texts(self.names@), name) {
            Some(i) => Some(self.tables@[i]@),
            None => None,
        }
    }

    /// In a well-formed database every row of every table fits its columns.
    pub proof fn lemma_table_fits(&self, name: Seq<char>)
        requires
            self.wf(),
        ensures
            self.table(name) matches Some(t) ==> rows_fit(t),
    {
        lemma_position_facts(texts(self.names@), name, self.names.len() as int);
    }

    /// A database with no tables.
    pub fn new() -> (r: Self)
        ensures
            r.wf(),
            forall|name: Seq<char>| #[trigger] r.table(name) is None,
    {
        Database { names: Vec::new(), tables: Vec::new() }
    }

    /// Defines the table `table_name` with the given columns and no rows,
    /// replacing any table of that name.
    pub fn create_table(&mut self, table_name: &str, columns: Vec<String>)
        requires
            old(self).wf(),
        ensures
            final(self).wf(),
            final(self).table(table_name@) == Some(TableView {
                columns: texts(columns@),
                rows: Seq::empty(),
            }),
            forall|other: Seq<char>| other != table_name@
                ==> #[trigger] final(self).table(other) == old(self).table(other),
    {
        let ghost old_names = texts(self.names@);
        let ghost n = self.names.len() as int;
        let table = Table::new(columns);
        let ghost tv = table@;
        proof {
            assert(tv.rows =~= Seq::<Seq<Seq<char>>>::empty());
            lemma_texts_len(self.names@);
        }
        match find_text(&self.names, table_name) {
            Some(i) => {
                proof { lemma_position_facts(old_names, table_name@, n); }
                self.tables.set(i, table);
                proof {
                    assert forall|other: Seq<char>| other != table_name@
                        implies #[trigger] self.table(other) == old(self).table(other) by {
                        lemma_position_facts(old_names, other, n);
                    }
                }
            },
            None => {
                self.names.push(table_name.to_owned());
                self.tables.push(table);
                let ghost new_names = texts(self.names@);
                proof {
                    lemma_texts_len(self.names@);
                    assert(forall|j: int| 0 <= j < n ==> old_names[j] == new_names[j]);
                    lemma_position_facts(old_names, table_name@, n);
                    lemma_position_prefix(old_names, new_names, table_name@, n);
                    assert(new_names[n] == table_name@);
                    assert forall|a: int, b: int| 0 <= a < b < self.names.len()
                        implies new_names[a] != new_names[b] by {
                        if b < n {
                            assert(old_names[a] != old_names[b]);
                        }
                    }
                    assert(index_of(new_names, table_name@) == Some(n));
                    assert forall|other: Seq<char>| other != table_name@
                        implies #[trigger] self.table(other) == old(self).table(other) by {
                        lemma_position_prefix(old_names, new_names, other, n);
                        lemma_position_facts(old_names, other, n);
                        assert(index_of(new_names, other) == index_of(old_names, other));
                    }
                }
            },
        }
        proof {
            assert forall|i: int| 0 <= i < self.tables.len() implies rows_fit(#[trigger] self.tables@[i]@) by {
                if i < n && self.tables@[i] == old(self).tables@[i] {
                    assert(rows_fit(old(self).tables@[i]@));
                } else {
                    assert(self.tables@[i]@ == tv);
                }
            }
        }
    }

    /// Appends the row to the table `table_name` when the table exists and
    /// the row has one cell per column; otherwise changes nothing.
    pub fn insert_into_table(&mut self, table_name: &str, row: Row) -> (r: Result<(), StorageError>)
        requires
            old(self).wf(),
        ensures
            final(self).wf(),
            match old(self).table(table_name@) {
                None => r == Err::<(), StorageError>(StorageError::TableNotFound)
                    && forall|any: Seq<char>| #[trigger] final(self).table(any) == old(self).table(any),
                Some(t) => if row@.len() == t.columns.len() {
                    r is Ok && final(self).table(table_name@) == Some(TableView {
                        columns: t.columns,
                        rows: t.rows.push(row@),
                    }) && forall|other: Seq<char>| other != table_name@
                        ==> #[trigger] final(self).table(other) == old(self).table(other)
                } else {
                    r == Err::<(), StorageError>(StorageError::ArityMismatch {
                        expected: t.columns.len() as usize,
                        got: row@.len() as usize,
                    }) && forall|any: Seq<char>| #[trigger] final(self).table(any) == old(self).table(any)
                },
            },
    {
        let ghost names = texts(self.names@);
        let ghost n = self.names.len() as int;
        proof { lemma_texts_len(self.names@); }
        match find_text(&self.names, table_name) {
            None => Err(StorageError::TableNotFound),
            Some(i) => {
                proof { lemma_position_facts(names, table_name@, n); }
                let mut table = self.tables.remove(i);
                let res = table.insert(row);
                self.tables.insert(i, table);
                proof {
                    assert(self.tables@ =~= old(self).tables@.update(i as int, table));
                    assert forall|other: Seq<char>| other != table_name@
                        implies #[trigger] self.table(other) == old(self).table(other) by {
                        lemma_position_facts(names, other, n);
                    }
                    assert forall|k: int| 0 <= k < self.tables.len() implies rows_fit(#[trigger] self.tables@[k]@) by {
                        assert(rows_fit(old(self).tables@[k]@));
                    }
                }
                res
            },
        }
    }

    pub fn get_table(&self, table_name: &str) -> (r: Option<&Table>)
        requires
            self.wf(),
        ensures
            match r {
                Some(t) => self.table(table_name@) == Some(t@),
                None => self.table(table_name@) is None,
            },
    {
        proof {
            lemma_texts_len(self.names@);
            lemma_position_facts(texts(self.names@), table_name@, self.names.len() as int);
        }
        match find_text(&self.names, table_name) {
            Some(i) => Some(&self.tables[i]),
            None => None,
        }
    }

    /// All rows of the table `table_name`, in insertion order.
    pub fn select_all(&self, table_name: &str) -> (r: &Vec<Row>)
        requires
            self.wf(),
            self.table(table_name@) is Some,
        ensures
            rows_view(r@) == self.table(table_name@)->Some_0.rows,
    {
        proof {
            lemma_texts_len(self.names@);
            lemma_position_facts(texts(self.names@), table_name@, self.names.len() as int);
        }
        let i = find_text(&self.names, table_name).unwrap();
        self.tables[i].select_all()
    }

    /// The rows of the table `table_name` whose cell in `column` equals
    /// `value`, in insertion order.
    pub fn select_where(&self, table_name: &str, column: &str, value: &str) -> (r: Vec<&Row>)
        requires
            self.wf(),
            self.table(table_name@) is Some,
        ensures
            row_refs_view(r@) == rows_where(self.table(table_name@)->Some_0, column@, value@),
    {
        proof {
            lemma_texts_len(self.names@);
            lemma_position_facts(texts(self.names@), table_name@, self.names.len() as int);
        }
        let i = find_text(&self.names, table_name).unwrap();
        self.tables[i].select_where(column, value)
    }
}

} // verus!
