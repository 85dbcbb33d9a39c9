//! Applies statements to a database and renders the response text.
use vstd::prelude::*;
use vstd::string::*;
use crate::parser::{Statement, StatementView, parse_text};
use crate::storage::{Database, keeps, lemma_rows_where_is_filter, lemma_row_refs_len, Row, row_refs, TableView, rows_where, row_refs_view, matching};
use crate::text::{
    texts, lemma_texts_push, lemma_texts_len, lemma_position_facts, same_text, index_of, find_text,
    decimal, decimal_string, dashes, dash_line, join, join_strings,
};

verus! {

/// The column indices that a projection names, among the first `n`
/// requested names; unknown names are dropped.
pub open spec fn resolve_named(columns: Seq<Seq<char>>, requested: Seq<Seq<char>>, n: int) -> Seq<int>
    decreases n,
{
    if n <= 0 {
        Seq::empty()
    } else {
        let before = resolve_named(columns, requested, n - 1);
        match index_of(columns, requested[n - 1]) {
            Some(i) => before.push(i),
            None => before,
        }
    }
}

/// Whether the projection is the lone wildcard `*`.
pub open spec fn is_wildcard(requested: Seq<Seq<char>>) -> bool {
    requested.len() == 1 && requested[0] == "*"@
}

/// The column indices a projection shows: every column for `*`, else each
/// requested name that the table has, in the order requested.
pub open spec fn resolve(columns: Seq<Seq<char>>, requested: Seq<Seq<char>>) -> Seq<int> {
    if is_wildcard(requested) {
        Seq::new(columns.len(), |i: int| i)
    } else {
        resolve_named(columns, requested, requested.len() as int)
    }
}

/// The cells of `row` at the given indices.
pub open spec fn pick(row: Seq<Seq<char>>, idx: Seq<int>) -> Seq<Seq<char>> {
    idx.map_values(|i: int| row[i])
}

/// One line per row, each led by a newline, with the picked cells joined.
pub open spec fn row_lines(rows: Seq<Seq<Seq<char>>>, idx: Seq<int>, n: int) -> Seq<char>
    decreases n,
{
    if n <= 0 {
        Seq::empty()
    } else {
        row_lines(rows, idx, n - 1) + "\n"@ + join(pick(rows[n - 1], idx), " | "@)
    }
}

/// The closing line that counts the rows shown.
pub open spec fn summary(n: nat) -> Seq<char> {
    if n == 0 {
        "\n(no rows)"@
    } else if n == 1 {
        "\n(1 row)"@
    } else {
        "\n("@ + decimal(n) + " rows)"@
    }
}

/// The table shown for the rows: header, as many dashes as the header has
/// characters, one line per row, and the row count.
pub open spec fn render(columns: Seq<Seq<char>>, idx: Seq<int>, rows: Seq<Seq<Seq<char>>>) -> Seq<char> {
    let header = join(pick(columns, idx), " | "@);
    header + "\n"@ + dashes(header.len()) + row_lines(rows, idx, rows.len() as int)
        + summary(rows.len())
}

pub open spec fn table_missing(table: Seq<char>) -> Seq<char> {
    "ERROR: Table '"@ + table + "' not found."@
}

pub open spec fn no_columns() -> Seq<char> {
    "ERROR: No valid columns selected."@
}

pub open spec fn inserted(table: Seq<char>) -> Seq<char> {
    "OK: Inserted 1 row into '"@ + table + "'."@
}

pub open spec fn insert_failed(table: Seq<char>) -> Seq<char> {
    "ERROR: Insert into '"@ + table + "' failed (wrong number of values or table not found)."@
}

/// The rows a `SELECT` reads: all of them, or those meeting the condition.
pub open spec fn selected_rows(t: TableView, condition: Option<(Seq<char>, Seq<char>)>) -> Seq<Seq<Seq<char>>> {
    match condition {
        None => t.rows,
        Some((column, value)) => rows_where(t, column, value),
    }
}

/// The response to a `SELECT` on the table `t`, if it exists.
pub open spec fn select_response(
    t: Option<TableView>,
    table: Seq<char>,
    columns: Seq<Seq<char>>,
    condition: Option<(Seq<char>, Seq<char>)>,
) -> Seq<char> {
    match t {
        None => table_missing(table),
        Some(tv) => {
            let idx = resolve(tv.columns, columns);
            if idx.len() == 0 {
                no_columns()
            } else {
                render(tv.columns, idx, selected_rows(tv, condition))
            }
        },
    }
}

/// Whether an `INSERT` of `values` into the table `t` is stored.
pub open spec fn insert_fits(t: Option<TableView>, values: Seq<Seq<char>>) -> bool {
    t matches Some(tv) && values.len() == tv.columns.len()
}

/// Both databases hold the same table under every name.
pub open spec fn same_tables(a: Database, b: Database) -> bool {
    forall|name: Seq<char>| #[trigger] a.table(name) == b.table(name)
}

/// What running statement `s` on `before` leaves in `after` and answers.
pub open spec fn statement_effect(s: StatementView, before: Database, after: Database, response: Seq<char>) -> bool {
    match s {
        StatementView::Select { table, columns, condition } => {
            &&& response == select_response(before.table(table), table, columns, condition)
            &&& same_tables(after, before)
        },
        StatementView::Insert { table, columns, values } => if insert_fits(before.table(table), values) {
            &&& response == inserted(table)
            &&& after.table(table) == Some(TableView {
                columns: before.table(table)->Some_0.columns,
                rows: before.table(table)->Some_0.rows.push(values),
            })
            &&& forall|other: Seq<char>| other != table ==> #[trigger] after.table(other) == before.table(other)
        } else {
            &&& response == insert_failed(table)
            &&& same_tables(after, before)
        },
    }
}

/// Every row of the first `n` has exactly `len` cells.
pub open spec fn all_len(rows: Seq<Seq<Seq<char>>>, len: nat) -> bool {
    forall|k: int| 0 <= k < rows.len() ==> (#[trigger] rows[k]).len() == len
}

proof fn lemma_matching_len(rows: Seq<Seq<Seq<char>>>, idx: int, value: Seq<char>, n: int, len: nat)
    requires
        0 <= n <= rows.len(),
        all_len(rows, len),
    ensures
        all_len(matching(rows, idx, value, n), len),
        matching(rows, idx, value, n).len() <= n,
    decreases n,
{
    if n > 0 {
        lemma_matching_len(rows, idx, value, n - 1, len);
    }
}

/// Projects the table's columns: every index for `*`, else the index of
/// each requested name found, in the order requested.
pub fn resolve_columns(all_cols: &Vec<String>, requested: &Vec<String>) -> (r: Vec<usize>)
    ensures
        r@.map_values(|i: usize| i as int) == resolve(texts(all_cols@), texts(requested@)),
        forall|k: int| 0 <= k < r@.len() ==> (#[trigger] r@[k]) < all_cols.len(),
{
    let ghost cols = texts(all_cols@);
    let ghost req = texts(requested@);
    proof {
        lemma_texts_len(all_cols@);
        lemma_texts_len(requested@);
        reveal_strlit("*");
    }
    let mut out: Vec<usize> = Vec::new();
    if requested.len() == 1 && same_text(requested[0].as_str(), "*") {
        let mut i: usize = 0;
        while i < all_cols.len()
            invariant
                i <= all_cols.len(),
                out@.map_values(|j: usize| j as int) == Seq::new(i as nat, |j: int| j),
                forall|k: int| 0 <= k < out@.len() ==> (#[trigger] out@[k]) < all_cols.len(),
            decreases all_cols.len() - i,
        {
            let ghost before = out@;
            out.push(i);
            assert(out@.map_values(|j: usize| j as int)
                =~= before.map_values(|j: usize| j as int).push(i as int));
            i = i + 1;
            assert(out@.map_values(|j: usize| j as int) =~= Seq::new(i as nat, |j: int| j));
        }
        out
    } else {
        let mut n: usize = 0;
        assert(out@.map_values(|j: usize| j as int) =~= resolve_named(cols, req, 0));
        while n < requested.len()
            invariant
                n <= requested.len(),
                cols == texts(all_cols@),
                req == texts(requested@),
                req.len() == requested.len(),
                cols.len() == all_cols.len(),
                out@.map_values(|j: usize| j as int) == resolve_named(cols, req, n as int),
                forall|k: int| 0 <= k < out@.len() ==> (#[trigger] out@[k]) < all_cols.len(),
            decreases requested.len() - n,
        {
            let ghost before = out@;
            let found = find_text(all_cols, requested[n].as_str());
            proof {
                lemma_position_facts(cols, req[n as int], cols.len() as int);
            }
            match found {
                Some(i) => {
                    out.push(i);
                    assert(out@.map_values(|j: usize| j as int)
                        =~= before.map_values(|j: usize| j as int).push(i as int));
                },
                None => {},
            }
            n = n + 1;
        }
        out
    }
}

/// The cells of a row at the given indices.
fn pick_cells(row: &Vec<String>, idx: &Vec<usize>) -> (r: Vec<String>)
    requires
        forall|k: int| 0 <= k < idx@.len() ==> (#[trigger] idx@[k]) < row.len(),
    ensures
        texts(r@) == pick(texts(row@), idx@.map_values(|i: usize| i as int)),
{
    let mut out: Vec<String> = Vec::new();
    let mut k: usize = 0;
    while k < idx.len()
        invariant
            k <= idx.len(),
            forall|j: int| 0 <= j < idx@.len() ==> (#[trigger] idx@[j]) < row.len(),
            texts(out@) == pick(texts(row@), idx@.subrange(0, k as int).map_values(|i: usize| i as int)),
        decreases idx.len() - k,
    {
        let cell = row[idx[k]].clone();
        proof { lemma_texts_push(out@, cell); }
        out.push(cell);
        k = k + 1;
        assert(texts(out@) =~= pick(texts(row@), idx@.subrange(0, k as int).map_values(|i: usize| i as int)));
    }
    assert(idx@.subrange(0, idx.len() as int) =~= idx@);
    out
}

/// Renders the header, separator, row lines and count for the rows shown.
pub fn render_rows(all_cols: &Vec<String>, idx: &Vec<usize>, rows: &Vec<&Row>) -> (r: String)
    requires
        forall|k: int| 0 <= k < idx@.len() ==> (#[trigger] idx@[k]) < all_cols.len(),
        all_len(row_refs_view(rows@), all_cols.len() as nat),
    ensures
        r@ == render(texts(all_cols@), idx@.map_values(|i: usize| i as int), row_refs_view(rows@)),
{
    let ghost ix = idx@.map_values(|i: usize| i as int);
    let ghost rv = row_refs_view(rows@);
    let header = join_strings(&pick_cells(all_cols, idx), " | ");
    let mut out = header.clone();
    out.append("\n");
    let dashes_line = dash_line(header.as_str().unicode_len());
    out.append(dashes_line.as_str());
    let ghost lead = out@;
    assert(lead == join(pick(texts(all_cols@), ix), " | "@) + "\n"@ + dashes(header@.len()));
    let mut k: usize = 0;
    while k < rows.len()
        invariant
            k <= rows.len(),
            ix == idx@.map_values(|i: usize| i as int),
            rv == row_refs_view(rows@),
            forall|j: int| 0 <= j < idx@.len() ==> (#[trigger] idx@[j]) < all_cols.len(),
            all_len(rv, all_cols.len() as nat),
            out@ == lead + row_lines(rv, ix, k as int),
        decreases rows.len() - k,
    {
        let cells = rows[k].get_inner_vec();
        proof {
            lemma_texts_len(cells@);
            assert(rv[k as int] == rows@[k as int]@);
        }
        let line = join_strings(&pick_cells(cells, idx), " | ");
        out.append("\n");
        out.append(line.as_str());
        k = k + 1;
        assert(out@ =~= lead + row_lines(rv, ix, k as int));
    }
    let n = rows.len();
    proof { lemma_row_refs_len(rows@); }
    if n == 0 {
        out.append("\n(no rows)");
    } else if n == 1 {
        out.append("\n(1 row)");
    } else {
        out.append("\n(");
        out.append(decimal_string(n).as_str());
        out.append(" rows)");
    }
    assert(rv.len() == n);
    assert(out@ =~= render(texts(all_cols@), ix, rv));
    out
}

/// Applies a parsed statement to the database and returns the response.
pub fn run_statement(statement: Statement, db: &mut Database) -> (r: String)
    requires
        old(db).wf(),
    ensures
        final(db).wf(),
        statement_effect(statement@, *old(db), *final(db), r@),
{
    match statement {
        Statement::Insert { table, columns, values } => {
            let row = Row::new(values);
            match db.insert_into_table(table.as_str(), row) {
                Ok(()) => {
                    let mut m = String::from_str("OK: Inserted 1 row into '");
                    m.append(table.as_str());
                    m.append("'.");
                    m
                },
                Err(_) => {
                    let mut m = String::from_str("ERROR: Insert into '");
                    m.append(table.as_str());
                    m.append("' failed (wrong number of values or table not found).");
                    m
                },
            }
        },
        Statement::Select { table, columns, condition } => {
            let meta = match db.get_table(table.as_str()) {
                None => {
                    let mut m = String::from_str("ERROR: Table '");
                    m.append(table.as_str());
                    m.append("' not found.");
                    return m;
                },
                Some(t) => t,
            };
            proof { db.lemma_table_fits(table@); }
            let all_cols = meta.column_names();
            let idx = resolve_columns(all_cols, &columns);
            if idx.len() == 0 {
                return String::from_str("ERROR: No valid columns selected.");
            }
            let ghost tv = meta@;
            let rows: Vec<&Row> = match &condition {
                None => row_refs(db.select_all(table.as_str())),
                Some(c) => {
                    let found = db.select_where(table.as_str(), c.column.as_str(), c.value.as_str());
                    proof {
                        assert(all_len(tv.rows, tv.columns.len()));
                        match index_of(tv.columns, c.column@) {
                            Some(i) => lemma_matching_len(tv.rows, i, c.value@, tv.rows.len() as int, tv.columns.len()),
                            None => {},
                        }
                    }
                    found
                },
            };
            render_rows(all_cols, &idx, &rows)
        },
    }
}

/// Parses one line of text and applies the statement to the database;
/// a syntax error is answered with `ERROR: ` and the message.
pub fn execute_statement(input: &str, db: &mut Database) -> (r: String)
    requires
        old(db).wf(),
    ensures
        final(db).wf(),
        match parse_text(input@) {
            Err(e) => r@ == "ERROR: "@ + e && same_tables(*final(db), *old(db)),
            Ok(s) => statement_effect(s, *old(db), *final(db), r@),
        },
{
    match Statement::parse(input) {
        Err(e) => {
            let mut m = String::from_str("ERROR: ");
            m.append(e.as_str());
            m
        },
        Ok(statement) => run_statement(statement, db),
    }
}

/// Whether the statement inserts exactly `values` into `table`.
pub open spec fn inserts_row(s: StatementView, table: Seq<char>, values: Seq<Seq<char>>) -> bool {
    match s {
        StatementView::Insert { table: t, values: v, .. } => t == table && v == values,
        _ => false,
    }
}

/// Inserts applied one at a time, as the shared database's lock makes them,
/// keep every row: when each statement of a run inserts a fitting row into
/// the same table, the table ends with its old rows followed by all the new
/// ones, in the order applied, with none lost or repeated.
pub proof fn lemma_serialized_inserts_kept(
    dbs: Seq<Database>,
    stmts: Seq<StatementView>,
    responses: Seq<Seq<char>>,
    table: Seq<char>,
    values: Seq<Seq<Seq<char>>>,
)
    requires
        dbs.len() == stmts.len() + 1,
        responses.len() == stmts.len(),
        values.len() == stmts.len(),
        dbs[0].table(table) is Some,
        forall|i: int| 0 <= i < stmts.len() ==> inserts_row(#[trigger] stmts[i], table, values[i]),
        forall|i: int| 0 <= i < values.len() ==> (#[trigger] values[i]).len()
            == dbs[0].table(table)->Some_0.columns.len(),
        forall|i: int| 0 <= i < stmts.len() ==> statement_effect(
            #[trigger] stmts[i],
            dbs[i],
            dbs[i + 1],
            responses[i],
        ),
    ensures
        dbs.last().table(table) == Some(TableView {
            columns: dbs[0].table(table)->Some_0.columns,
            rows: dbs[0].table(table)->Some_0.rows + values,
        }),
{
    lemma_inserts_prefix(dbs, stmts, responses, table, values, stmts.len() as int);
    assert(values.subrange(0, stmts.len() as int) =~= values);
}

proof fn lemma_inserts_prefix(
    dbs: Seq<Database>,
    stmts: Seq<StatementView>,
    responses: Seq<Seq<char>>,
    table: Seq<char>,
    values: Seq<Seq<Seq<char>>>,
    k: int,
)
    requires
        dbs.len() == stmts.len() + 1,
        responses.len() == stmts.len(),
        values.len() == stmts.len(),
        0 <= k <= stmts.len(),
        dbs[0].table(table) is Some,
        forall|i: int| 0 <= i < stmts.len() ==> inserts_row(#[trigger] stmts[i], table, values[i]),
        forall|i: int| 0 <= i < values.len() ==> (#[trigger] values[i]).len()
            == dbs[0].table(table)->Some_0.columns.len(),
        forall|i: int| 0 <= i < stmts.len() ==> statement_effect(
            #[trigger] stmts[i],
            dbs[i],
            dbs[i + 1],
            responses[i],
        ),
    ensures
        dbs[k].table(table) == Some(TableView {
            columns: dbs[0].table(table)->Some_0.columns,
            rows: dbs[0].table(table)->Some_0.rows + values.subrange(0, k),
        }),
    decreases k,
{
    let start = dbs[0].table(table)->Some_0;
    if k == 0 {
        assert(start.rows + values.subrange(0, 0) =~= start.rows);
    } else {
        lemma_inserts_prefix(dbs, stmts, responses, table, values, k - 1);
        let s = stmts[k - 1];
        assert(statement_effect(s, dbs[k - 1], dbs[k], responses[k - 1]));
        assert(values[k - 1].len() == start.columns.len());
        assert((start.rows + values.subrange(0, k - 1)).push(values[k - 1])
            =~= start.rows + values.subrange(0, k));
    }
}

/// A `SELECT ... WHERE column = value` on an existing table, with at least
/// one shown column, shows exactly the rows whose cell in that column
/// equals the value (case-sensitively), in insertion order, and no others;
/// none when the table has no such column.
pub proof fn lemma_select_where_shows_filter(
    tv: TableView,
    table: Seq<char>,
    columns: Seq<Seq<char>>,
    column: Seq<char>,
    value: Seq<char>,
)
    requires
        resolve(tv.columns, columns).len() > 0,
    ensures
        select_response(Some(tv), table, columns, Some((column, value))) == render(
            tv.columns,
            resolve(tv.columns, columns),
            match index_of(tv.columns, column) {
                None => Seq::<Seq<Seq<char>>>::empty(),
                Some(i) => tv.rows.filter(keeps(i, value)),
            },
        ),
{
    lemma_rows_where_is_filter(tv, column, value);
}

} // verus!
