use vstd::prelude::*;
use crate::delimited::{parse_delimited, records, widths_agree, width_error, COMMA, NEWLINE};
use crate::error::{kind_of, ErrorKind, EtlError};

verus! {

/// What a table holds: its column names and its rows, every value as text.
pub struct TableView {
    pub columns: Seq<Seq<u8>>,
    pub rows: Seq<Seq<Seq<u8>>>,
}

/// The single table of a store, once a load has created it.
pub struct Table {
    columns: Vec<Vec<u8>>,
    rows: Vec<Vec<Vec<u8>>>,
}

/// A store that holds at most one table.
pub struct Database {
    table: Option<Table>,
}

impl Table {
    pub closed spec fn view(&self) -> TableView {
        TableView { columns: self.columns.deep_view(), rows: self.rows.deep_view() }
    }

    /// Every row has one value per column.
    pub closed spec fn wf(&self) -> bool {
        forall|i: int| 0 <= i < self.rows.len() ==> #[trigger] self.rows[i].len() == self.columns.len()
    }
}

impl View for Database {
    type V = Option<TableView>;

    closed spec fn view(&self) -> Option<TableView> {
        match self.table {
            Some(t) => Some(t.view()),
            None => None,
        }
    }
}

impl Database {
    pub closed spec fn wf(&self) -> bool {
        match self.table {
            Some(t) => t.wf(),
            None => true,
        }
    }

    /// An empty store: no table exists until the first load.
    pub fn new() -> (r: Database)
        ensures
            r.wf(),
            r@ is None,
    {
        Database { table: None }
    }

    /// Whether a load has created the table.
    pub fn has_table(&self) -> (r: bool)
        ensures
            r == (self@ is Some),
    {
        self.table.is_some()
    }
}

/// What a load leaves behind and what it reports, given the store before it
/// and the source text.
pub open spec fn load_spec(db: Option<TableView>, text: Seq<u8>) -> (Result<usize, EtlError>, Option<TableView>) {
    let recs = records(text);
    if recs.len() == 0 {
        (Err(EtlError::MissingHeader), db)
    } else if !widths_agree(recs) {
        (Err(width_error(recs)), db)
    } else {
        let new_rows = recs.drop_first();
        match db {
            None => (Ok((recs.len() - 1) as usize), Some(TableView { columns: recs[0], rows: new_rows })),
            Some(t) => if t.columns == recs[0] {
                (Ok((recs.len() - 1) as usize), Some(TableView { columns: t.columns, rows: t.rows + new_rows }))
            } else {
                (Err(EtlError::SchemaMismatch), db)
            },
        }
    }
}

/// Loading the same well-formed text twice stores its data rows twice: the
/// load does not deduplicate.
pub proof fn lemma_load_twice_duplicates(db: Option<TableView>, text: Seq<u8>)
    requires
        records(text).len() > 0,
        widths_agree(records(text)),
        db is Some ==> db->Some_0.columns == records(text)[0],
    ensures
        ({
            let once = load_spec(db, text);
            let twice = load_spec(once.1, text);
            let new_rows = records(text).drop_first();
            let old_rows = match db {
                Some(t) => t.rows,
                None => Seq::empty(),
            };
            &&& once.0 is Ok
            &&& twice.0 is Ok
            &&& twice.1 == Some(
                TableView { columns: records(text)[0], rows: old_rows + new_rows + new_rows },
            )
        }),
{
    let new_rows = records(text).drop_first();
    if db is None {
        assert(Seq::<Seq<Seq<u8>>>::empty() + new_rows =~= new_rows);
    }
}

/// Byte-wise equality of two values.
fn bytes_eq(a: &[u8], b: &[u8]) -> (r: bool)
    ensures
        r == (a@ == b@),
{
    if a.len() != b.len() {
        return false;
    }
    let mut i: usize = 0;
    while i < a.len()
        invariant
            i <= a.len(),
            a.len() == b.len(),
            forall|k: int| 0 <= k < i ==> a@[k] == b@[k],
        decreases a.len() - i,
    {
        if a[i] != b[i] {
            return false;
        }
        i = i + 1;
    }
    assert(a@ =~= b@);
    true
}

/// Field-wise equality of two rows.
fn fields_eq(a: &Vec<Vec<u8>>, b: &Vec<Vec<u8>>) -> (r: bool)
    ensures
        r == (a.deep_view() == b.deep_view()),
{
    if a.len() != b.len() {
        assert(a.deep_view().len() != b.deep_view().len());
        return false;
    }
    let mut i: usize = 0;
    while i < a.len()
        invariant
            i <= a.len(),
            a.len() == b.len(),
            forall|k: int| 0 <= k < i ==> a.deep_view()[k] == b.deep_view()[k],
        decreases a.len() - i,
    {
        assert(a.deep_view()[i as int] =~= a[i as int]@);
        assert(b.deep_view()[i as int] =~= b[i as int]@);
        if !bytes_eq(a[i].as_slice(), b[i].as_slice()) {
            return false;
        }
        i = i + 1;
    }
    assert(a.deep_view() =~= b.deep_view());
    true
}

/// Parses `text` and appends its data rows to the table, creating the table
/// from the header if none exists. Rows are appended as they are: loading the
/// same text twice stores its rows twice.
pub fn load(db: &mut Database, text: &[u8]) -> (r: Result<usize, EtlError>)
    requires
        old(db).wf(),
    ensures
        final(db).wf(),
        (r, final(db)@) == load_spec(old(db)@, text@),
{
    let parsed = parse_delimited(text);
    let d = match parsed {
        Err(e) => {
            return Err(e);
        },
        Ok(d) => d,
    };
    let ghost recs = records(text@);
    let taken = db.table.take();
    match taken {
        None => {
            let n = d.rows.len();
            proof {
                assert(d.rows.deep_view().len() == n);
                assert forall|i: int| 0 <= i < d.rows.len() implies #[trigger] d.rows[i].len() == d.header.len() by {
                    assert(d.rows.deep_view() == recs.drop_first());
                    assert(recs.drop_first()[i] == recs[i + 1]);
                    assert(d.rows.deep_view()[i].len() == d.rows[i].len());
                    assert(d.header.deep_view().len() == d.header.len());
                }
            }
            db.table = Some(Table { columns: d.header, rows: d.rows });
            Ok(n)
        },
        Some(t) => {
            if !fields_eq(&t.columns, &d.header) {
                db.table = Some(t);
                return Err(EtlError::SchemaMismatch);
            }
            let mut t = t;
            let mut rows = d.rows;
            let n = rows.len();
            let ghost old_rows = t.rows.deep_view();
            let ghost added = rows.deep_view();
            proof {
                assert forall|i: int| 0 <= i < rows.len() implies #[trigger] rows[i].len() == t.columns.len() by {
                    assert(added == recs.drop_first());
                    assert(recs.drop_first()[i] == recs[i + 1]);
                    assert(added[i].len() == rows[i].len());
                    assert(added.len() == rows.len());
                    assert(recs[i + 1].len() == recs[0].len());
                    assert(t.columns.deep_view() == recs[0]);
                    assert(t.columns.deep_view().len() == t.columns.len());
                }
            }
            t.rows.append(&mut rows);
            proof {
                assert(t.rows.deep_view() =~= old_rows + added);
            }
            db.table = Some(t);
            Ok(n)
        },
    }
}

/// `c` is the first column named `name`.
pub open spec fn is_first_index(cols: Seq<Seq<u8>>, name: Seq<u8>, c: int) -> bool {
    &&& 0 <= c < cols.len()
    &&& cols[c] == name
    &&& forall|k: int| 0 <= k < c ==> #[trigger] cols[k] != name
}

pub open spec fn has_column(cols: Seq<Seq<u8>>, name: Seq<u8>) -> bool {
    exists|c: int| 0 <= c < cols.len() && #[trigger] cols[c] == name
}

/// The rows after every row whose value in column `c` is `matching` has that
/// value replaced by `new_value`.
pub open spec fn updated_rows(
    rows: Seq<Seq<Seq<u8>>>,
    c: int,
    matching: Seq<u8>,
    new_value: Seq<u8>,
) -> Seq<Seq<Seq<u8>>> {
    rows.map_values(
        |row: Seq<Seq<u8>>|
            if row[c] == matching {
                row.update(c, new_value)
            } else {
                row
            },
    )
}

/// How many rows hold `matching` in column `c`.
pub open spec fn count_matching(rows: Seq<Seq<Seq<u8>>>, c: int, matching: Seq<u8>) -> nat
    decreases rows.len(),
{
    if rows.len() == 0 {
        0
    } else {
        count_matching(rows.drop_last(), c, matching) + if rows.last()[c] == matching {
            1nat
        } else {
            0nat
        }
    }
}

/// The rows that do not hold `matching` in column `c`, in their order.
pub open spec fn rows_without(rows: Seq<Seq<Seq<u8>>>, c: int, matching: Seq<u8>) -> Seq<Seq<Seq<u8>>>
    decreases rows.len(),
{
    if rows.len() == 0 {
        seq![]
    } else {
        let prev = rows_without(rows.drop_last(), c, matching);
        if rows.last()[c] == matching {
            prev
        } else {
            prev.push(rows.last())
        }
    }
}

/// The first column named `name`, where there is one.
pub open spec fn first_column(cols: Seq<Seq<u8>>, name: Seq<u8>) -> int {
    choose|c: int| is_first_index(cols, name, c)
}

/// What a create reports and leaves behind.
pub open spec fn create_spec(db: Option<TableView>, values: Seq<Seq<u8>>) -> (Result<usize, EtlError>, Option<TableView>) {
    match db {
        None => (Err(EtlError::NoSuchTable), db),
        Some(t) => if values.len() != t.columns.len() {
            (Err(EtlError::ValueCount { expected: t.columns.len() as usize, found: values.len() as usize }), db)
        } else {
            (Ok(t.rows.len() as usize), Some(TableView { columns: t.columns, rows: t.rows.push(values) }))
        },
    }
}

/// What a read of at most `limit` rows reports.
pub open spec fn read_spec(db: Option<TableView>, limit: usize) -> Result<Seq<Seq<Seq<u8>>>, EtlError> {
    match db {
        None => Err(EtlError::NoSuchTable),
        Some(t) => Ok(t.rows.take(if limit < t.rows.len() { limit as int } else { t.rows.len() as int })),
    }
}

/// What an update reports and leaves behind.
pub open spec fn update_spec(
    db: Option<TableView>,
    column: Seq<u8>,
    matching: Seq<u8>,
    new_value: Seq<u8>,
) -> (Result<usize, EtlError>, Option<TableView>) {
    match db {
        None => (Err(EtlError::NoSuchTable), db),
        Some(t) => if !has_column(t.columns, column) {
            (Err(EtlError::NoSuchColumn), db)
        } else {
            let c = first_column(t.columns, column);
            (
                Ok(count_matching(t.rows, c, matching) as usize),
                Some(TableView { columns: t.columns, rows: updated_rows(t.rows, c, matching, new_value) }),
            )
        },
    }
}

/// What a delete reports and leaves behind.
pub open spec fn delete_spec(db: Option<TableView>, column: Seq<u8>, matching: Seq<u8>) -> (Result<usize, EtlError>, Option<TableView>) {
    match db {
        None => (Err(EtlError::NoSuchTable), db),
        Some(t) => if !has_column(t.columns, column) {
            (Err(EtlError::NoSuchColumn), db)
        } else {
            let c = first_column(t.columns, column);
            (
                Ok(count_matching(t.rows, c, matching) as usize),
                Some(TableView { columns: t.columns, rows: rows_without(t.rows, c, matching) }),
            )
        },
    }
}

/// Before any load has created the table, each of the four queries fails
/// with a storage error and leaves the store without a table; on a store with
/// a table, each succeeds given a row that fits its columns and a column that
/// it has.
pub proof fn lemma_queries_need_a_table(
    t: TableView,
    values: Seq<Seq<u8>>,
    limit: usize,
    column: Seq<u8>,
    matching: Seq<u8>,
    new_value: Seq<u8>,
)
    ensures
        create_spec(None, values).0 is Err,
        kind_of(create_spec(None, values).0->Err_0) == ErrorKind::Storage,
        create_spec(None, values).1 is None,
        read_spec(None, limit) is Err,
        kind_of(read_spec(None, limit)->Err_0) == ErrorKind::Storage,
        update_spec(None, column, matching, new_value).0 is Err,
        kind_of(update_spec(None, column, matching, new_value).0->Err_0) == ErrorKind::Storage,
        update_spec(None, column, matching, new_value).1 is None,
        delete_spec(None, column, matching).0 is Err,
        kind_of(delete_spec(None, column, matching).0->Err_0) == ErrorKind::Storage,
        delete_spec(None, column, matching).1 is None,
        values.len() == t.columns.len() ==> create_spec(Some(t), values).0 is Ok,
        read_spec(Some(t), limit) is Ok,
        has_column(t.columns, column) ==> update_spec(Some(t), column, matching, new_value).0 is Ok,
        has_column(t.columns, column) ==> delete_spec(Some(t), column, matching).0 is Ok,
{
}

fn copy_row(row: &Vec<Vec<u8>>) -> (r: Vec<Vec<u8>>)
    ensures
        r.deep_view() == row.deep_view(),
        r.len() == row.len(),
{
    let mut out: Vec<Vec<u8>> = Vec::new();
    let mut i: usize = 0;
    while i < row.len()
        invariant
            i <= row.len(),
            out.len() == i,
            forall|k: int| 0 <= k < i ==> #[trigger] out[k]@ == row[k]@,
        decreases row.len() - i,
    {
        out.push(vstd::slice::slice_to_vec(row[i].as_slice()));
        i = i + 1;
    }
    assert(out.deep_view() =~= row.deep_view()) by {
        assert forall|k: int| 0 <= k < i implies out.deep_view()[k] == row.deep_view()[k] by {
            assert(out.deep_view()[k] =~= out[k]@);
            assert(row.deep_view()[k] =~= row[k]@);
        }
    }
    out
}

fn find_column(cols: &Vec<Vec<u8>>, name: &[u8]) -> (r: Option<usize>)
    ensures
        match r {
            Some(c) => is_first_index(cols.deep_view(), name@, c as int),
            None => !has_column(cols.deep_view(), name@),
        },
{
    let ghost cv = cols.deep_view();
    let mut i: usize = 0;
    while i < cols.len()
        invariant
            i <= cols.len(),
            cv == cols.deep_view(),
            forall|k: int| 0 <= k < i ==> #[trigger] cv[k] != name@,
        decreases cols.len() - i,
    {
        assert(cv[i as int] =~= cols[i as int]@);
        if bytes_eq(cols[i].as_slice(), name) {
            return Some(i);
        }
        i = i + 1;
    }
    None
}

/// Appends one row of values to the table and reports its index.
pub fn query_create(db: &mut Database, values: Vec<Vec<u8>>) -> (r: Result<usize, EtlError>)
    requires
        old(db).wf(),
    ensures
        final(db).wf(),
        (r, final(db)@) == create_spec(old(db)@, values.deep_view()),
{
    let taken = db.table.take();
    match taken {
        None => Err(EtlError::NoSuchTable),
        Some(t) => {
            let mut t = t;
            if values.len() != t.columns.len() {
                let expected = t.columns.len();
                db.table = Some(t);
                return Err(EtlError::ValueCount { expected, found: values.len() });
            }
            let n = t.rows.len();
            let ghost before = t.rows.deep_view();
            let ghost added = values.deep_view();
            t.rows.push(values);
            proof {
                assert(t.rows.deep_view() =~= before.push(added));
            }
            db.table = Some(t);
            Ok(n)
        },
    }
}

/// The first `limit` rows of the table, or all of them if it has fewer.
pub fn query_read(db: &Database, limit: usize) -> (r: Result<Vec<Vec<Vec<u8>>>, EtlError>)
    ensures
        match r {
            Ok(rows) => read_spec(db@, limit) == Ok::<Seq<Seq<Seq<u8>>>, EtlError>(rows.deep_view()),
            Err(e) => read_spec(db@, limit) == Err::<Seq<Seq<Seq<u8>>>, EtlError>(e),
        },
{
    match &db.table {
        None => Err(EtlError::NoSuchTable),
        Some(t) => {
            let n = if limit < t.rows.len() {
                limit
            } else {
                t.rows.len()
            };
            let ghost rows = t.rows.deep_view();
            let mut out: Vec<Vec<Vec<u8>>> = Vec::new();
            let mut i: usize = 0;
            while i < n
                invariant
                    i <= n,
                    n <= t.rows.len(),
                    rows == t.rows.deep_view(),
                    out.deep_view() == rows.take(i as int),
                decreases n - i,
            {
                let row = copy_row(&t.rows[i]);
                let ghost before = out.deep_view();
                out.push(row);
                proof {
                    assert(out.deep_view() =~= before.push(rows[i as int]));
                    assert(rows.take(i + 1) =~= rows.take(i as int).push(rows[i as int]));
                }
                i = i + 1;
            }
            Ok(out)
        },
    }
}

/// Sets column `column` to `new_value` in every row that holds `matching`
/// there, and reports how many rows that was; zero matches is no error.
pub fn query_update(db: &mut Database, column: &[u8], matching: &[u8], new_value: &[u8]) -> (r: Result<
    usize,
    EtlError,
>)
    requires
        old(db).wf(),
    ensures
        final(db).wf(),
        (r, final(db)@) == update_spec(old(db)@, column@, matching@, new_value@),
{
    let taken = db.table.take();
    match taken {
        None => Err(EtlError::NoSuchTable),
        Some(t) => {
            let mut t = t;
            let c = match find_column(&t.columns, column) {
                None => {
                    db.table = Some(t);
                    return Err(EtlError::NoSuchColumn);
                },
                Some(c) => c,
            };
            let ghost rows = t.rows.deep_view();
            let mut out: Vec<Vec<Vec<u8>>> = Vec::new();
            let mut count: usize = 0;
            let mut i: usize = 0;
            proof {
                assert(rows.take(0) =~= Seq::<Seq<Seq<u8>>>::empty());
                assert(updated_rows(rows.take(0), c as int, matching@, new_value@) =~= out.deep_view());
            }
            while i < t.rows.len()
                invariant
                    i <= t.rows.len(),
                    t.wf(),
                    c < t.columns.len(),
                    rows == t.rows.deep_view(),
                    count <= i,
                    count == count_matching(rows.take(i as int), c as int, matching@),
                    out.deep_view() == updated_rows(rows.take(i as int), c as int, matching@, new_value@),
                    forall|k: int| 0 <= k < out.len() ==> #[trigger] out[k].len() == t.columns.len(),
                decreases t.rows.len() - i,
            {
                let mut row = copy_row(&t.rows[i]);
                let ghost row_view = rows[i as int];
                assert(row_view[c as int] =~= t.rows[i as int][c as int]@);
                let hit = bytes_eq(t.rows[i][c].as_slice(), matching);
                if hit {
                    let ghost before_row = row.deep_view();
                    let cell = vstd::slice::slice_to_vec(new_value);
                    assert(cell.deep_view() =~= new_value@);
                    row.set(c, cell);
                    assert(row.deep_view() =~= before_row.update(c as int, new_value@));
                    count = count + 1;
                }
                let ghost before = out.deep_view();
                out.push(row);
                proof {
                    let f = |rw: Seq<Seq<u8>>|
                        if rw[c as int] == matching@ {
                            rw.update(c as int, new_value@)
                        } else {
                            rw
                        };
                    assert(rows.take(i + 1).drop_last() =~= rows.take(i as int));
                    assert(out.deep_view() =~= before.push(f(row_view)));
                    assert(updated_rows(rows.take(i + 1), c as int, matching@, new_value@)
                        =~= updated_rows(rows.take(i as int), c as int, matching@, new_value@).push(f(row_view)));
                }
                i = i + 1;
            }
            proof {
                assert(rows.take(i as int) =~= rows);
                assert forall|c2: int| is_first_index(t.columns.deep_view(), column@, c2) implies c2 == c by {
                    if c2 < c {
                        assert(t.columns.deep_view()[c2] != column@);
                    } else if c < c2 {
                        assert(t.columns.deep_view()[c as int] != column@);
                    }
                }
                let ghost chosen = first_column(t.columns.deep_view(), column@);
                assert(is_first_index(t.columns.deep_view(), column@, chosen));
            }
            t.rows = out;
            db.table = Some(t);
            Ok(count)
        },
    }
}

/// Removes every row that holds `matching` in column `column`, keeping the
/// others in order, and reports how many were removed; zero is no error.
pub fn query_delete(db: &mut Database, column: &[u8], matching: &[u8]) -> (r: Result<usize, EtlError>)
    requires
        old(db).wf(),
    ensures
        final(db).wf(),
        (r, final(db)@) == delete_spec(old(db)@, column@, matching@),
{
    let taken = db.table.take();
    match taken {
        None => Err(EtlError::NoSuchTable),
        Some(t) => {
            let mut t = t;
            let c = match find_column(&t.columns, column) {
                None => {
                    db.table = Some(t);
                    return Err(EtlError::NoSuchColumn);
                },
                Some(c) => c,
            };
            let ghost rows = t.rows.deep_view();
            let mut out: Vec<Vec<Vec<u8>>> = Vec::new();
            let mut count: usize = 0;
            let mut i: usize = 0;
            proof {
                assert(rows.take(0) =~= Seq::<Seq<Seq<u8>>>::empty());
                assert(out.deep_view() =~= Seq::<Seq<Seq<u8>>>::empty());
            }
            while i < t.rows.len()
                invariant
                    i <= t.rows.len(),
                    t.wf(),
                    c < t.columns.len(),
                    rows == t.rows.deep_view(),
                    count <= i,
                    count == count_matching(rows.take(i as int), c as int, matching@),
                    out.deep_view() == rows_without(rows.take(i as int), c as int, matching@),
                    forall|k: int| 0 <= k < out.len() ==> #[trigger] out[k].len() == t.columns.len(),
                decreases t.rows.len() - i,
            {
                let ghost row_view = rows[i as int];
                assert(t.rows[i as int].len() == t.columns.len());
                assert(row_view[c as int] =~= t.rows[i as int][c as int]@);
                proof {
                    assert(rows.take(i + 1).drop_last() =~= rows.take(i as int));
                    assert(rows.take(i + 1).last() == row_view);
                }
                if bytes_eq(t.rows[i][c].as_slice(), matching) {
                    count = count + 1;
                } else {
                    let row = copy_row(&t.rows[i]);
                    let ghost before = out.deep_view();
                    out.push(row);
                    proof {
                        assert(out.deep_view() =~= before.push(row_view));
                    }
                }
                i = i + 1;
            }
            proof {
                assert(rows.take(i as int) =~= rows);
                assert forall|c2: int| is_first_index(t.columns.deep_view(), column@, c2) implies c2 == c by {
                    if c2 < c {
                        assert(t.columns.deep_view()[c2] != column@);
                    } else if c < c2 {
                        assert(t.columns.deep_view()[c as int] != column@);
                    }
                }
                let ghost chosen = first_column(t.columns.deep_view(), column@);
                assert(is_first_index(t.columns.deep_view(), column@, chosen));
            }
            t.rows = out;
            db.table = Some(t);
            Ok(count)
        },
    }
}

/// The fields of one record joined by commas.
pub open spec fn join_fields(fields: Seq<Seq<u8>>) -> Seq<u8>
    decreases fields.len(),
{
    if fields.len() == 0 {
        seq![]
    } else if fields.len() == 1 {
        fields[0]
    } else {
        join_fields(fields.drop_last()).push(COMMA) + fields.last()
    }
}

/// Records as delimited text, one line each, every line ending in a newline.
pub open spec fn render_records(recs: Seq<Seq<Seq<u8>>>) -> Seq<u8>
    decreases recs.len(),
{
    if recs.len() == 0 {
        seq![]
    } else {
        render_records(recs.drop_last()) + join_fields(recs.last()).push(NEWLINE)
    }
}

fn append_record(out: &mut Vec<u8>, fields: &Vec<Vec<u8>>)
    ensures
        final(out)@ == old(out)@ + join_fields(fields.deep_view()).push(NEWLINE),
{
    let ghost start = out@;
    let ghost fv = fields.deep_view();
    let mut j: usize = 0;
    proof {
        assert(fv.take(0) =~= Seq::<Seq<u8>>::empty());
        assert(out@ =~= start + join_fields(fv.take(0)));
    }
    while j < fields.len()
        invariant
            j <= fields.len(),
            fv == fields.deep_view(),
            out@ == start + join_fields(fv.take(j as int)),
        decreases fields.len() - j,
    {
        let ghost before = out@;
        if j > 0 {
            out.push(COMMA);
        }
        let ghost mid = out@;
        let mut cell = vstd::slice::slice_to_vec(fields[j].as_slice());
        proof {
            assert(cell@ =~= fv[j as int]);
        }
        out.append(&mut cell);
        proof {
            let t1 = fv.take(j + 1);
            assert(t1.drop_last() =~= fv.take(j as int));
            assert(t1.last() == fv[j as int]);
            if j == 0 {
                assert(out@ =~= start + join_fields(t1));
            } else {
                assert(mid == before.push(COMMA));
                assert(out@ =~= start + (join_fields(fv.take(j as int)).push(COMMA) + fv[j as int]));
            }
        }
        j = j + 1;
    }
    proof {
        assert(fv.take(j as int) =~= fv);
    }
    out.push(NEWLINE);
    proof {
        assert(out@ =~= start + join_fields(fv).push(NEWLINE));
    }
}

/// The table as delimited text: the header line, then one line per row.
pub fn render(db: &Database) -> (r: Option<Vec<u8>>)
    ensures
        match db@ {
            None => r is None,
            Some(t) => r is Some && r->Some_0@ == render_records(seq![t.columns] + t.rows),
        },
{
    match &db.table {
        None => None,
        Some(t) => {
            let ghost all = seq![t.columns.deep_view()] + t.rows.deep_view();
            let mut out: Vec<u8> = Vec::new();
            append_record(&mut out, &t.columns);
            proof {
                assert(all.take(1).drop_last() =~= Seq::<Seq<Seq<u8>>>::empty());
                assert(all.take(1).last() == t.columns.deep_view());
                assert(render_records(all.take(1).drop_last()) =~= Seq::<u8>::empty());
                assert(out@ =~= render_records(all.take(1)));
            }
            let mut i: usize = 0;
            while i < t.rows.len()
                invariant
                    i <= t.rows.len(),
                    all == seq![t.columns.deep_view()] + t.rows.deep_view(),
                    out@ == render_records(all.take(i + 1)),
                decreases t.rows.len() - i,
            {
                append_record(&mut out, &t.rows[i]);
                proof {
                    assert(all.take(i + 2).drop_last() =~= all.take(i + 1));
                    assert(all.take(i + 2).last() == t.rows.deep_view()[i as int]);
                }
                i = i + 1;
            }
            proof {
                assert(all.take(i + 1) =~= all);
            }
            Some(out)
        },
    }
}

} // verus!
