use vstd::prelude::*;
use crate::date::valid_date;
use rusqlite::Connection;

verus! {

/// A stored to-do item: one row of the task table.
pub struct Task {
    pub id: i64,
    pub name: String,
    pub is_done: bool,
    pub date: String,
}

/// The mathematical image of one row: id, name, completion flag, due date.
pub type Row = (int, Seq<char>, bool, Seq<char>);

impl View for Task {
    type V = Row;

    open spec fn view(&self) -> Row {
        (self.id as int, self.name@, self.is_done, self.date@)
    }
}

impl Clone for Task {
    fn clone(&self) -> (r: Self)
        ensures
            r@ == self@,
    {
        Task { id: self.id, name: self.name.clone(), is_done: self.is_done, date: self.date.clone() }
    }
}

/// Which tasks a listing returns.
#[derive(Clone, Copy, Debug)]
pub enum Filter {
    All,
    Done,
    NotDone,
}

/// What can go wrong while handling one command.
#[derive(Clone, Copy, Debug, PartialEq, Eq, Structural)]
pub enum TaskError {
    /// The backing file could not be opened or its schema not ensured.
    StorageUnavailable,
    /// A store operation failed after a successful open.
    StorageError,
    /// A user-supplied due date is not in the fixed format.
    InvalidDate,
    /// The word after `list` is neither `done` nor `not-done`.
    InvalidFilter,
    /// A command got the wrong number of positional arguments.
    InvalidArgumentCount,
    /// An id argument is not an integer.
    InvalidId,
}

pub open spec fn views_of(v: Seq<Task>) -> Seq<Row> {
    v.map_values(|t: Task| t@)
}

pub open spec fn row_matches(r: Row, f: Filter) -> bool {
    match f {
        Filter::All => true,
        Filter::Done => r.2,
        Filter::NotDone => !r.2,
    }
}

/// The rows a listing keeps, in table order.
pub open spec fn filter_rows(t: Seq<Row>, f: Filter) -> Seq<Row>
    decreases t.len(),
{
    if t.len() == 0 {
        Seq::empty()
    } else {
        let rest = filter_rows(t.drop_last(), f);
        if row_matches(t.last(), f) {
            rest.push(t.last())
        } else {
            rest
        }
    }
}

/// The table after `is_done` is set on every row whose id matches.
pub open spec fn mark_rows(t: Seq<Row>, id: int, done: bool) -> Seq<Row> {
    t.map_values(|r: Row| if r.0 == id { (r.0, r.1, done, r.3) } else { r })
}

/// The table after every row whose id matches is deleted.
pub open spec fn remove_rows(t: Seq<Row>, id: int) -> Seq<Row>
    decreases t.len(),
{
    if t.len() == 0 {
        Seq::empty()
    } else {
        let rest = remove_rows(t.drop_last(), id);
        if t.last().0 == id {
            rest
        } else {
            rest.push(t.last())
        }
    }
}

pub open spec fn distinct_ids(t: Seq<Row>) -> bool {
    forall|i: int, j: int| 0 <= i < j < t.len() ==> t[i].0 != t[j].0
}

pub open spec fn has_id(t: Seq<Row>, id: int) -> bool {
    exists|i: int| 0 <= i < t.len() && #[trigger] t[i].0 == id
}

/// The id every row already present stays under once `nid` is assigned.
pub open spec fn fresh_id(t: Seq<Row>, nid: int) -> bool {
    forall|i: int| 0 <= i < t.len() ==> #[trigger] t[i].0 < nid
}

#[verifier::external_type_specification]
#[verifier::external_body]
pub struct ExConnection(Connection);

#[verifier::external_type_specification]
#[verifier::external_body]
pub struct ExSqlError(rusqlite::Error);

/// The rows of the task table behind a connection, in id order, each as
/// (id, name, is_done, date).
pub uninterp spec fn table_of(conn: Connection) -> Seq<Row>;

/// The connection's task table has exactly the schema this library writes:
/// id INTEGER PRIMARY KEY AUTOINCREMENT, name TEXT NOT NULL, is_done INTEGER
/// DEFAULT 0, date TEXT DEFAULT NULL.
pub uninterp spec fn has_task_schema(conn: Connection) -> bool;

/// The sequence value SQLite keeps for the task table in sqlite_sequence,
/// read as 0 while no row for the table exists.
pub uninterp spec fn high_mark_of(conn: Connection) -> int;

/// The CREATE statement text SQLite records for the task table this library
/// creates (sqlite_master stores it with `IF NOT EXISTS` dropped).
pub open spec fn task_schema_text() -> Seq<char> {
    "CREATE TABLE task (id INTEGER PRIMARY KEY AUTOINCREMENT, name TEXT NOT NULL, is_done INTEGER DEFAULT 0, date TEXT DEFAULT NULL)"@
}

/// What the library's operations need of a connection and keep: the
/// library's schema, a sequence value of at least 0, and no id above it.
/// The schema alone does not give the last two — another tool may rewrite
/// ids or the sequence — so `database_connection` checks them by reading the
/// sequence and the largest id before it hands a connection out.
pub open spec fn is_task_store(conn: Connection) -> bool {
    &&& has_task_schema(conn)
    &&& 0 <= high_mark_of(conn)
    &&& forall|i: int|
        0 <= i < table_of(conn).len() ==> #[trigger] table_of(conn)[i].0 <= high_mark_of(conn)
}

/// A store the library's operations keep well-formed: a task store with
/// distinct ids.
pub open spec fn wf_store(conn: Connection) -> bool {
    &&& is_task_store(conn)
    &&& distinct_ids(table_of(conn))
}

/// Compares a string against a literal.
pub(crate) fn string_eq_lit(s: &String, lit: &str) -> (r: bool)
    ensures
        r == (s@ == lit@),
{
    let owned: String = lit.to_owned();
    *s == owned
}

/// Relies on rusqlite::Connection::open (read-write-create) and
/// Connection::execute running CREATE TABLE IF NOT EXISTS: a pre-existing
/// task table, whatever its schema, is left exactly as it was, and any
/// failure comes back as None. Nothing is claimed here: the schema is
/// checked afterwards, by `schema_text` and its caller.
#[verifier::external_body]
fn open_raw_at(path: &String) -> (r: Option<Connection>) {
    let conn = Connection::open(path.as_str()).ok()?;
    conn.execute(
        "CREATE TABLE IF NOT EXISTS task (id INTEGER PRIMARY KEY AUTOINCREMENT, name TEXT NOT NULL, is_done INTEGER DEFAULT 0, date TEXT DEFAULT NULL)",
        (),
    ).ok()?;
    Some(conn)
}

/// Relies on rusqlite::Connection::query_row reading sqlite_master: the
/// stored CREATE text is the task table's actual schema. When that text is
/// exactly the one this library writes, the id column is an INTEGER PRIMARY
/// KEY, which SQLite keeps unique. No more is claimed: the text says nothing
/// about the sequence value, which is checked separately.
#[verifier::external_body]
fn schema_text(conn: &Connection) -> (r: Option<String>)
    ensures
        r matches Some(s) ==> (s@ == task_schema_text() ==> has_task_schema(*conn) && distinct_ids(
            table_of(*conn),
        )),
{
    conn.query_row(
        "SELECT sql FROM sqlite_master WHERE type = 'table' AND name = 'task'",
        (),
        |row| row.get(0),
    ).ok()
}

/// Relies on rusqlite::Connection::query_row reading sqlite_sequence: the
/// returned value is the sequence SQLite keeps for the task table, with 0
/// standing for an absent row (no id ever assigned there). Anything
/// unreadable comes back as None.
#[verifier::external_body]
fn read_sequence(conn: &Connection) -> (r: Option<i64>)
    ensures
        r matches Some(v) ==> v as int == high_mark_of(*conn),
{
    match conn.query_row(
        "SELECT seq FROM sqlite_sequence WHERE name = 'task'",
        (),
        |row| row.get::<usize, i64>(0),
    ) {
        Ok(v) => Some(v),
        Err(rusqlite::Error::QueryReturnedNoRows) => Some(0),
        Err(_) => None,
    }
}

/// Relies on rusqlite::Connection::query_row computing max(id) over the task
/// table: the result bounds every id the table holds, and NULL means the
/// table is empty.
#[verifier::external_body]
fn read_max_id(conn: &Connection) -> (r: Option<Option<i64>>)
    ensures
        r matches Some(m) ==> (match m {
            Some(v) => forall|i: int|
                0 <= i < table_of(*conn).len() ==> #[trigger] table_of(*conn)[i].0 <= v as int,
            None => table_of(*conn).len() == 0,
        }),
{
    conn.query_row("SELECT max(id) FROM task", (), |row| row.get::<usize, Option<i64>>(0)).ok()
}

/// Relies on rusqlite::Connection::open_in_memory and Connection::execute
/// running CREATE TABLE: a fresh in-memory database holds no rows, has never
/// assigned an id, and gets exactly the schema this library writes.
#[verifier::external_body]
fn open_in_memory() -> (r: Result<Connection, rusqlite::Error>)
    ensures
        r matches Ok(c) ==> table_of(c) == Seq::<Row>::empty() && high_mark_of(c) == 0
            && has_task_schema(c),
{
    let conn = Connection::open_in_memory()?;
    conn.execute(
        "CREATE TABLE IF NOT EXISTS task (id INTEGER PRIMARY KEY AUTOINCREMENT, name TEXT NOT NULL, is_done INTEGER DEFAULT 0, date TEXT DEFAULT NULL)",
        (),
    )?;
    Ok(conn)
}

/// Relies on rusqlite::Connection::execute running INSERT, and on
/// Connection::last_insert_rowid: under this library's schema, one row is
/// appended holding the given name and date with is_done defaulting to 0,
/// AUTOINCREMENT assigns it the id one above the water mark (so at least 1,
/// and above every id the table has ever held), the mark moves to that id,
/// and a failed statement changes nothing. The schema itself never changes.
#[verifier::external_body]
fn exec_insert(conn: &mut Connection, name: &String, date: &String) -> (r: Result<
    i64,
    rusqlite::Error,
>)
    requires
        is_task_store(*old(conn)),
    ensures
        has_task_schema(*final(conn)),
        r matches Ok(nid) ==> 1 <= nid && nid as int == high_mark_of(*old(conn)) + 1
            && high_mark_of(*final(conn)) == nid as int && table_of(*final(conn)) == table_of(
            *old(conn),
        ).push((nid as int, name@, false, date@)),
        r is Err ==> table_of(*final(conn)) == table_of(*old(conn)) && high_mark_of(*final(conn))
            == high_mark_of(*old(conn)),
{
    conn.execute("INSERT INTO task (name, date) VALUES (?1, ?2)", (name, date))?;
    Ok(conn.last_insert_rowid())
}

/// Relies on rusqlite::Connection::execute running UPDATE: every row whose id
/// matches gets the new is_done value, all other columns, rows and the row
/// order stay, a failed statement changes nothing, and neither the water mark
/// nor the schema is touched.
#[verifier::external_body]
fn exec_set_done(conn: &mut Connection, id: i64, done: bool) -> (r: Result<(), rusqlite::Error>)
    requires
        is_task_store(*old(conn)),
    ensures
        has_task_schema(*final(conn)),
        high_mark_of(*final(conn)) == high_mark_of(*old(conn)),
        r is Ok ==> table_of(*final(conn)) == mark_rows(table_of(*old(conn)), id as int, done),
        r is Err ==> table_of(*final(conn)) == table_of(*old(conn)),
{
    conn.execute("UPDATE task SET is_done = ?1 WHERE id = ?2", (done, id))?;
    Ok(())
}

/// Relies on rusqlite::Connection::execute running DELETE: exactly the rows
/// whose id matches disappear, the rest keep their order, a failed statement
/// changes nothing, and neither the water mark nor the schema is touched
/// (SQLite never rewinds an AUTOINCREMENT sequence on delete).
#[verifier::external_body]
fn exec_delete(conn: &mut Connection, id: i64) -> (r: Result<(), rusqlite::Error>)
    requires
        is_task_store(*old(conn)),
    ensures
        has_task_schema(*final(conn)),
        high_mark_of(*final(conn)) == high_mark_of(*old(conn)),
        r is Ok ==> table_of(*final(conn)) == remove_rows(table_of(*old(conn)), id as int),
        r is Err ==> table_of(*final(conn)) == table_of(*old(conn)),
{
    conn.execute("DELETE FROM task WHERE id = ?1", (id,))?;
    Ok(())
}

/// Relies on rusqlite::Connection::prepare and Statement::query_map running
/// SELECT ... ORDER BY id: under this library's schema (ids unique, so the
/// order is total), every row of the task table comes back exactly once, in
/// id order, with its stored name, is_done flag and date.
#[verifier::external_body]
fn query_rows(conn: &Connection) -> (r: Result<Vec<Task>, rusqlite::Error>)
    requires
        is_task_store(*conn),
    ensures
        r matches Ok(v) ==> views_of(v@) == table_of(*conn),
{
    let mut stmt = conn.prepare("SELECT id, name, is_done, date FROM task ORDER BY id")?;
    let rows = stmt.query_map(
        (),
        |row| Ok(Task { id: row.get(0)?, name: row.get(1)?, is_done: row.get(2)?, date: row.get(3)? }),
    )?;
    rows.collect::<Result<Vec<Task>, rusqlite::Error>>()
}

/// Opens (creating if absent) the store at the given file path, ensures the
/// task schema exists, and refuses a file whose task table carries any other
/// schema, a negative sequence value, or an id above the sequence — however
/// the file was produced — so that every connection handed out is
/// well-formed.
pub fn database_connection(path: &String) -> (r: Result<Connection, TaskError>)
    ensures
        r matches Ok(c) ==> wf_store(c),
        r is Err ==> r == Err::<Connection, TaskError>(TaskError::StorageUnavailable),
{
    let conn = match open_raw_at(path) {
        Some(c) => c,
        None => return Err(TaskError::StorageUnavailable),
    };
    let stored = match schema_text(&conn) {
        Some(s) => s,
        None => return Err(TaskError::StorageUnavailable),
    };
    if !string_eq_lit(
        &stored,
        "CREATE TABLE task (id INTEGER PRIMARY KEY AUTOINCREMENT, name TEXT NOT NULL, is_done INTEGER DEFAULT 0, date TEXT DEFAULT NULL)",
    ) {
        return Err(TaskError::StorageUnavailable);
    }
    let seq: i64 = match read_sequence(&conn) {
        Some(v) => v,
        None => return Err(TaskError::StorageUnavailable),
    };
    if seq < 0 {
        return Err(TaskError::StorageUnavailable);
    }
    let largest: Option<i64> = match read_max_id(&conn) {
        Some(m) => m,
        None => return Err(TaskError::StorageUnavailable),
    };
    match largest {
        Some(v) => {
            if v > seq {
                return Err(TaskError::StorageUnavailable);
            }
        },
        None => {},
    }
    Ok(conn)
}

/// Opens a fresh, empty store that lives only as long as the connection.
pub fn memory_connection() -> (r: Result<Connection, TaskError>)
    ensures
        r matches Ok(c) ==> table_of(c) == Seq::<Row>::empty() && high_mark_of(c) == 0 && wf_store(
            c,
        ),
        r is Err ==> r == Err::<Connection, TaskError>(TaskError::StorageUnavailable),
{
    match open_in_memory() {
        Ok(conn) => Ok(conn),
        Err(_) => Err(TaskError::StorageUnavailable),
    }
}

/// Inserts one task, not yet done, under the next store-assigned id — one
/// above the water mark, so never one that any earlier row ever held, even a
/// removed one — and returns that id. The name is stored verbatim, the empty
/// string included: that is the deliberate reading here. The dispatcher
/// passes the argument through unchanged, no error for an empty name exists,
/// and the column's NOT NULL constraint bars only NULL, which a Rust String
/// never is.
pub fn add_task(conn: &mut Connection, name: &String, date: &String) -> (r: Result<i64, TaskError>)
    requires
        valid_date(date@),
        wf_store(*old(conn)),
    ensures
        wf_store(*final(conn)),
        r matches Ok(nid) ==> 1 <= nid && nid as int == high_mark_of(*old(conn)) + 1
            && high_mark_of(*final(conn)) == nid as int && fresh_id(
            table_of(*old(conn)),
            nid as int,
        ) && table_of(*final(conn)) == table_of(*old(conn)).push((nid as int, name@, false, date@)),
        r is Err ==> r == Err::<i64, TaskError>(TaskError::StorageError) && table_of(*final(conn))
            == table_of(*old(conn)) && high_mark_of(*final(conn)) == high_mark_of(*old(conn)),
{
    let ghost pre = table_of(*conn);
    let ghost pre_mark = high_mark_of(*conn);
    match exec_insert(conn, name, date) {
        Ok(nid) => {
            proof {
                assert(fresh_id(pre, nid as int));
                lemma_add_keeps_distinct(pre, name@, date@, nid as int);
                assert forall|i: int| 0 <= i < table_of(*conn).len() implies #[trigger] table_of(
                    *conn,
                )[i].0 <= high_mark_of(*conn) by {
                    if i < pre.len() {
                        assert(pre[i].0 <= pre_mark);
                    }
                }
            }
            Ok(nid)
        },
        Err(_) => Err(TaskError::StorageError),
    }
}

/// Returns the tasks the filter keeps, in table order; the store is not
/// changed.
pub fn list_tasks(conn: &Connection, filter: Filter) -> (r: Result<Vec<Task>, TaskError>)
    requires
        is_task_store(*conn),
    ensures
        r matches Ok(v) ==> views_of(v@) == filter_rows(table_of(*conn), filter),
        r is Err ==> r == Err::<Vec<Task>, TaskError>(TaskError::StorageError),
{
    let rows = match query_rows(conn) {
        Ok(v) => v,
        Err(_) => return Err(TaskError::StorageError),
    };
    let ghost all = views_of(rows@);
    let mut out: Vec<Task> = Vec::new();
    let mut i: usize = 0;
    while i < rows.len()
        invariant
            i <= rows.len(),
            all == views_of(rows@),
            all == table_of(*conn),
            views_of(out@) == filter_rows(all.take(i as int), filter),
        decreases rows.len() - i,
    {
        proof {
            lemma_filter_rows_step(all, filter, i as int);
        }
        let t = &rows[i];
        let keep = match filter {
            Filter::All => true,
            Filter::Done => t.is_done,
            Filter::NotDone => !t.is_done,
        };
        if keep {
            out.push(t.clone());
        }
        i += 1;
    }
    proof {
        assert(all.take(rows@.len() as int) =~= all);
    }
    Ok(out)
}

/// Returns every task; the same listing as `list_tasks` with `Filter::All`.
pub fn list_all_tasks(conn: &Connection) -> (r: Result<Vec<Task>, TaskError>)
    requires
        is_task_store(*conn),
    ensures
        r matches Ok(v) ==> views_of(v@) == table_of(*conn),
        r is Err ==> r == Err::<Vec<Task>, TaskError>(TaskError::StorageError),
{
    proof {
        lemma_filter_rows_all(table_of(*conn));
    }
    list_tasks(conn, Filter::All)
}

/// Marks the task with the given id as done; a missing id is a no-op that
/// still succeeds.
pub fn mark_done(conn: &mut Connection, id: i64) -> (r: Result<(), TaskError>)
    requires
        wf_store(*old(conn)),
    ensures
        wf_store(*final(conn)),
        high_mark_of(*final(conn)) == high_mark_of(*old(conn)),
        r is Ok ==> table_of(*final(conn)) == mark_rows(table_of(*old(conn)), id as int, true),
        r is Err ==> r == Err::<(), TaskError>(TaskError::StorageError) && table_of(*final(conn))
            == table_of(*old(conn)),
{
    set_done(conn, id, true)
}

/// Marks the task with the given id as not done; a missing id is a no-op that
/// still succeeds.
pub fn mark_undone(conn: &mut Connection, id: i64) -> (r: Result<(), TaskError>)
    requires
        wf_store(*old(conn)),
    ensures
        wf_store(*final(conn)),
        high_mark_of(*final(conn)) == high_mark_of(*old(conn)),
        r is Ok ==> table_of(*final(conn)) == mark_rows(table_of(*old(conn)), id as int, false),
        r is Err ==> r == Err::<(), TaskError>(TaskError::StorageError) && table_of(*final(conn))
            == table_of(*old(conn)),
{
    set_done(conn, id, false)
}

fn set_done(conn: &mut Connection, id: i64, done: bool) -> (r: Result<(), TaskError>)
    requires
        wf_store(*old(conn)),
    ensures
        wf_store(*final(conn)),
        high_mark_of(*final(conn)) == high_mark_of(*old(conn)),
        r is Ok ==> table_of(*final(conn)) == mark_rows(table_of(*old(conn)), id as int, done),
        r is Err ==> r == Err::<(), TaskError>(TaskError::StorageError) && table_of(*final(conn))
            == table_of(*old(conn)),
{
    let ghost pre = table_of(*conn);
    let ghost pre_mark = high_mark_of(*conn);
    match exec_set_done(conn, id, done) {
        Ok(_) => {
            proof {
                lemma_mark_keeps_distinct(pre, id as int, done);
                assert forall|i: int| 0 <= i < table_of(*conn).len() implies #[trigger] table_of(
                    *conn,
                )[i].0 <= high_mark_of(*conn) by {
                    assert(table_of(*conn)[i].0 == pre[i].0);
                    assert(pre[i].0 <= pre_mark);
                }
            }
            Ok(())
        },
        Err(_) => Err(TaskError::StorageError),
    }
}

/// Deletes the task with the given id; a missing id is a no-op that still
/// succeeds, and the freed id is never assigned again, since the water mark
/// does not move back.
pub fn remove_task(conn: &mut Connection, id: i64) -> (r: Result<(), TaskError>)
    requires
        wf_store(*old(conn)),
    ensures
        wf_store(*final(conn)),
        high_mark_of(*final(conn)) == high_mark_of(*old(conn)),
        r is Ok ==> table_of(*final(conn)) == remove_rows(table_of(*old(conn)), id as int),
        r is Err ==> r == Err::<(), TaskError>(TaskError::StorageError) && table_of(*final(conn))
            == table_of(*old(conn)),
{
    let ghost pre = table_of(*conn);
    let ghost pre_mark = high_mark_of(*conn);
    match exec_delete(conn, id) {
        Ok(_) => {
            proof {
                lemma_remove_keeps_distinct(pre, id as int);
                lemma_remove_rows_contains(pre, id as int);
                assert forall|i: int| 0 <= i < table_of(*conn).len() implies #[trigger] table_of(
                    *conn,
                )[i].0 <= high_mark_of(*conn) by {
                    let post = table_of(*conn);
                    assert(post.contains(post[i]));
                    assert(pre.contains(post[i]));
                    let k = choose|k: int| 0 <= k < pre.len() && pre[k] == post[i];
                    assert(pre[k].0 <= pre_mark);
                }
            }
            Ok(())
        },
        Err(_) => Err(TaskError::StorageError),
    }
}

/// One step of a listing: keeping the first `i + 1` rows keeps the first `i`
/// and then row `i` exactly when it matches.
pub proof fn lemma_filter_rows_step(t: Seq<Row>, f: Filter, i: int)
    requires
        0 <= i < t.len(),
    ensures
        filter_rows(t.take(i + 1), f) == if row_matches(t[i], f) {
            filter_rows(t.take(i), f).push(t[i])
        } else {
            filter_rows(t.take(i), f)
        },
{
    assert(t.take(i + 1).drop_last() =~= t.take(i));
    assert(t.take(i + 1).last() == t[i]);
}

/// The rows that carry a given id, in table order.
pub open spec fn rows_with_id(t: Seq<Row>, id: int) -> Seq<Row>
    decreases t.len(),
{
    if t.len() == 0 {
        Seq::empty()
    } else {
        let rest = rows_with_id(t.drop_last(), id);
        if t.last().0 == id {
            rest.push(t.last())
        } else {
            rest
        }
    }
}

pub open spec fn ids_of(t: Seq<Row>) -> Set<int> {
    Set::new(|id: int| has_id(t, id))
}

proof fn lemma_rows_with_id_absent(t: Seq<Row>, id: int)
    requires
        forall|i: int| 0 <= i < t.len() ==> #[trigger] t[i].0 != id,
    ensures
        rows_with_id(t, id) == Seq::<Row>::empty(),
    decreases t.len(),
{
    if t.len() > 0 {
        lemma_rows_with_id_absent(t.drop_last(), id);
    }
}

/// A listing keeps exactly the rows of the table that match its filter.
pub proof fn lemma_filter_rows_contains(t: Seq<Row>, f: Filter)
    ensures
        forall|r: Row| #[trigger] filter_rows(t, f).contains(r) <==> t.contains(r) && row_matches(
            r,
            f,
        ),
    decreases t.len(),
{
    broadcast use vstd::seq_lib::lemma_seq_contains_after_push;

    if t.len() > 0 {
        let dl = t.drop_last();
        lemma_filter_rows_contains(dl, f);
        assert(dl.push(t.last()) =~= t);
        assert forall|r: Row| #[trigger] filter_rows(t, f).contains(r) <==> t.contains(r)
            && row_matches(r, f) by {
            assert(dl.push(t.last()).contains(r) <==> dl.contains(r) || r == t.last());
            if row_matches(t.last(), f) {
                assert(filter_rows(t, f) == filter_rows(dl, f).push(t.last()));
                assert(filter_rows(dl, f).push(t.last()).contains(r) <==> filter_rows(
                    dl,
                    f,
                ).contains(r) || r == t.last());
            } else {
                assert(filter_rows(t, f) == filter_rows(dl, f));
            }
        }
    }
}

/// Removal keeps exactly the rows whose id differs.
pub proof fn lemma_remove_rows_contains(t: Seq<Row>, id: int)
    ensures
        forall|r: Row| #[trigger] remove_rows(t, id).contains(r) <==> t.contains(r) && r.0 != id,
    decreases t.len(),
{
    broadcast use vstd::seq_lib::lemma_seq_contains_after_push;

    if t.len() > 0 {
        let dl = t.drop_last();
        lemma_remove_rows_contains(dl, id);
        assert(dl.push(t.last()) =~= t);
        assert forall|r: Row| #[trigger] remove_rows(t, id).contains(r) <==> t.contains(r) && r.0
            != id by {
            assert(dl.push(t.last()).contains(r) <==> dl.contains(r) || r == t.last());
            if t.last().0 == id {
                assert(remove_rows(t, id) == remove_rows(dl, id));
            } else {
                assert(remove_rows(t, id) == remove_rows(dl, id).push(t.last()));
                assert(remove_rows(dl, id).push(t.last()).contains(r) <==> remove_rows(
                    dl,
                    id,
                ).contains(r) || r == t.last());
            }
        }
    }
}

proof fn lemma_remove_rows_absent(t: Seq<Row>, id: int)
    requires
        !has_id(t, id),
    ensures
        remove_rows(t, id) == t,
    decreases t.len(),
{
    if t.len() > 0 {
        assert(forall|i: int| 0 <= i < t.drop_last().len() ==> #[trigger] t.drop_last()[i].0 != id);
        lemma_remove_rows_absent(t.drop_last(), id);
        assert(remove_rows(t, id) =~= t);
    } else {
        assert(remove_rows(t, id) =~= t);
    }
}

proof fn lemma_has_id_contains(t: Seq<Row>, id: int)
    ensures
        has_id(t, id) <==> exists|r: Row| #[trigger] t.contains(r) && r.0 == id,
{
    if has_id(t, id) {
        let i = choose|i: int| 0 <= i < t.len() && #[trigger] t[i].0 == id;
        assert(t.contains(t[i]) && t[i].0 == id);
    }
    if exists|r: Row| #[trigger] t.contains(r) && r.0 == id {
        let r = choose|r: Row| #[trigger] t.contains(r) && r.0 == id;
        let i = choose|i: int| 0 <= i < t.len() && t[i] == r;
        assert(0 <= i < t.len() && t[i].0 == id);
    }
}

/// After a successful add, the complete listing is the old rows followed by
/// the new task, and exactly one row carries the new id: the added one, with
/// the given name and date and not yet done.
pub proof fn lemma_add_then_list_all(pre: Seq<Row>, name: Seq<char>, date: Seq<char>, nid: int)
    requires
        fresh_id(pre, nid),
    ensures
        filter_rows(pre.push((nid, name, false, date)), Filter::All) == pre.push(
            (nid, name, false, date),
        ),
        rows_with_id(pre.push((nid, name, false, date)), nid) == seq![(nid, name, false, date)],
{
    let row = (nid, name, false, date);
    let post = pre.push(row);
    lemma_filter_rows_all(post);
    assert(post.drop_last() =~= pre);
    assert(forall|i: int| 0 <= i < pre.len() ==> #[trigger] pre[i].0 != nid);
    lemma_rows_with_id_absent(pre, nid);
    assert(rows_with_id(post, nid) =~= seq![row]);
}

/// After the completion flag of an id is set, the listing for that state
/// holds the id whenever the table holds it, and the listing for the opposite
/// state never does; setting the flag back swaps the two, since undone is the
/// same operation with the other flag.
pub proof fn lemma_mark_then_list(t: Seq<Row>, id: int, done: bool)
    ensures
        has_id(t, id) ==> has_id(
            filter_rows(
                mark_rows(t, id, done),
                if done {
                    Filter::Done
                } else {
                    Filter::NotDone
                },
            ),
            id,
        ),
        !has_id(
            filter_rows(
                mark_rows(t, id, done),
                if done {
                    Filter::NotDone
                } else {
                    Filter::Done
                },
            ),
            id,
        ),
{
    let post = mark_rows(t, id, done);
    let same = if done {
        Filter::Done
    } else {
        Filter::NotDone
    };
    let other = if done {
        Filter::NotDone
    } else {
        Filter::Done
    };
    lemma_filter_rows_contains(post, same);
    lemma_filter_rows_contains(post, other);
    lemma_has_id_contains(post, id);
    lemma_has_id_contains(filter_rows(post, same), id);
    lemma_has_id_contains(filter_rows(post, other), id);
    if has_id(t, id) {
        let i = choose|i: int| 0 <= i < t.len() && #[trigger] t[i].0 == id;
        assert(post[i] == (t[i].0, t[i].1, done, t[i].3));
        assert(post.contains(post[i]) && post[i].0 == id);
        assert(row_matches(post[i], same));
        assert(filter_rows(post, same).contains(post[i]));
    }
    assert forall|r: Row| #[trigger] post.contains(r) && r.0 == id implies !row_matches(
        r,
        other,
    ) by {
        let i = choose|i: int| 0 <= i < post.len() && post[i] == r;
        assert(t[i].0 == id);
    }
}

/// A removed id never shows in any later listing, every row with another id
/// survives removal untouched, and removing an id the table does not hold
/// changes nothing.
pub proof fn lemma_remove_then_list(t: Seq<Row>, id: int, f: Filter)
    ensures
        !has_id(filter_rows(remove_rows(t, id), f), id),
        forall|r: Row|
            r.0 != id ==> (#[trigger] remove_rows(t, id).contains(r) <==> t.contains(r)),
        !has_id(t, id) ==> remove_rows(t, id) == t,
{
    let post = remove_rows(t, id);
    lemma_remove_rows_contains(t, id);
    lemma_filter_rows_contains(post, f);
    lemma_has_id_contains(filter_rows(post, f), id);
    if !has_id(t, id) {
        lemma_remove_rows_absent(t, id);
    }
}

/// Adding under a fresh id keeps the ids of the table distinct, so every
/// state a connection can reach keeps them distinct.
pub proof fn lemma_add_keeps_distinct(
    pre: Seq<Row>,
    name: Seq<char>,
    date: Seq<char>,
    nid: int,
)
    requires
        distinct_ids(pre),
        fresh_id(pre, nid),
    ensures
        distinct_ids(pre.push((nid, name, false, date))),
{
    let post = pre.push((nid, name, false, date));
    assert forall|i: int, j: int| 0 <= i < j < post.len() implies post[i].0 != post[j].0 by {
        if j == pre.len() {
            assert(pre[i].0 < nid);
        }
    }
}

/// Setting a completion flag keeps the ids of the table distinct.
pub proof fn lemma_mark_keeps_distinct(t: Seq<Row>, id: int, done: bool)
    requires
        distinct_ids(t),
    ensures
        distinct_ids(mark_rows(t, id, done)),
{
    let post = mark_rows(t, id, done);
    assert forall|i: int, j: int| 0 <= i < j < post.len() implies post[i].0 != post[j].0 by {
        assert(post[i].0 == t[i].0 && post[j].0 == t[j].0);
    }
}

/// Removal keeps the ids of the table distinct.
pub proof fn lemma_remove_keeps_distinct(t: Seq<Row>, id: int)
    requires
        distinct_ids(t),
    ensures
        distinct_ids(remove_rows(t, id)),
    decreases t.len(),
{
    if t.len() > 0 {
        let dl = t.drop_last();
        assert(distinct_ids(dl));
        lemma_remove_keeps_distinct(dl, id);
        lemma_remove_rows_contains(dl, id);
        if t.last().0 != id {
            let rest = remove_rows(dl, id);
            let post = rest.push(t.last());
            assert forall|i: int, j: int| 0 <= i < j < post.len() implies post[i].0
                != post[j].0 by {
                if j == rest.len() {
                    assert(rest.contains(rest[i]));
                    assert(dl.contains(rest[i]));
                    let k = choose|k: int| 0 <= k < dl.len() && dl[k] == rest[i];
                    assert(t[k].0 != t.last().0);
                }
            }
        }
    }
}

/// The done and the not-done listings split the full listing: together their
/// ids are exactly the ids of the whole table, and no id stands in both.
pub proof fn lemma_list_partition(t: Seq<Row>)
    requires
        distinct_ids(t),
    ensures
        ids_of(filter_rows(t, Filter::Done)).union(ids_of(filter_rows(t, Filter::NotDone)))
            == ids_of(filter_rows(t, Filter::All)),
        ids_of(filter_rows(t, Filter::Done)).intersect(ids_of(filter_rows(t, Filter::NotDone)))
            == Set::<int>::empty(),
{
    let done_part = filter_rows(t, Filter::Done);
    let undone_part = filter_rows(t, Filter::NotDone);
    lemma_filter_rows_all(t);
    lemma_filter_rows_contains(t, Filter::Done);
    lemma_filter_rows_contains(t, Filter::NotDone);
    assert forall|id: int|
        #[trigger] ids_of(t).contains(id) implies ids_of(done_part).contains(id) || ids_of(
        undone_part,
    ).contains(id) by {
        let i = choose|i: int| 0 <= i < t.len() && #[trigger] t[i].0 == id;
        assert(t.contains(t[i]));
        if t[i].2 {
            assert(done_part.contains(t[i]));
            lemma_has_id_contains(done_part, id);
        } else {
            assert(undone_part.contains(t[i]));
            lemma_has_id_contains(undone_part, id);
        }
    }
    assert forall|id: int|
        #[trigger] ids_of(done_part).contains(id) || #[trigger] ids_of(undone_part).contains(
        id,
    ) implies ids_of(t).contains(id) by {
        if ids_of(done_part).contains(id) {
            lemma_has_id_contains(done_part, id);
            let r = choose|r: Row| #[trigger] done_part.contains(r) && r.0 == id;
            lemma_has_id_contains(t, id);
            assert(t.contains(r));
        } else {
            lemma_has_id_contains(undone_part, id);
            let r = choose|r: Row| #[trigger] undone_part.contains(r) && r.0 == id;
            lemma_has_id_contains(t, id);
            assert(t.contains(r));
        }
    }
    assert forall|id: int| !(ids_of(done_part).contains(id) && ids_of(undone_part).contains(
        id,
    )) by {
        if ids_of(done_part).contains(id) && ids_of(undone_part).contains(id) {
            lemma_has_id_contains(done_part, id);
            lemma_has_id_contains(undone_part, id);
            let r1 = choose|r: Row| #[trigger] done_part.contains(r) && r.0 == id;
            let r2 = choose|r: Row| #[trigger] undone_part.contains(r) && r.0 == id;
            assert(r1.2 && !r2.2);
            let i = choose|i: int| 0 <= i < t.len() && t[i] == r1;
            let j = choose|j: int| 0 <= j < t.len() && t[j] == r2;
            assert(t[i].0 == t[j].0 && i != j);
            assert(false);
        }
    }
    assert(ids_of(done_part).union(ids_of(undone_part)) =~= ids_of(filter_rows(t, Filter::All)));
    assert(ids_of(done_part).intersect(ids_of(undone_part)) =~= Set::<int>::empty());
}

/// Listing with `Filter::All` keeps every row.
pub proof fn lemma_filter_rows_all(t: Seq<Row>)
    ensures
        filter_rows(t, Filter::All) == t,
    decreases t.len(),
{
    if t.len() > 0 {
        lemma_filter_rows_all(t.drop_last());
        assert(filter_rows(t, Filter::All) =~= t);
    } else {
        assert(filter_rows(t, Filter::All) =~= t);
    }
}

} // verus!
