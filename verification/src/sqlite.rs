//! Trusted declarations for the SQLite library the package index is read
//! through.

use vstd::prelude::*;

verus! {

#[verifier::external_type_specification]
#[verifier::external_body]
pub struct ExSqliteConnection(rusqlite::Connection);

/// Relies on `rusqlite::Connection::open`: opens the SQLite database at the
/// given path; success depends on the machine's state. A failure is reported
/// as its message text.
#[verifier::external_body]
pub(crate) fn open_database(path: &str) -> (r: Result<rusqlite::Connection, String>) {
    rusqlite::Connection::open(path).map_err(|e| format!("{}", e))
}

/// Relies on `rusqlite::Connection::prepare`, `Statement::query_map` and row
/// decoding into `String`: runs the query with one text parameter and
/// returns the first column of every row; what comes back depends on the
/// database file. A failure is reported as its message text.
#[verifier::external_body]
pub(crate) fn query_strings(conn: &rusqlite::Connection, sql: &str, param: &str) -> (r: Result<
    Vec<String>,
    String,
>) {
    let mut stmt = conn.prepare(sql).map_err(|e| format!("{}", e))?;
    let rows = stmt.query_map([param], |row| row.get::<usize, String>(0)).map_err(
        |e| format!("{}", e),
    )?;
    let mut out: Vec<String> = Vec::new();
    for row in rows {
        out.push(row.map_err(|e| format!("{}", e))?);
    }
    Ok(out)
}

} // verus!
