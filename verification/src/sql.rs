//! Text of the statements that are run against a collection's table.
//!
//! A table has the columns `chunk_id INTEGER PRIMARY KEY AUTOINCREMENT`,
//! `text TEXT` and `metadata TEXT`. Values are always bound as parameters, in
//! the order of the `?` marks; only the table's name is part of the text,
//! and the name holds the collection's id in digits (see
//! [`crate::naming`]), never as it is.
use crate::naming::{lemma_table_names_distinct, table_name, table_name_of};
use vstd::prelude::*;
use vstd::string::*;

verus! {

/// Statement that creates the table of `collection` unless it exists.
pub open spec fn create_table_of(collection: Seq<char>) -> Seq<char> {
    "CREATE TABLE IF NOT EXISTS "@ + table_name_of(collection)
        + " (chunk_id INTEGER PRIMARY KEY AUTOINCREMENT, text TEXT, metadata TEXT)"@
}

/// Statement that inserts a row under an id that the table assigns.
pub open spec fn insert_assigned_of(collection: Seq<char>) -> Seq<char> {
    "INSERT INTO "@ + table_name_of(collection)
        + " (text, metadata) VALUES (?, ?) RETURNING chunk_id"@
}

/// Statement that inserts a row under a given id, replacing the row that
/// holds the id already.
pub open spec fn insert_explicit_of(collection: Seq<char>) -> Seq<char> {
    "INSERT OR REPLACE INTO "@ + table_name_of(collection)
        + " (chunk_id, text, metadata) VALUES (?, ?, ?) RETURNING chunk_id"@
}

/// Statement that inserts a row: under a given id where `explicit` holds,
/// under an assigned one where it does not.
pub open spec fn insert_row_of(collection: Seq<char>, explicit: bool) -> Seq<char> {
    if explicit {
        insert_explicit_of(collection)
    } else {
        insert_assigned_of(collection)
    }
}

/// Statement that reads the text and the metadata of one row by its id.
pub open spec fn select_row_of(collection: Seq<char>) -> Seq<char> {
    "SELECT text, metadata FROM "@ + table_name_of(collection) + " WHERE chunk_id = ?"@
}

/// Statement that removes the table of `collection` if it exists.
pub open spec fn drop_table_of(collection: Seq<char>) -> Seq<char> {
    "DROP TABLE IF EXISTS "@ + table_name_of(collection)
}

/// Statement that creates the table of `collection` unless it exists.
pub fn create_table_statement(collection: &str) -> (statement: String)
    ensures
        statement@ == create_table_of(collection@),
{
    let table = table_name(collection);
    String::from_str("CREATE TABLE IF NOT EXISTS ").concat(table.as_str()).concat(
        " (chunk_id INTEGER PRIMARY KEY AUTOINCREMENT, text TEXT, metadata TEXT)",
    )
}

/// Statement that inserts one row and returns its id. With `explicit` the
/// parameters are the id, the text and the metadata, and a row that holds the
/// id already is replaced; without it they are the text and the metadata, and
/// the table assigns the id.
pub fn insert_row_statement(collection: &str, explicit: bool) -> (statement: String)
    ensures
        statement@ == insert_row_of(collection@, explicit),
{
    let table = table_name(collection);
    if explicit {
        String::from_str("INSERT OR REPLACE INTO ").concat(table.as_str()).concat(
            " (chunk_id, text, metadata) VALUES (?, ?, ?) RETURNING chunk_id",
        )
    } else {
        String::from_str("INSERT INTO ").concat(table.as_str()).concat(
            " (text, metadata) VALUES (?, ?) RETURNING chunk_id",
        )
    }
}

/// Statement that reads the text and the metadata of the row whose id is the
/// one parameter.
pub fn select_row_statement(collection: &str) -> (statement: String)
    ensures
        statement@ == select_row_of(collection@),
{
    let table = table_name(collection);
    String::from_str("SELECT text, metadata FROM ").concat(table.as_str()).concat(
        " WHERE chunk_id = ?",
    )
}

/// Statement that removes the table of `collection` if it exists.
pub fn drop_table_statement(collection: &str) -> (statement: String)
    ensures
        statement@ == drop_table_of(collection@),
{
    let table = table_name(collection);
    String::from_str("DROP TABLE IF EXISTS ").concat(table.as_str())
}

/// A text between the same two texts is told by the whole.
proof fn lemma_between(before: Seq<char>, x: Seq<char>, y: Seq<char>, after: Seq<char>)
    requires
        before + x + after == before + y + after,
    ensures
        x == y,
{
    let whole_x = before + x + after;
    let whole_y = before + y + after;
    assert(whole_x.len() == before.len() + x.len() + after.len());
    assert(whole_y.len() == before.len() + y.len() + after.len());
    assert(x =~= whole_x.subrange(before.len() as int, (before.len() + x.len()) as int));
    assert(y =~= whole_y.subrange(before.len() as int, (before.len() + y.len()) as int));
}

/// No statement reaches the table of another collection: the statements of
/// two collections are the same text only if the collections are the same.
pub proof fn lemma_statements_distinct(a: Seq<char>, b: Seq<char>, explicit: bool)
    requires
        a != b,
    ensures
        create_table_of(a) != create_table_of(b),
        insert_row_of(a, explicit) != insert_row_of(b, explicit),
        select_row_of(a) != select_row_of(b),
        drop_table_of(a) != drop_table_of(b),
{
    let x = table_name_of(a);
    let y = table_name_of(b);
    let none = Seq::<char>::empty();
    if x == y {
        lemma_table_names_distinct(a, b);
    }
    if create_table_of(a) == create_table_of(b) {
        lemma_between(
            "CREATE TABLE IF NOT EXISTS "@,
            x,
            y,
            " (chunk_id INTEGER PRIMARY KEY AUTOINCREMENT, text TEXT, metadata TEXT)"@,
        );
    }
    if insert_row_of(a, explicit) == insert_row_of(b, explicit) {
        if explicit {
            lemma_between(
                "INSERT OR REPLACE INTO "@,
                x,
                y,
                " (chunk_id, text, metadata) VALUES (?, ?, ?) RETURNING chunk_id"@,
            );
        } else {
            lemma_between(
                "INSERT INTO "@,
                x,
                y,
                " (text, metadata) VALUES (?, ?) RETURNING chunk_id"@,
            );
        }
    }
    if select_row_of(a) == select_row_of(b) {
        lemma_between("SELECT text, metadata FROM "@, x, y, " WHERE chunk_id = ?"@);
    }
    if drop_table_of(a) == drop_table_of(b) {
        assert("DROP TABLE IF EXISTS "@ + x =~= "DROP TABLE IF EXISTS "@ + x + none);
        assert("DROP TABLE IF EXISTS "@ + y =~= "DROP TABLE IF EXISTS "@ + y + none);
        lemma_between("DROP TABLE IF EXISTS "@, x, y, none);
    }
}

} // verus!
