//! Validation of the table-access entry points that a host offers a plugin.
use vstd::prelude::*;

verus! {

/// A table entry point the host should have offered is missing.
#[derive(Clone, Copy, Debug, PartialEq, Eq)]
pub enum TableError {
    /// The named entry of the table operations is missing.
    BadVtable(&'static str),
}

/// Which table entry points the host offered.
#[derive(Clone, Copy, Debug, PartialEq, Eq, Structural)]
pub struct TableEntryPoints {
    /// The host offers table access at all.
    pub tables: bool,
    pub reader_ext: bool,
    pub writer_ext: bool,
    pub fields_ext: bool,
    pub get_owner_last_error: bool,
    pub list_tables: bool,
    pub get_table: bool,
    pub add_table: bool,
}

/// Whether table access can be set up: `Ok(false)` where the host offers
/// none, `Ok(true)` where every entry point is there, and otherwise the
/// first missing one, in the order listed.
pub fn check_table_entry_points(p: &TableEntryPoints) -> (r: Result<bool, TableError>)
    ensures
        !p.tables ==> r == Ok::<bool, TableError>(false),
        p.tables && !p.reader_ext ==> r == Err::<bool, TableError>(
            TableError::BadVtable("reader_ext"),
        ),
        p.tables && p.reader_ext && !p.writer_ext ==> r == Err::<bool, TableError>(
            TableError::BadVtable("writer_ext"),
        ),
        p.tables && p.reader_ext && p.writer_ext && !p.fields_ext ==> r == Err::<bool, TableError>(
            TableError::BadVtable("fields_ext"),
        ),
        p.tables && p.reader_ext && p.writer_ext && p.fields_ext && !p.get_owner_last_error ==> r
            == Err::<bool, TableError>(TableError::BadVtable("get_owner_last_error")),
        p.tables && p.reader_ext && p.writer_ext && p.fields_ext && p.get_owner_last_error
            && !p.list_tables ==> r == Err::<bool, TableError>(TableError::BadVtable("list_tables")),
        p.tables && p.reader_ext && p.writer_ext && p.fields_ext && p.get_owner_last_error
            && p.list_tables && !p.get_table ==> r == Err::<bool, TableError>(
            TableError::BadVtable("get_table"),
        ),
        p.tables && p.reader_ext && p.writer_ext && p.fields_ext && p.get_owner_last_error
            && p.list_tables && p.get_table && !p.add_table ==> r == Err::<bool, TableError>(
            TableError::BadVtable("add_table"),
        ),
        p.tables && p.reader_ext && p.writer_ext && p.fields_ext && p.get_owner_last_error
            && p.list_tables && p.get_table && p.add_table ==> r == Ok::<bool, TableError>(true),
{
    if !p.tables {
        return Ok(false);
    }
    if !p.reader_ext {
        return Err(TableError::BadVtable("reader_ext"));
    }
    if !p.writer_ext {
        return Err(TableError::BadVtable("writer_ext"));
    }
    if !p.fields_ext {
        return Err(TableError::BadVtable("fields_ext"));
    }
    if !p.get_owner_last_error {
        return Err(TableError::BadVtable("get_owner_last_error"));
    }
    if !p.list_tables {
        return Err(TableError::BadVtable("list_tables"));
    }
    if !p.get_table {
        return Err(TableError::BadVtable("get_table"));
    }
    if !p.add_table {
        return Err(TableError::BadVtable("add_table"));
    }
    Ok(true)
}

} // verus!
