//! The table of data names, which is set once.

use crate::schema::ast::variables_view;
use crate::schema::value::names_distinct;
use vstd::prelude::*;

verus! {

/// A table from names to names that can be set once. It is handed to those
/// who need it; there is no table shared behind their backs.
#[derive(Debug, PartialEq, Eq)]
pub struct DataMap {
    pub entries: Option<Vec<(String, String)>>,
}

impl DataMap {
    /// Whether the table, where it is set, is a mapping: no name occurs
    /// twice.
    pub open spec fn wf(&self) -> bool {
        match self.entries {
            Some(entries) => names_distinct(variables_view(entries@)),
            None => true,
        }
    }

    /// A table that has not been set.
    pub fn new() -> (table: DataMap)
        ensures
            table.entries is None,
            table.wf(),
    {
        DataMap { entries: None }
    }
}

/// The message for a table that was set before.
pub open spec fn already_set() -> Seq<char> {
    "DATA_MAP 已经被设置过了"@
}

/// Sets the table, once: a table that has been set stays as it is, and the
/// attempt is an error.
pub fn inject_map(table: &mut DataMap, map: Vec<(String, String)>) -> (r: Result<(), String>)
    ensures
        old(table).entries is None ==> r is Ok && final(table).entries == Some(map),
        old(table).entries is Some ==> r is Err && r->Err_0@ == already_set() && *final(table)
            == *old(table),
{
    if table.entries.is_some() {
        return Err("DATA_MAP 已经被设置过了".to_owned());
    }
    table.entries = Some(map);
    Ok(())
}

} // verus!
