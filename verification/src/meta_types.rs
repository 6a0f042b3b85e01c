//! The catalog objects as the engine works with them.

use vstd::prelude::*;
use std::collections::BTreeMap;
use std::sync::Arc;
use crate::datavalues::DataSchema;

verus! {

/// A point in time: seconds since the start of 1970 in UTC, and the
/// nanoseconds since the last whole second.
#[derive(Debug, Clone, Copy, PartialEq, Eq)]
pub struct Timestamp {
    pub secs: i64,
    pub nanos: u32,
}

#[derive(Debug, Clone, PartialEq, Eq)]
pub struct TableNameIdent {
    pub tenant: String,
    pub db_name: String,
    pub table_name: String,
}

#[derive(Debug, Clone, Copy, PartialEq, Eq)]
pub struct TableIdent {
    pub table_id: u64,
    pub seq: u64,
}

#[derive(Debug, Clone, PartialEq, Eq)]
pub struct TableMeta {
    pub schema: Arc<DataSchema>,
    pub engine: String,
    pub engine_options: BTreeMap<String, String>,
    pub options: BTreeMap<String, String>,
    pub order_keys: Option<Vec<u8>>,
    pub created_on: Timestamp,
    pub updated_on: Timestamp,
    pub comment: String,
}

#[derive(Debug, Clone, PartialEq, Eq)]
pub struct TableInfo {
    pub ident: TableIdent,
    pub desc: String,
    pub name: String,
    pub meta: TableMeta,
}

} // verus!
