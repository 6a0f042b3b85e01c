//! The persisted form of the catalog objects. Every message carries the
//! version of the format it was written in.

use vstd::prelude::*;
use std::collections::BTreeMap;
use crate::datavalues::DataField;

verus! {

#[derive(Debug, Clone, PartialEq, Eq)]
pub struct DataSchema {
    pub ver: u64,
    pub fields: Vec<DataField>,
}

#[derive(Debug, Clone, PartialEq, Eq)]
pub struct TableNameIdent {
    pub ver: u64,
    pub tenant: String,
    pub db_name: String,
    pub table_name: String,
}

#[derive(Debug, Clone, Copy, PartialEq, Eq)]
pub struct TableIdent {
    pub ver: u64,
    pub table_id: u64,
    pub seq: u64,
}

#[derive(Debug, Clone, PartialEq, Eq)]
pub struct TableMeta {
    pub ver: u64,
    pub schema: Option<DataSchema>,
    pub engine: String,
    pub engine_options: BTreeMap<String, String>,
    pub options: BTreeMap<String, String>,
    pub order_keys: Option<Vec<u8>>,
    /// The time of creation, as text.
    pub created_on: String,
    /// The time of the last change, as text.
    pub updated_on: String,
    pub comment: String,
}

#[derive(Debug, Clone, PartialEq, Eq)]
pub struct TableInfo {
    pub ver: u64,
    pub ident: Option<TableIdent>,
    pub desc: String,
    pub name: String,
    pub meta: Option<TableMeta>,
}

} // verus!
