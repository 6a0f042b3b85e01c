//! The conversions between the catalog objects and their persisted form.
//! This is the key point about compatibility: whenever anything here
//! changes, `VER` changes with it.

use vstd::prelude::*;
use std::str::FromStr;
use std::sync::Arc;
use crate::datavalues::duplicate_bytes;
use crate::datavalues::duplicate_fields;
use crate::datavalues::DataSchema;
use crate::meta_types::TableIdent;
use crate::meta_types::TableInfo;
use crate::meta_types::TableMeta;
use crate::meta_types::TableNameIdent;
use crate::meta_types::Timestamp;

verus! {

/// The version of the persisted format that this library writes.
pub const VER: u64 = 1;

/// The oldest version of the persisted format that this library reads.
pub const OLDEST_COMPATIBLE_VER: u64 = 1;

/// A persisted message cannot be read, or a value cannot be persisted.
#[derive(Debug, Clone, PartialEq, Eq)]
pub struct Incompatible {
    pub reason: String,
}

/// An object that has a persisted form `PB`.
pub trait FromToProto<PB>: Sized {
    fn from_pb(p: PB) -> Result<Self, Incompatible>;

    fn to_pb(&self) -> Result<PB, Incompatible>;
}

/// The point in time that `chrono` reads out of a text, as seconds and
/// nanoseconds; `None` for a text that it does not accept.
pub uninterp spec fn utc_instant_of_text(text: Seq<char>) -> Option<(i64, u32)>;

/// The text that `chrono` writes for a point in time given as seconds and
/// nanoseconds; `None` where the two numbers are no point in time for it.
pub uninterp spec fn text_of_utc_instant(secs: i64, nanos: u32) -> Option<Seq<char>>;

/// Calls `chrono::DateTime::<Utc>::from_str` and hands on what it read as
/// the plain numbers that `timestamp` and `timestamp_subsec_nanos` give.
/// The contract only names the result: what is read is a function of the
/// text alone.
#[verifier::external_body]
fn utc_from_str(text: &str) -> (instant: Option<(i64, u32)>)
    ensures
        instant == utc_instant_of_text(text@),
{
    match chrono::DateTime::<chrono::Utc>::from_str(text) {
        Ok(at) => Some((at.timestamp(), at.timestamp_subsec_nanos())),
        Err(_) => None,
    }
}

/// Builds the point in time with `chrono::DateTime::from_timestamp` and
/// calls `to_string` on it. The contract only names the result: the text
/// is a function of the two numbers alone.
#[verifier::external_body]
fn utc_to_string(secs: i64, nanos: u32) -> (text: Option<String>)
    ensures
        match text {
            Some(written) => text_of_utc_instant(secs, nanos) == Some(written@),
            None => text_of_utc_instant(secs, nanos) is None,
        },
{
    match chrono::DateTime::from_timestamp(secs, nanos) {
        Some(at) => Some(at.to_string()),
        None => None,
    }
}

/// This library reads messages of version `ver`.
pub open spec fn compatible(ver: u64) -> bool {
    OLDEST_COMPATIBLE_VER <= ver <= VER
}

/// Checks the version of a message.
pub fn check_ver(ver: u64) -> (r: Result<(), Incompatible>)
    ensures
        r is Ok <==> compatible(ver),
        r is Err ==> r->Err_0.reason@ == "the version of the message is not compatible"@,
{
    if ver > VER || ver < OLDEST_COMPATIBLE_VER {
        return Err(
            Incompatible { reason: "the version of the message is not compatible".to_owned() },
        );
    }
    Ok(())
}

/// What reading a time gives: the point in time that `chrono` reads out of
/// the text, or the reason why there is none.
pub open spec fn timestamp_from_pb(text: Seq<char>) -> Result<Timestamp, Seq<char>> {
    match utc_instant_of_text(text) {
        Some(instant) => Ok(Timestamp { secs: instant.0, nanos: instant.1 }),
        None => Err("DateTime error: the text is no point in time"@),
    }
}

/// What writing a time gives: the text that `chrono` writes for it, or the
/// reason why there is none.
pub open spec fn timestamp_to_pb(at: Timestamp) -> Result<Seq<char>, Seq<char>> {
    match text_of_utc_instant(at.secs, at.nanos) {
        Some(text) => Ok(text),
        None => Err("DateTime error: the numbers are no point in time"@),
    }
}

impl FromToProto<String> for Timestamp {
    fn from_pb(p: String) -> (r: Result<Timestamp, Incompatible>)
        ensures
            match r {
                Ok(at) => timestamp_from_pb(p@) == Ok::<Timestamp, Seq<char>>(at),
                Err(e) => timestamp_from_pb(p@) == Err::<Timestamp, Seq<char>>(e.reason@),
            },
    {
        Self::from_instant(utc_from_str(p.as_str()))
    }

    fn to_pb(&self) -> (r: Result<String, Incompatible>)
        ensures
            match r {
                Ok(text) => timestamp_to_pb(*self) == Ok::<Seq<char>, Seq<char>>(text@),
                Err(e) => timestamp_to_pb(*self) == Err::<Seq<char>, Seq<char>>(e.reason@),
            },
    {
        Self::written(utc_to_string(self.secs, self.nanos))
    }
}

impl Timestamp {
    /// Makes the time out of what was read from a text: `None` stands for a
    /// text that holds no time, and becomes the error that says so.
    pub fn from_instant(instant: Option<(i64, u32)>) -> (r: Result<Timestamp, Incompatible>)
        ensures
            match instant {
                Some(pair) => r == Ok::<Timestamp, Incompatible>(
                    Timestamp { secs: pair.0, nanos: pair.1 },
                ),
                None => r is Err && r->Err_0.reason@
                    == "DateTime error: the text is no point in time"@,
            },
    {
        match instant {
            Some(pair) => Ok(Timestamp { secs: pair.0, nanos: pair.1 }),
            None => Err(
                Incompatible { reason: "DateTime error: the text is no point in time".to_owned() },
            ),
        }
    }

    /// Takes the text that was written for a time: `None` stands for
    /// numbers that are no time, and becomes the error that says so.
    pub fn written(text: Option<String>) -> (r: Result<String, Incompatible>)
        ensures
            match text {
                Some(written) => r == Ok::<String, Incompatible>(written),
                None => r is Err && r->Err_0.reason@
                    == "DateTime error: the numbers are no point in time"@,
            },
    {
        match text {
            Some(written) => Ok(written),
            None => Err(
                Incompatible {
                    reason: "DateTime error: the numbers are no point in time".to_owned(),
                },
            ),
        }
    }
}

/// What reading a schema gives.
pub open spec fn schema_from_pb(p: crate::pb::DataSchema) -> Result<DataSchema, Seq<char>> {
    if !compatible(p.ver) {
        Err("the version of the message is not compatible"@)
    } else {
        Ok(DataSchema { fields: p.fields })
    }
}

impl FromToProto<crate::pb::DataSchema> for DataSchema {
    fn from_pb(p: crate::pb::DataSchema) -> (r: Result<DataSchema, Incompatible>)
        ensures
            match r {
                Ok(v) => schema_from_pb(p) == Ok::<DataSchema, Seq<char>>(v),
                Err(e) => schema_from_pb(p) == Err::<DataSchema, Seq<char>>(e.reason@),
            },
    {
        match check_ver(p.ver) {
            Err(e) => {
                return Err(e);
            },
            Ok(_) => {},
        }
        Ok(DataSchema { fields: p.fields })
    }

    fn to_pb(&self) -> (r: Result<crate::pb::DataSchema, Incompatible>)
        ensures
            r is Ok,
            r->Ok_0.ver == VER,
            r->Ok_0.fields@ == self.fields@,
    {
        Ok(crate::pb::DataSchema { ver: VER, fields: duplicate_fields(&self.fields) })
    }
}

/// What reading a table's identity gives.
pub open spec fn table_ident_from_pb(p: crate::pb::TableIdent) -> Result<TableIdent, Seq<char>> {
    if !compatible(p.ver) {
        Err("the version of the message is not compatible"@)
    } else {
        Ok(TableIdent { table_id: p.table_id, seq: p.seq })
    }
}

impl FromToProto<crate::pb::TableIdent> for TableIdent {
    fn from_pb(p: crate::pb::TableIdent) -> (r: Result<TableIdent, Incompatible>)
        ensures
            match r {
                Ok(v) => table_ident_from_pb(p) == Ok::<TableIdent, Seq<char>>(v),
                Err(e) => table_ident_from_pb(p) == Err::<TableIdent, Seq<char>>(e.reason@),
            },
    {
        match check_ver(p.ver) {
            Err(e) => {
                return Err(e);
            },
            Ok(_) => {},
        }
        let v = TableIdent { table_id: p.table_id, seq: p.seq };
        Ok(v)
    }

    fn to_pb(&self) -> (r: Result<crate::pb::TableIdent, Incompatible>)
        ensures
            r == Ok::<crate::pb::TableIdent, Incompatible>(
                crate::pb::TableIdent { ver: VER, table_id: self.table_id, seq: self.seq },
            ),
    {
        let p = crate::pb::TableIdent { ver: VER, table_id: self.table_id, seq: self.seq };
        Ok(p)
    }
}

/// What reading a table's name gives.
pub open spec fn table_name_ident_from_pb(p: crate::pb::TableNameIdent) -> Result<
    TableNameIdent,
    Seq<char>,
> {
    if !compatible(p.ver) {
        Err("the version of the message is not compatible"@)
    } else {
        Ok(TableNameIdent { tenant: p.tenant, db_name: p.db_name, table_name: p.table_name })
    }
}

impl FromToProto<crate::pb::TableNameIdent> for TableNameIdent {
    fn from_pb(p: crate::pb::TableNameIdent) -> (r: Result<TableNameIdent, Incompatible>)
        ensures
            match r {
                Ok(v) => table_name_ident_from_pb(p) == Ok::<TableNameIdent, Seq<char>>(v),
                Err(e) => table_name_ident_from_pb(p) == Err::<TableNameIdent, Seq<char>>(
                    e.reason@,
                ),
            },
    {
        match check_ver(p.ver) {
            Err(e) => {
                return Err(e);
            },
            Ok(_) => {},
        }
        let v = TableNameIdent { tenant: p.tenant, db_name: p.db_name, table_name: p.table_name };
        Ok(v)
    }

    fn to_pb(&self) -> (r: Result<crate::pb::TableNameIdent, Incompatible>)
        ensures
            r == Ok::<crate::pb::TableNameIdent, Incompatible>(
                crate::pb::TableNameIdent {
                    ver: VER,
                    tenant: self.tenant,
                    db_name: self.db_name,
                    table_name: self.table_name,
                },
            ),
    {
        let p = crate::pb::TableNameIdent {
            ver: VER,
            tenant: self.tenant.clone(),
            db_name: self.db_name.clone(),
            table_name: self.table_name.clone(),
        };
        Ok(p)
    }
}

/// What reading a table's description gives. The version is checked
/// first, then the schema must be there and readable, then the two times
/// must be readable, the time of creation first. The first check that
/// fails gives the reason.
pub open spec fn table_meta_from_pb(p: crate::pb::TableMeta) -> Result<TableMeta, Seq<char>> {
    if !compatible(p.ver) {
        Err("the version of the message is not compatible"@)
    } else if p.schema is None {
        Err("TableMeta.schema can not be None"@)
    } else if schema_from_pb(p.schema->Some_0) is Err {
        Err(schema_from_pb(p.schema->Some_0)->Err_0)
    } else if timestamp_from_pb(p.created_on@) is Err {
        Err(timestamp_from_pb(p.created_on@)->Err_0)
    } else if timestamp_from_pb(p.updated_on@) is Err {
        Err(timestamp_from_pb(p.updated_on@)->Err_0)
    } else {
        Ok(
            TableMeta {
                schema: Arc::new(schema_from_pb(p.schema->Some_0)->Ok_0),
                engine: p.engine,
                engine_options: p.engine_options,
                options: p.options,
                order_keys: p.order_keys,
                created_on: timestamp_from_pb(p.created_on@)->Ok_0,
                updated_on: timestamp_from_pb(p.updated_on@)->Ok_0,
                comment: p.comment,
            },
        )
    }
}

/// `p` is what writing `meta` gives: the current version, every field as
/// it is, and each time as the text that `chrono` writes for it.
pub open spec fn table_meta_written_as(meta: TableMeta, p: crate::pb::TableMeta) -> bool {
    &&& p.ver == VER
    &&& p.schema is Some
    &&& p.schema->Some_0.ver == VER
    &&& p.schema->Some_0.fields@ == meta.schema.fields@
    &&& p.engine == meta.engine
    &&& p.engine_options@ == meta.engine_options@
    &&& p.options@ == meta.options@
    &&& match meta.order_keys {
        Some(keys) => p.order_keys is Some && p.order_keys->Some_0@ == keys@,
        None => p.order_keys is None,
    }
    &&& timestamp_to_pb(meta.created_on) == Ok::<Seq<char>, Seq<char>>(p.created_on@)
    &&& timestamp_to_pb(meta.updated_on) == Ok::<Seq<char>, Seq<char>>(p.updated_on@)
    &&& p.comment == meta.comment
}

/// Why `meta` cannot be written, if it cannot: one of its times is none
/// that `chrono` can write, the time of creation first.
pub open spec fn table_meta_unwritable(meta: TableMeta) -> Option<Seq<char>> {
    if timestamp_to_pb(meta.created_on) is Err {
        Some(timestamp_to_pb(meta.created_on)->Err_0)
    } else if timestamp_to_pb(meta.updated_on) is Err {
        Some(timestamp_to_pb(meta.updated_on)->Err_0)
    } else {
        None
    }
}

impl FromToProto<crate::pb::TableMeta> for TableMeta {
    fn from_pb(p: crate::pb::TableMeta) -> (r: Result<TableMeta, Incompatible>)
        ensures
            match r {
                Ok(v) => table_meta_from_pb(p) == Ok::<TableMeta, Seq<char>>(v),
                Err(e) => table_meta_from_pb(p) == Err::<TableMeta, Seq<char>>(e.reason@),
            },
    {
        match check_ver(p.ver) {
            Err(e) => {
                return Err(e);
            },
            Ok(_) => {},
        }
        let schema = match p.schema {
            None => {
                return Err(Incompatible { reason: "TableMeta.schema can not be None".to_owned() });
            },
            Some(x) => x,
        };
        let schema = match DataSchema::from_pb(schema) {
            Err(e) => {
                return Err(e);
            },
            Ok(x) => x,
        };
        let created_on = match Timestamp::from_pb(p.created_on) {
            Err(e) => {
                return Err(e);
            },
            Ok(x) => x,
        };
        let updated_on = match Timestamp::from_pb(p.updated_on) {
            Err(e) => {
                return Err(e);
            },
            Ok(x) => x,
        };
        let v = TableMeta {
            schema: Arc::new(schema),
            engine: p.engine,
            engine_options: p.engine_options,
            options: p.options,
            order_keys: p.order_keys,
            created_on,
            updated_on,
            comment: p.comment,
        };
        Ok(v)
    }

    fn to_pb(&self) -> (r: Result<crate::pb::TableMeta, Incompatible>)
        ensures
            match r {
                Ok(p) => table_meta_unwritable(*self) is None && table_meta_written_as(*self, p),
                Err(e) => table_meta_unwritable(*self) == Some(e.reason@),
            },
    {
        let schema = match self.schema.to_pb() {
            Err(e) => {
                return Err(e);
            },
            Ok(x) => x,
        };
        let created_on = match self.created_on.to_pb() {
            Err(e) => {
                return Err(e);
            },
            Ok(x) => x,
        };
        let updated_on = match self.updated_on.to_pb() {
            Err(e) => {
                return Err(e);
            },
            Ok(x) => x,
        };
        let p = crate::pb::TableMeta {
            ver: VER,
            schema: Some(schema),
            engine: self.engine.clone(),
            engine_options: self.engine_options.clone(),
            options: self.options.clone(),
            order_keys: match &self.order_keys {
                Some(keys) => Some(duplicate_bytes(keys)),
                None => None,
            },
            created_on,
            updated_on,
            comment: self.comment.clone(),
        };
        Ok(p)
    }
}

/// What reading a table gives. The version is checked first, then the
/// identity must be there and readable, then the description must be
/// there and readable. The first check that fails gives the reason.
pub open spec fn table_info_from_pb(p: crate::pb::TableInfo) -> Result<TableInfo, Seq<char>> {
    if !compatible(p.ver) {
        Err("the version of the message is not compatible"@)
    } else if p.ident is None {
        Err("TableInfo.ident can not be None"@)
    } else if table_ident_from_pb(p.ident->Some_0) is Err {
        Err(table_ident_from_pb(p.ident->Some_0)->Err_0)
    } else if p.meta is None {
        Err("TableInfo.meta can not be None"@)
    } else if table_meta_from_pb(p.meta->Some_0) is Err {
        Err(table_meta_from_pb(p.meta->Some_0)->Err_0)
    } else {
        Ok(
            TableInfo {
                ident: table_ident_from_pb(p.ident->Some_0)->Ok_0,
                desc: p.desc,
                name: p.name,
                meta: table_meta_from_pb(p.meta->Some_0)->Ok_0,
            },
        )
    }
}

impl FromToProto<crate::pb::TableInfo> for TableInfo {
    fn from_pb(p: crate::pb::TableInfo) -> (r: Result<TableInfo, Incompatible>)
        ensures
            match r {
                Ok(v) => table_info_from_pb(p) == Ok::<TableInfo, Seq<char>>(v),
                Err(e) => table_info_from_pb(p) == Err::<TableInfo, Seq<char>>(e.reason@),
            },
    {
        match check_ver(p.ver) {
            Err(e) => {
                return Err(e);
            },
            Ok(_) => {},
        }
        let ident = match p.ident {
            None => {
                return Err(Incompatible { reason: "TableInfo.ident can not be None".to_owned() });
            },
            Some(x) => x,
        };
        let ident = match TableIdent::from_pb(ident) {
            Err(e) => {
                return Err(e);
            },
            Ok(x) => x,
        };
        let meta = match p.meta {
            None => {
                return Err(Incompatible { reason: "TableInfo.meta can not be None".to_owned() });
            },
            Some(x) => x,
        };
        let meta = match TableMeta::from_pb(meta) {
            Err(e) => {
                return Err(e);
            },
            Ok(x) => x,
        };
        let v = TableInfo { ident, desc: p.desc, name: p.name, meta };
        Ok(v)
    }

    fn to_pb(&self) -> (r: Result<crate::pb::TableInfo, Incompatible>)
        ensures
            match r {
                Ok(p) => {
                    &&& table_meta_unwritable(self.meta) is None
                    &&& p.ver == VER
                    &&& p.ident == Some(
                        crate::pb::TableIdent {
                            ver: VER,
                            table_id: self.ident.table_id,
                            seq: self.ident.seq,
                        },
                    )
                    &&& p.desc == self.desc
                    &&& p.name == self.name
                    &&& p.meta is Some && table_meta_written_as(self.meta, p.meta->Some_0)
                },
                Err(e) => table_meta_unwritable(self.meta) == Some(e.reason@),
            },
    {
        let ident = match self.ident.to_pb() {
            Err(e) => {
                return Err(e);
            },
            Ok(x) => x,
        };
        let meta = match self.meta.to_pb() {
            Err(e) => {
                return Err(e);
            },
            Ok(x) => x,
        };
        let p = crate::pb::TableInfo {
            ver: VER,
            ident: Some(ident),
            desc: self.desc.clone(),
            name: self.name.clone(),
            meta: Some(meta),
        };
        Ok(p)
    }
}

} // verus!
