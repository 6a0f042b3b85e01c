use std::collections::BTreeMap;
use std::sync::Arc;

use databend_query::datavalues::duplicate_bytes;
use databend_query::datavalues::duplicate_fields;
use databend_query::datavalues::DataField;
use databend_query::datavalues::DataSchema;
use databend_query::datavalues::DataTypeImpl;
use databend_query::meta_types::TableIdent;
use databend_query::meta_types::TableInfo;
use databend_query::meta_types::TableMeta;
use databend_query::meta_types::TableNameIdent;
use databend_query::meta_types::Timestamp;
use databend_query::pb;
use databend_query::proto_conv::check_ver;
use databend_query::proto_conv::FromToProto;
use databend_query::proto_conv::Incompatible;
use databend_query::proto_conv::OLDEST_COMPATIBLE_VER;
use databend_query::proto_conv::VER;

fn incompatible(reason: &str) -> Incompatible {
    Incompatible { reason: reason.to_string() }
}

fn options(pairs: &[(&str, &str)]) -> BTreeMap<String, String> {
    pairs.iter().map(|(k, v)| (k.to_string(), v.to_string())).collect()
}

fn fields() -> Vec<DataField> {
    vec![
        DataField { name: "id".to_string(), data_type: DataTypeImpl::UInt64, nullable: false },
        DataField { name: "name".to_string(), data_type: DataTypeImpl::String, nullable: true },
    ]
}

fn meta() -> TableMeta {
    TableMeta {
        schema: Arc::new(DataSchema { fields: fields() }),
        engine: "fuse".to_string(),
        engine_options: options(&[("k", "v")]),
        options: options(&[("opt", "1"), ("opt2", "2")]),
        order_keys: Some(vec![1, 2, 3]),
        created_on: Timestamp { secs: 1417176009, nanos: 0 },
        updated_on: Timestamp { secs: 1431648000, nanos: 500_000_000 },
        comment: "a table".to_string(),
    }
}

fn pb_meta() -> pb::TableMeta {
    pb::TableMeta {
        ver: VER,
        schema: Some(pb::DataSchema { ver: VER, fields: fields() }),
        engine: "fuse".to_string(),
        engine_options: options(&[("k", "v")]),
        options: options(&[("opt", "1"), ("opt2", "2")]),
        order_keys: Some(vec![1, 2, 3]),
        created_on: "2014-11-28 12:00:09 UTC".to_string(),
        updated_on: "2015-05-15 00:00:00.500 UTC".to_string(),
        comment: "a table".to_string(),
    }
}

#[test]
fn only_the_known_versions_are_read() {
    assert_eq!(OLDEST_COMPATIBLE_VER, 1);
    assert_eq!(VER, 1);
    assert_eq!(check_ver(1), Ok(()));
    assert_eq!(check_ver(0), Err(incompatible("the version of the message is not compatible")));
    assert_eq!(check_ver(2), Err(incompatible("the version of the message is not compatible")));
    assert!(check_ver(u64::MAX).is_err());
}

#[test]
fn a_time_is_read_from_text() {
    assert_eq!(
        Timestamp::from_pb("2014-11-28T12:00:09Z".to_string()),
        Ok(Timestamp { secs: 1417176009, nanos: 0 })
    );
    assert_eq!(
        Timestamp::from_pb("2014-11-28 12:00:09 UTC".to_string()),
        Ok(Timestamp { secs: 1417176009, nanos: 0 })
    );
    assert_eq!(
        Timestamp::from_pb("2014-11-28T13:00:09.25+01:00".to_string()),
        Ok(Timestamp { secs: 1417176009, nanos: 250_000_000 })
    );
    assert_eq!(
        Timestamp::from_pb("1969-12-31T23:59:59Z".to_string()),
        Ok(Timestamp { secs: -1, nanos: 0 })
    );
}

#[test]
fn a_text_that_is_no_time_is_incompatible() {
    let reason = "DateTime error: the text is no point in time";
    assert_eq!(Timestamp::from_pb("".to_string()), Err(incompatible(reason)));
    assert_eq!(Timestamp::from_pb("yesterday".to_string()), Err(incompatible(reason)));
    assert_eq!(Timestamp::from_pb("1417176009".to_string()), Err(incompatible(reason)));
    assert_eq!(Timestamp::from_pb("2014-13-28T12:00:09Z".to_string()), Err(incompatible(reason)));
    assert_eq!(Timestamp::from_instant(None), Err(incompatible(reason)));
    assert_eq!(Timestamp::from_instant(Some((5, 6))), Ok(Timestamp { secs: 5, nanos: 6 }));
}

#[test]
fn a_time_is_written_as_text() {
    assert_eq!(
        Timestamp { secs: 1431648000, nanos: 0 }.to_pb(),
        Ok("2015-05-15 00:00:00 UTC".to_string())
    );
    assert_eq!(
        Timestamp { secs: 1417176009, nanos: 250_000_000 }.to_pb(),
        Ok("2014-11-28 12:00:09.250 UTC".to_string())
    );
    assert_eq!(Timestamp { secs: 0, nanos: 0 }.to_pb(), Ok("1970-01-01 00:00:00 UTC".to_string()));
    assert_eq!(Timestamp::written(Some("x".to_string())), Ok("x".to_string()));
}

#[test]
fn numbers_that_are_no_time_cannot_be_written() {
    let reason = "DateTime error: the numbers are no point in time";
    assert_eq!(Timestamp { secs: i64::MAX, nanos: 0 }.to_pb(), Err(incompatible(reason)));
    assert_eq!(Timestamp { secs: 0, nanos: 2_000_000_000 }.to_pb(), Err(incompatible(reason)));
    assert_eq!(Timestamp::written(None), Err(incompatible(reason)));
}

#[test]
fn a_written_time_is_read_back() {
    for at in [
        Timestamp { secs: 0, nanos: 0 },
        Timestamp { secs: 1417176009, nanos: 123_456_789 },
        Timestamp { secs: -86_400, nanos: 1 },
    ] {
        assert_eq!(Timestamp::from_pb(at.to_pb().unwrap()), Ok(at));
    }
}

#[test]
fn table_ident_goes_both_ways() {
    let p = pb::TableIdent { ver: VER, table_id: 7, seq: 9 };
    assert_eq!(TableIdent::from_pb(p), Ok(TableIdent { table_id: 7, seq: 9 }));
    assert_eq!(TableIdent { table_id: 7, seq: 9 }.to_pb(), Ok(p));
    assert_eq!(
        TableIdent::from_pb(pb::TableIdent { ver: 2, table_id: 7, seq: 9 }),
        Err(incompatible("the version of the message is not compatible"))
    );
}

#[test]
fn table_name_ident_goes_both_ways() {
    let p = pb::TableNameIdent {
        ver: VER,
        tenant: "t".to_string(),
        db_name: "db".to_string(),
        table_name: "tbl".to_string(),
    };
    let v = TableNameIdent {
        tenant: "t".to_string(),
        db_name: "db".to_string(),
        table_name: "tbl".to_string(),
    };
    assert_eq!(TableNameIdent::from_pb(p.clone()), Ok(v.clone()));
    assert_eq!(v.to_pb(), Ok(p.clone()));
    assert_eq!(
        TableNameIdent::from_pb(pb::TableNameIdent { ver: 0, ..p }),
        Err(incompatible("the version of the message is not compatible"))
    );
}

#[test]
fn schema_goes_both_ways() {
    let p = pb::DataSchema { ver: VER, fields: fields() };
    assert_eq!(DataSchema::from_pb(p.clone()), Ok(DataSchema { fields: fields() }));
    assert_eq!(DataSchema { fields: fields() }.to_pb(), Ok(p));
    assert!(DataSchema::from_pb(pb::DataSchema { ver: 3, fields: fields() }).is_err());
    assert_eq!(duplicate_fields(&fields()), fields());
    assert_eq!(duplicate_bytes(&vec![1, 2, 3]), vec![1, 2, 3]);
    assert_eq!(fields()[1].duplicate(), fields()[1]);
}

#[test]
fn table_meta_is_read() {
    assert_eq!(TableMeta::from_pb(pb_meta()), Ok(meta()));
}

#[test]
fn table_meta_is_written() {
    let written = meta().to_pb().unwrap();
    assert_eq!(written, pb_meta());
    assert_eq!(TableMeta::from_pb(written), Ok(meta()));

    let mut without_keys = meta();
    without_keys.order_keys = None;
    assert_eq!(without_keys.to_pb().unwrap().order_keys, None);
}

#[test]
fn table_meta_gives_the_first_reason() {
    let version = "the version of the message is not compatible";
    let no_time = "DateTime error: the text is no point in time";
    assert_eq!(
        TableMeta::from_pb(pb::TableMeta { ver: 9, schema: None, ..pb_meta() }),
        Err(incompatible(version))
    );
    assert_eq!(
        TableMeta::from_pb(pb::TableMeta { schema: None, created_on: "x".to_string(), ..pb_meta() }),
        Err(incompatible("TableMeta.schema can not be None"))
    );
    assert_eq!(
        TableMeta::from_pb(pb::TableMeta {
            schema: Some(pb::DataSchema { ver: 0, fields: fields() }),
            created_on: "x".to_string(),
            ..pb_meta()
        }),
        Err(incompatible(version))
    );
    assert_eq!(
        TableMeta::from_pb(pb::TableMeta { created_on: "x".to_string(), ..pb_meta() }),
        Err(incompatible(no_time))
    );
    assert_eq!(
        TableMeta::from_pb(pb::TableMeta { updated_on: "x".to_string(), ..pb_meta() }),
        Err(incompatible(no_time))
    );
}

#[test]
fn table_meta_with_a_time_out_of_range_cannot_be_written() {
    let reason = "DateTime error: the numbers are no point in time";
    let mut m = meta();
    m.updated_on = Timestamp { secs: i64::MIN, nanos: 0 };
    assert_eq!(m.to_pb(), Err(incompatible(reason)));
    let info = TableInfo {
        ident: TableIdent { table_id: 1, seq: 2 },
        desc: "d".to_string(),
        name: "n".to_string(),
        meta: m,
    };
    assert_eq!(info.to_pb(), Err(incompatible(reason)));
}

#[test]
fn table_info_goes_both_ways() {
    let p = pb::TableInfo {
        ver: VER,
        ident: Some(pb::TableIdent { ver: VER, table_id: 1, seq: 2 }),
        desc: "'db'.'tbl'".to_string(),
        name: "tbl".to_string(),
        meta: Some(pb_meta()),
    };
    let v = TableInfo {
        ident: TableIdent { table_id: 1, seq: 2 },
        desc: "'db'.'tbl'".to_string(),
        name: "tbl".to_string(),
        meta: meta(),
    };
    assert_eq!(TableInfo::from_pb(p.clone()), Ok(v.clone()));
    assert_eq!(v.to_pb(), Ok(p));
}

#[test]
fn table_info_gives_the_first_reason() {
    let p = pb::TableInfo {
        ver: VER,
        ident: Some(pb::TableIdent { ver: VER, table_id: 1, seq: 2 }),
        desc: "d".to_string(),
        name: "n".to_string(),
        meta: Some(pb_meta()),
    };
    let version = "the version of the message is not compatible";
    assert_eq!(
        TableInfo::from_pb(pb::TableInfo { ver: 0, ident: None, meta: None, ..p.clone() }),
        Err(incompatible(version))
    );
    assert_eq!(
        TableInfo::from_pb(pb::TableInfo { ident: None, meta: None, ..p.clone() }),
        Err(incompatible("TableInfo.ident can not be None"))
    );
    assert_eq!(
        TableInfo::from_pb(pb::TableInfo {
            ident: Some(pb::TableIdent { ver: 5, table_id: 1, seq: 2 }),
            meta: None,
            ..p.clone()
        }),
        Err(incompatible(version))
    );
    assert_eq!(
        TableInfo::from_pb(pb::TableInfo { meta: None, ..p.clone() }),
        Err(incompatible("TableInfo.meta can not be None"))
    );
    assert_eq!(
        TableInfo::from_pb(pb::TableInfo {
            meta: Some(pb::TableMeta { schema: None, ..pb_meta() }),
            ..p
        }),
        Err(incompatible("TableMeta.schema can not be None"))
    );
}
