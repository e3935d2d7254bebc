use bytes::BytesMut;
use tiberius_core::client::{execute_sql_request, param_meta_string, rpc_params};
use tiberius_core::column_data::{Collation, ColumnData};
use tiberius_core::error::Error;
use tiberius_core::rpc_request::{
    BatchRequest, RpcParam, RpcProcId, RpcProcIdValue, RpcStatus, RpcOption, TokenRpcRequest,
};

fn collation() -> Collation {
    Collation { info: 0x0409_D000, sort_id: 0x34 }
}

fn units(s: &str) -> Vec<u16> {
    s.encode_utf16().collect()
}

fn units_le(s: &str) -> Vec<u8> {
    s.encode_utf16().flat_map(|u| u.to_le_bytes()).collect()
}

fn encode_query(sql: &str, params: Vec<ColumnData>) -> Vec<u8> {
    let req = execute_sql_request(sql, params, [0; 8]);
    let mut bytes = BytesMut::new();
    req.encode(&mut bytes, collation()).unwrap();
    bytes.to_vec()
}

/// The bytes of a user parameter `@P<i>`: name length, name, status byte.
fn param_head(i: usize) -> Vec<u8> {
    let name = format!("@P{}", i);
    let mut v = vec![name.len() as u8];
    v.extend(units_le(&name));
    v.push(0);
    v
}

fn find(hay: &[u8], needle: &[u8]) -> Option<usize> {
    hay.windows(needle.len()).position(|w| w == needle)
}

#[test]
fn test_rpc_bit() {
    let bytes = encode_query("select @P1", vec![ColumnData::Bit(Some(false))]);
    assert_eq!(param_meta_string(&vec![ColumnData::Bit(Some(false))]), "@P1 bit");
    let mut tail = param_head(1);
    tail.extend([0x68, 0x01, 0x01, 0x00]);
    assert!(bytes.ends_with(&tail));
}

#[test]
fn test_rpc_u8() {
    let bytes = encode_query("select @P1", vec![ColumnData::U8(Some(1))]);
    let mut tail = param_head(1);
    tail.extend([0x26, 0x01, 0x01, 0x01]);
    assert!(bytes.ends_with(&tail));
}

#[test]
fn test_rpc_i16() {
    let bytes = encode_query("select @P1", vec![ColumnData::I16(Some(i16::MAX))]);
    let mut tail = param_head(1);
    tail.extend([0x26, 0x02, 0x02, 0xFF, 0x7F]);
    assert!(bytes.ends_with(&tail));
}

#[test]
fn test_rpc_i32() {
    let params = vec![ColumnData::I32(Some(i32::MAX))];
    assert_eq!(param_meta_string(&params), "@P1 int");
    let bytes = encode_query("select @P1", params);
    let mut tail = param_head(1);
    tail.extend([0x26, 0x04, 0x04, 0xFF, 0xFF, 0xFF, 0x7F]);
    assert!(bytes.ends_with(&tail));
}

#[test]
fn test_rpc_i64() {
    let bytes = encode_query("select @P1", vec![ColumnData::I64(Some(i64::MAX))]);
    let mut tail = param_head(1);
    tail.extend([0x26, 0x08, 0x08, 0xFF, 0xFF, 0xFF, 0xFF, 0xFF, 0xFF, 0xFF, 0x7F]);
    assert!(bytes.ends_with(&tail));
}

#[test]
fn test_rpc_f32() {
    let bytes = encode_query("select @P1", vec![ColumnData::F32(Some(f32::MAX.to_bits()))]);
    let mut tail = param_head(1);
    tail.extend([0x6D, 0x04, 0x04]);
    tail.extend(f32::MAX.to_le_bytes());
    assert!(bytes.ends_with(&tail));
}

#[test]
fn test_rpc_f64() {
    let bytes = encode_query("select @P1", vec![ColumnData::F64(Some(f64::MAX.to_bits()))]);
    let mut tail = param_head(1);
    tail.extend([0x6D, 0x08, 0x08]);
    tail.extend(f64::MAX.to_le_bytes());
    assert!(bytes.ends_with(&tail));
}

#[test]
fn test_rpc_string() {
    let params = vec![ColumnData::String(Some(units("abcd")))];
    assert_eq!(param_meta_string(&params), "@P1 nvarchar(4000)");
    let bytes = encode_query("select @P1", params);
    // All-Headers, proc id, option flags, then the first parameter: `@stmt`.
    assert_eq!(bytes[28], 5);
    assert_eq!(&bytes[29..39], units_le("@stmt").as_slice());
    let mut tail = param_head(1);
    tail.push(0xE7);
    tail.extend(8000u16.to_le_bytes());
    tail.extend(0x0409_D000u32.to_le_bytes());
    tail.push(0x34);
    tail.extend(8u16.to_le_bytes());
    tail.extend(units_le("abcd"));
    assert!(bytes.ends_with(&tail));
}

#[test]
fn test_rpc_0() {
    let params = vec![
        ColumnData::Bit(Some(false)),
        ColumnData::U8(Some(2)),
        ColumnData::I16(Some(3)),
        ColumnData::I32(Some(4)),
        ColumnData::I64(Some(5)),
        ColumnData::F32(Some(6.123456789f32.to_bits())),
        ColumnData::F64(Some(7.123456789f64.to_bits())),
        ColumnData::String(Some(units("8abc"))),
        ColumnData::String(Some(units("9def"))),
    ];
    let meta = param_meta_string(&params);
    assert_eq!(
        meta,
        "@P1 bit,@P2 tinyint,@P3 smallint,@P4 int,@P5 bigint,@P6 real,@P7 float,@P8 nvarchar(4000),@P9 nvarchar(4000)"
    );
    let bytes = encode_query("select @P1, @P2, @P3, @P4, @P5, @P6, @P7, @P8, @P9", params);
    for i in 1..=9 {
        assert!(find(&bytes, &param_head(i)).is_some());
    }
    assert!(find(&bytes, &units_le(&meta)).is_some());
}

#[test]
fn multi_param_meta_string_with_extremes() {
    let params = vec![
        ColumnData::Bit(Some(false)),
        ColumnData::U8(Some(2)),
        ColumnData::I16(Some(3)),
        ColumnData::I32(Some(4)),
        ColumnData::I64(Some(5)),
        ColumnData::F32(Some(f32::MAX.to_bits())),
        ColumnData::F64(Some(f64::MAX.to_bits())),
        ColumnData::String(Some(units("x"))),
        ColumnData::String(Some(units("y"))),
    ];
    assert_eq!(
        param_meta_string(&params),
        "@P1 bit,@P2 tinyint,@P3 smallint,@P4 int,@P5 bigint,@P6 real,@P7 float,@P8 nvarchar(4000),@P9 nvarchar(4000)"
    );
}

#[test]
fn meta_string_counts_past_nine() {
    let params: Vec<ColumnData> = (0..12).map(|i| ColumnData::I32(Some(i))).collect();
    let meta = param_meta_string(&params);
    assert!(meta.starts_with("@P1 int,@P2 int"));
    assert!(meta.ends_with(",@P10 int,@P11 int,@P12 int"));
    assert_eq!(param_meta_string(&vec![]), "");
}

#[test]
fn request_starts_with_all_headers() {
    let bytes = encode_query("select 1", vec![]);
    assert_eq!(&bytes[0..4], &[22, 0, 0, 0]);
    assert_eq!(&bytes[4..8], &[18, 0, 0, 0]);
    assert_eq!(&bytes[8..10], &[2, 0]);
    assert_eq!(&bytes[18..22], &[1, 0, 0, 0]);
    assert_eq!(&bytes[22..26], &[0xFF, 0xFF, 10, 0]);
    assert_eq!(&bytes[26..28], &[0, 0]);
}

#[test]
fn transaction_descriptor_is_written() {
    let req = execute_sql_request("select 1", vec![], [1, 2, 3, 4, 5, 6, 7, 8]);
    let mut bytes = BytesMut::new();
    req.encode(&mut bytes, collation()).unwrap();
    assert_eq!(&bytes[10..18], &[1, 2, 3, 4, 5, 6, 7, 8]);
}

#[test]
fn param_name_length_counts_utf16_units() {
    let name = "\u{1D11E}é";
    let req = TokenRpcRequest::new(
        RpcProcIdValue::from_id(RpcProcId::Prepare),
        vec![RpcParam { name: name.to_string(), flags: RpcStatus::ByRefValue.bit(), value: ColumnData::U8(None) }],
        [0; 8],
    );
    let mut bytes = BytesMut::new();
    req.encode(&mut bytes, collation()).unwrap();
    assert_eq!(&bytes[22..26], &[0xFF, 0xFF, 11, 0]);
    assert_eq!(bytes[28], 3);
    assert_eq!(&bytes[29..35], units_le(name).as_slice());
    assert_eq!(&bytes[35..], &[1, 0x26, 1, 0]);
}

#[test]
fn named_procedure_is_length_prefixed() {
    let req = TokenRpcRequest::new(RpcProcIdValue::from_name("sp_who".to_string()), vec![], [0; 8]);
    let mut bytes = BytesMut::new();
    req.encode(&mut bytes, collation()).unwrap();
    assert_eq!(&bytes[22..24], &[6, 0]);
    assert_eq!(&bytes[24..36], units_le("sp_who").as_slice());
    assert_eq!(&bytes[36..], &[0, 0]);
}

#[test]
fn too_long_param_name_is_a_conversion_error() {
    let req = TokenRpcRequest::new(
        RpcProcIdValue::from_id(RpcProcId::ExecuteSQL),
        vec![RpcParam { name: "n".repeat(256), flags: 0, value: ColumnData::Bit(None) }],
        [0; 8],
    );
    let mut bytes = BytesMut::new();
    assert_eq!(req.encode(&mut bytes, collation()), Err(Error::Conversion));
    assert!(bytes.is_empty());
}

#[test]
fn rpc_params_hold_statement_and_placeholder() {
    let p = rpc_params("select 1");
    assert_eq!(p.len(), 2);
    assert_eq!(p[0].name, "@stmt");
    assert_eq!(p[0].value, ColumnData::String(Some(units("select 1"))));
    assert_eq!(p[1].name, "@params");
    assert_eq!(p[1].value, ColumnData::I32(Some(0)));
}

#[test]
fn execute_sql_request_names_user_params() {
    let req = execute_sql_request("select @P1, @P2", vec![ColumnData::I32(Some(1)), ColumnData::Bit(None)], [0; 8]);
    assert_eq!(req.proc_id, RpcProcIdValue::Id(RpcProcId::ExecuteSQL));
    assert_eq!(req.params.len(), 4);
    assert_eq!(req.params[1].value, ColumnData::String(Some(units("@P1 int,@P2 bit"))));
    assert_eq!(req.params[2].name, "@P1");
    assert_eq!(req.params[3].name, "@P2");
    assert_eq!(req.params[3].value, ColumnData::Bit(None));
}

#[test]
fn non_ascii_statement_is_utf16() {
    let req = execute_sql_request("select 'ü𝄞'", vec![], [0; 8]);
    assert_eq!(req.params[0].value, ColumnData::String(Some(units("select 'ü𝄞'"))));
    assert_eq!(units("ü𝄞").len(), 3);
}

#[test]
fn batch_request_layout() {
    let req = BatchRequest::new("SELECT 1".to_string(), [0; 8]);
    let mut bytes = BytesMut::new();
    req.encode(&mut bytes);
    assert_eq!(&bytes[0..4], &[22, 0, 0, 0]);
    assert_eq!(&bytes[22..], units_le("SELECT 1").as_slice());
}

#[test]
fn flag_bits() {
    assert_eq!(RpcStatus::ByRefValue.bit(), 1);
    assert_eq!(RpcStatus::DefaultValue.bit(), 2);
    assert_eq!(RpcStatus::Encrypted.bit(), 8);
    assert_eq!(RpcOption::WithRecomp.bit(), 1);
    assert_eq!(RpcOption::NoMeta.bit(), 2);
    assert_eq!(RpcOption::ReuseMeta.bit(), 4);
    assert_eq!(RpcProcId::CursorOpen.number(), 2);
    assert_eq!(RpcProcId::Unprepare.number(), 15);
}
