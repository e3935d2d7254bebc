use bytes::BytesMut;
use tiberius_core::column_data::{Collation, ColumnData};
use tiberius_core::error::Error;

fn collation() -> Collation {
    Collation { info: 0x0409_D000, sort_id: 0x34 }
}

fn round_trip(v: ColumnData) {
    let mut bytes = BytesMut::new();
    bytes.extend_from_slice(&[9, 9]);
    v.encode(&mut bytes, collation()).unwrap();
    let end = bytes.len();
    bytes.extend_from_slice(&[7, 7, 7]);
    let (back, pos) = ColumnData::decode(&bytes, 2).unwrap();
    assert_eq!(back, v);
    assert_eq!(pos, end);
}

#[test]
fn round_trip_every_variant() {
    round_trip(ColumnData::Bit(Some(true)));
    round_trip(ColumnData::Bit(Some(false)));
    round_trip(ColumnData::Bit(None));
    round_trip(ColumnData::U8(Some(255)));
    round_trip(ColumnData::U8(None));
    round_trip(ColumnData::I16(Some(i16::MIN)));
    round_trip(ColumnData::I16(None));
    round_trip(ColumnData::I32(Some(-1)));
    round_trip(ColumnData::I32(None));
    round_trip(ColumnData::I64(Some(i64::MIN)));
    round_trip(ColumnData::I64(None));
    round_trip(ColumnData::F32(Some(1.5f32.to_bits())));
    round_trip(ColumnData::F32(None));
    round_trip(ColumnData::F64(Some((-2.25f64).to_bits())));
    round_trip(ColumnData::F64(None));
    round_trip(ColumnData::String(None));
    round_trip(ColumnData::String(Some(vec![])));
    round_trip(ColumnData::String(Some("héllo 𝄞".encode_utf16().collect())));
}

#[test]
fn long_string_goes_in_chunks() {
    let s: Vec<u16> = "z".repeat(4001).encode_utf16().collect();
    let v = ColumnData::String(Some(s));
    assert_eq!(v.declared_type(), "nvarchar(max)");
    let mut bytes = BytesMut::new();
    v.encode(&mut bytes, collation()).unwrap();
    assert_eq!(&bytes[0..3], &[0xE7, 0xFF, 0xFF]);
    assert_eq!(&bytes[8..16], &8002u64.to_le_bytes());
    assert_eq!(&bytes[16..20], &8002u32.to_le_bytes());
    assert_eq!(&bytes[bytes.len() - 4..], &[0, 0, 0, 0]);
    round_trip(v);
}

#[test]
fn string_of_4000_units_stays_short() {
    let v = ColumnData::String(Some(vec![0x41; 4000]));
    assert_eq!(v.declared_type(), "nvarchar(4000)");
    let mut bytes = BytesMut::new();
    v.encode(&mut bytes, collation()).unwrap();
    assert_eq!(&bytes[1..3], &8000u16.to_le_bytes());
    assert_eq!(&bytes[8..10], &8000u16.to_le_bytes());
    assert_eq!(bytes.len(), 10 + 8000);
}

#[test]
fn null_values_have_zero_length() {
    let mut bytes = BytesMut::new();
    ColumnData::I32(None).encode(&mut bytes, collation()).unwrap();
    assert_eq!(&bytes[..], &[0x26, 4, 0]);
    let mut bytes = BytesMut::new();
    ColumnData::String(None).encode(&mut bytes, collation()).unwrap();
    assert_eq!(&bytes[8..], &[0xFF, 0xFF]);
}

#[test]
fn declared_types() {
    assert_eq!(ColumnData::Bit(None).declared_type(), "bit");
    assert_eq!(ColumnData::U8(None).declared_type(), "tinyint");
    assert_eq!(ColumnData::I16(None).declared_type(), "smallint");
    assert_eq!(ColumnData::I32(None).declared_type(), "int");
    assert_eq!(ColumnData::I64(None).declared_type(), "bigint");
    assert_eq!(ColumnData::F32(None).declared_type(), "real");
    assert_eq!(ColumnData::F64(None).declared_type(), "float");
    assert_eq!(ColumnData::String(None).declared_type(), "nvarchar(4000)");
}

#[test]
fn truncated_or_unknown_bytes_are_rejected() {
    assert_eq!(ColumnData::decode(&[0x26, 4, 4, 1, 2], 0), Err(Error::ProtocolViolation));
    assert_eq!(ColumnData::decode(&[0x99, 1, 1, 1], 0), Err(Error::ProtocolViolation));
    assert_eq!(ColumnData::decode(&[0x26, 3, 3, 1, 2, 3], 0), Err(Error::ProtocolViolation));
    assert_eq!(ColumnData::decode(&[], 0), Err(Error::ProtocolViolation));
}

#[test]
fn chunked_string_in_several_chunks_decodes() {
    let mut b = vec![0xE7, 0xFF, 0xFF, 0, 0, 0, 0, 0];
    b.extend(0xFFFF_FFFF_FFFF_FFFEu64.to_le_bytes());
    b.extend(3u32.to_le_bytes());
    b.extend([b'a', 0, b'b']);
    b.extend(1u32.to_le_bytes());
    b.push(0);
    b.extend(0u32.to_le_bytes());
    let (v, pos) = ColumnData::decode(&b, 0).unwrap();
    assert_eq!(v, ColumnData::String(Some(vec![0x61, 0x62])));
    assert_eq!(pos, b.len());
}

#[test]
fn round_trip_guid_and_binary() {
    round_trip(ColumnData::Guid(Some([7; 16])));
    round_trip(ColumnData::Guid(None));
    round_trip(ColumnData::Binary(None));
    round_trip(ColumnData::Binary(Some(vec![])));
    round_trip(ColumnData::Binary(Some(vec![1, 2, 3])));
    round_trip(ColumnData::Binary(Some(vec![0xAB; 8001])));
}

#[test]
fn guid_and_binary_layout() {
    let mut bytes = BytesMut::new();
    ColumnData::Guid(Some([1; 16])).encode(&mut bytes, collation()).unwrap();
    assert_eq!(&bytes[0..3], &[0x24, 16, 16]);
    assert_eq!(bytes.len(), 19);
    let mut bytes = BytesMut::new();
    ColumnData::Binary(Some(vec![5, 6])).encode(&mut bytes, collation()).unwrap();
    assert_eq!(&bytes[..], &[0xA5, 0x40, 0x1F, 2, 0, 5, 6]);
    assert_eq!(ColumnData::Guid(None).declared_type(), "uniqueidentifier");
    assert_eq!(ColumnData::Binary(None).declared_type(), "varbinary(8000)");
    assert_eq!(ColumnData::Binary(Some(vec![0; 8001])).declared_type(), "varbinary(max)");
}

#[test]
fn round_trip_numeric() {
    round_trip(ColumnData::Numeric(18, 2, Some(-12345)));
    round_trip(ColumnData::Numeric(38, 0, Some(i128::MIN)));
    round_trip(ColumnData::Numeric(38, 0, Some(i128::MAX)));
    round_trip(ColumnData::Numeric(10, 4, Some(0)));
    round_trip(ColumnData::Numeric(10, 4, None));
}

#[test]
fn numeric_layout_and_declaration() {
    let v = ColumnData::Numeric(18, 2, Some(-258));
    assert_eq!(v.declared_type(), "numeric(18,2)");
    let mut bytes = BytesMut::new();
    v.encode(&mut bytes, collation()).unwrap();
    let mut expected = vec![0x6C, 17, 18, 2, 17, 0, 2, 1];
    expected.extend([0u8; 14]);
    assert_eq!(&bytes[..], expected.as_slice());
    let mut null = BytesMut::new();
    ColumnData::Numeric(5, 1, None).encode(&mut null, collation()).unwrap();
    assert_eq!(&null[..], &[0x6C, 17, 5, 1, 0]);
}
