use tiberius_core::bulk::{bulk_columns, insert_bulk_statement, select_metadata_statement, BulkLoadRequest};
use tiberius_core::column_data::{Collation, ColumnData};
use tiberius_core::error::{Error, ServerMessage};
use tiberius_core::packet::{payload_length, split_message, Context, PacketHeader};
use tiberius_core::result::ExecuteResult;
use tiberius_core::token::decode_message;

fn column(flags: u16, ty: &[u8], name: &str) -> Vec<u8> {
    let mut b = Vec::new();
    b.extend(0u32.to_le_bytes());
    b.extend(flags.to_le_bytes());
    b.extend_from_slice(ty);
    let units: Vec<u16> = name.encode_utf16().collect();
    b.push(units.len() as u8);
    for u in units {
        b.extend(u.to_le_bytes());
    }
    b
}

fn metadata_reply() -> Vec<u8> {
    let mut msg = vec![0x81, 4, 0];
    msg.extend(column(0x10, &[0x38], "id"));
    msg.extend(column(0x09, &[0x26, 4], "a"));
    msg.extend(column(0x08, &[0x32], "b"));
    msg.extend(column(0x09, &[0xE7, 100, 0, 0, 0, 0, 0, 0], "c"));
    msg.extend([0xFD, 0, 0, 0xC1, 0, 0, 0, 0, 0, 0, 0, 0, 0]);
    msg
}

#[test]
fn bulk_insert_declares_updateable_columns_and_loads_rows() {
    assert_eq!(select_metadata_statement("t"), "SELECT TOP 0 * FROM t");
    let tokens = decode_message(&metadata_reply()).unwrap();
    let cols = bulk_columns(tokens).unwrap();
    assert_eq!(cols.len(), 3);
    assert_eq!(insert_bulk_statement("t", &cols), "INSERT BULK t (a int, b bit, c nvarchar(50))");
    let mut req = BulkLoadRequest::new(cols);
    for i in 0..3i32 {
        let row = vec![
            ColumnData::I32(Some(i)),
            ColumnData::Bit(Some(i % 2 == 0)),
            ColumnData::String(Some("xy".encode_utf16().collect())),
        ];
        req.send(&row).unwrap();
    }
    let bytes = req.finalize();
    assert_eq!(&bytes[0..11], &[0xD1, 4, 0, 0, 0, 0, 1, 4, 0, b'x', 0]);
    assert_eq!(&bytes[bytes.len() - 13..], &[0xFD, 0, 0, 0, 0, 0, 0, 0, 0, 0, 0, 0, 0]);
    let reply = decode_message(&[0xFD, 0x10, 0, 0xC1, 0, 3, 0, 0, 0, 0, 0, 0, 0]).unwrap();
    assert_eq!(ExecuteResult::from_tokens(&reply).unwrap().total(), 3);
}

#[test]
fn bulk_row_mismatch_is_rejected() {
    let cols = bulk_columns(decode_message(&metadata_reply()).unwrap()).unwrap();
    let mut req = BulkLoadRequest::new(cols);
    assert_eq!(req.send(&vec![ColumnData::I32(Some(1))]), Err(Error::BulkInput));
    let wrong_type = vec![ColumnData::I64(Some(1)), ColumnData::Bit(None), ColumnData::String(None)];
    assert_eq!(req.send(&wrong_type), Err(Error::BulkInput));
    let too_long = vec![
        ColumnData::I32(None),
        ColumnData::Bit(Some(true)),
        ColumnData::String(Some(vec![0x41; 51])),
    ];
    assert_eq!(req.send(&too_long), Err(Error::BulkInput));
    assert_eq!(req.finalize().len(), 13);
}

#[test]
fn bulk_without_metadata_is_a_protocol_error() {
    let tokens = decode_message(&[0xFD, 0, 0, 0xC1, 0, 0, 0, 0, 0, 0, 0, 0, 0]).unwrap();
    assert_eq!(
        bulk_columns(tokens).err(),
        Some(Error::Protocol("expecting column metadata from query but not found".to_string()))
    );
}

#[test]
fn packet_ids_run_on_modulo_256() {
    let mut ctx = Context::new(12, Collation { info: 0, sort_id: 0 });
    ctx.packet_id = 254;
    let payload: Vec<u8> = (0..10).collect();
    let packets = split_message(&mut ctx, 3, &payload);
    assert_eq!(packets.len(), 3);
    let ids: Vec<u8> = packets.iter().map(|p| p.header.id).collect();
    assert_eq!(ids, vec![254, 255, 0]);
    assert_eq!(ctx.packet_id, 1);
    assert_eq!(packets[0].payload, vec![0, 1, 2, 3]);
    assert_eq!(packets[2].payload, vec![8, 9]);
    assert_eq!(packets[0].header.status, 0);
    assert_eq!(packets[2].header.status, 1);
    assert_eq!(packets[2].header.length, 10);
    assert!(packets[2].header.is_end_of_message());
}

#[test]
fn empty_message_is_one_packet_and_dirty_session_resets() {
    let mut ctx = Context::new(4096, Collation { info: 0, sort_id: 0 });
    ctx.dirty = true;
    let packets = split_message(&mut ctx, 1, &[]);
    assert_eq!(packets.len(), 1);
    assert_eq!(packets[0].header.status, 0x09);
    assert_eq!(packets[0].header.length, 8);
    assert!(!ctx.dirty);
    let next = split_message(&mut ctx, 1, &[1]);
    assert_eq!(next[0].header.status, 0x01);
    assert_eq!(next[0].header.id, 1);
}

#[test]
fn packet_header_bytes_are_big_endian() {
    let h = PacketHeader { ty: 4, status: 1, length: 0x0102, spid: 0x0304, id: 5, window: 0 };
    let mut b = bytes::BytesMut::new();
    h.encode(&mut b);
    assert_eq!(&b[..], &[4, 1, 1, 2, 3, 4, 5, 0]);
    assert_eq!(PacketHeader::decode(&b), Some(h));
    assert_eq!(PacketHeader::batch(7).ty, 1);
    assert_eq!(PacketHeader::rpc(7).ty, 3);
}

#[test]
fn payload_length_excludes_header() {
    let h = PacketHeader { ty: 4, status: 1, length: 20, spid: 0, id: 1, window: 0 };
    assert_eq!(payload_length(&h), Ok(12));
    let short = PacketHeader { length: 7, ..h };
    assert_eq!(payload_length(&short), Err(Error::ProtocolViolation));
}

#[test]
fn env_change_updates_transaction_descriptor() {
    let mut ctx = Context::new(4096, Collation { info: 0, sort_id: 0 });
    ctx.apply_env_change(&vec![8, 8, 1, 2, 3, 4, 5, 6, 7, 8, 0]);
    assert_eq!(ctx.transaction_desc, [1, 2, 3, 4, 5, 6, 7, 8]);
    ctx.apply_env_change(&vec![1, 2, 3]);
    assert_eq!(ctx.transaction_desc, [1, 2, 3, 4, 5, 6, 7, 8]);
    ctx.apply_env_change(&vec![9, 0, 8, 1, 2, 3, 4, 5, 6, 7, 8]);
    assert_eq!(ctx.transaction_desc, [0; 8]);
}

#[test]
fn bulk_metadata_query_on_unknown_table_fails_with_server_error() {
    let message: Vec<u16> = "Invalid object name 'nope'.".encode_utf16().collect();
    let mut body = Vec::new();
    body.extend(208u32.to_le_bytes());
    body.extend([1, 16]);
    body.extend((message.len() as u16).to_le_bytes());
    for u in &message {
        body.extend(u.to_le_bytes());
    }
    body.extend([0, 0]);
    body.extend(1u32.to_le_bytes());
    let mut msg = vec![0xAA];
    msg.extend((body.len() as u16).to_le_bytes());
    msg.extend(body);
    msg.extend([0xFD, 0x02, 0, 0xC1, 0, 0, 0, 0, 0, 0, 0, 0, 0]);
    let tokens = decode_message(&msg).unwrap();
    assert_eq!(
        bulk_columns(tokens).err(),
        Some(Error::Server(ServerMessage {
            number: 208,
            state: 1,
            class: 16,
            message,
            server: vec![],
            procedure: vec![],
            line: 1,
        }))
    );
}

#[test]
fn bulk_metadata_error_beside_result_set_still_fails() {
    let mut msg = metadata_reply();
    msg.extend([0xAA, 14, 0, 1, 0, 0, 0, 1, 16, 0, 0, 0, 0, 7, 0, 0, 0]);
    let tokens = decode_message(&msg).unwrap();
    assert!(matches!(bulk_columns(tokens), Err(Error::Server(m)) if m.number == 1 && m.line == 7));
}
