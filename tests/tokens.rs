use tiberius_core::column_data::ColumnData;
use tiberius_core::error::{Error, ServerMessage};
use tiberius_core::result::{ExecuteResult, QueryItem, QueryStream};
use tiberius_core::token::{decode_message, Done, ReceivedToken, TypeInfo};

fn colmetadata(cols: &[(u16, &[u8], &str)]) -> Vec<u8> {
    let mut b = vec![0x81];
    b.extend((cols.len() as u16).to_le_bytes());
    for (flags, ty, name) in cols {
        b.extend(0u32.to_le_bytes());
        b.extend(flags.to_le_bytes());
        b.extend_from_slice(ty);
        let units: Vec<u16> = name.encode_utf16().collect();
        b.push(units.len() as u8);
        for u in units {
            b.extend(u.to_le_bytes());
        }
    }
    b
}

fn utf16(s: &str) -> Vec<u16> {
    s.encode_utf16().collect()
}

pub fn error_token(number: u32, message: &str, server: &str, procedure: &str, line: u32) -> Vec<u8> {
    let mut body = Vec::new();
    body.extend(number.to_le_bytes());
    body.extend([1, 16]);
    body.extend((utf16(message).len() as u16).to_le_bytes());
    for u in utf16(message) {
        body.extend(u.to_le_bytes());
    }
    for name in [server, procedure] {
        body.push(utf16(name).len() as u8);
        for u in utf16(name) {
            body.extend(u.to_le_bytes());
        }
    }
    body.extend(line.to_le_bytes());
    let mut b = vec![0xAA];
    b.extend((body.len() as u16).to_le_bytes());
    b.extend(body);
    b
}

fn done(tag: u8, status: u16, rows: u64) -> Vec<u8> {
    let mut b = vec![tag];
    b.extend(status.to_le_bytes());
    b.extend(0xC1u16.to_le_bytes());
    b.extend(rows.to_le_bytes());
    b
}

fn int_row(v: i32) -> Vec<u8> {
    let mut b = vec![0xD1, 4];
    b.extend(v.to_le_bytes());
    b
}

#[test]
fn canned_response_decodes_in_order() {
    let mut msg = colmetadata(&[(0x09, &[0x26, 4], "n")]);
    msg.extend(int_row(42));
    msg.extend(done(0xFD, 0x10, 1));
    let tokens = decode_message(&msg).unwrap();
    assert_eq!(tokens.len(), 3);
    match &tokens[0] {
        ReceivedToken::NewResultset(cols) => {
            assert_eq!(cols.len(), 1);
            assert_eq!(cols[0].type_info, TypeInfo::IntN(4));
            assert_eq!(cols[0].name, vec![0x6E]);
        }
        other => panic!("unexpected {:?}", other),
    }
    assert_eq!(tokens[1], ReceivedToken::Row(vec![ColumnData::I32(Some(42))]));
    assert_eq!(tokens[2], ReceivedToken::Done(Done { status: 0x10, cur_cmd: 0xC1, rows: 1 }));
    let result = ExecuteResult::from_tokens(&tokens).unwrap();
    assert_eq!(result.total(), 1);
}

#[test]
fn row_before_metadata_is_a_protocol_violation() {
    let msg = int_row(1);
    assert_eq!(decode_message(&msg), Err(Error::ProtocolViolation));
}

#[test]
fn multi_statement_counts_sum_to_total() {
    let mut msg = done(0xFF, 0x11, 3);
    msg.extend(done(0xFF, 0x01, 99));
    msg.extend(done(0xFF, 0x11, 4));
    msg.extend(done(0xFE, 0x10, 5));
    let tokens = decode_message(&msg).unwrap();
    let result = ExecuteResult::from_tokens(&tokens).unwrap();
    assert_eq!(result.rows_affected(), &[3, 4, 5]);
    assert_eq!(result.rows_affected().iter().sum::<u64>(), result.total());
    assert_eq!(result.total(), 12);
}

#[test]
fn server_error_fails_execute() {
    let mut msg = error_token(208, "Invalid object name 'x'.", "srv", "", 1);
    msg.extend(done(0xFD, 0x02, 0));
    let tokens = decode_message(&msg).unwrap();
    assert_eq!(
        ExecuteResult::from_tokens(&tokens).err(),
        Some(Error::Server(ServerMessage {
            number: 208,
            state: 1,
            class: 16,
            message: utf16("Invalid object name 'x'."),
            server: utf16("srv"),
            procedure: vec![],
            line: 1,
        }))
    );
}

#[test]
fn rows_then_server_error_in_query_stream() {
    let mut msg = colmetadata(&[(0, &[0x38], "a")]);
    msg.extend([0xD1, 7, 0, 0, 0]);
    msg.extend(error_token(8134, "Divide by zero error encountered.", "srv", "p", 3));
    msg.extend(done(0xFD, 0x02, 0));
    let mut stream = QueryStream::new(decode_message(&msg).unwrap());
    assert!(matches!(stream.next(), Some(Ok(QueryItem::Metadata(_)))));
    assert_eq!(stream.next(), Some(Ok(QueryItem::Row(vec![ColumnData::I32(Some(7))]))));
    match stream.next() {
        Some(Err(Error::Server(m))) => {
            assert_eq!(m.number, 8134);
            assert_eq!(m.message, utf16("Divide by zero error encountered."));
            assert_eq!(m.procedure, utf16("p"));
            assert_eq!(m.line, 3);
        }
        other => panic!("unexpected {:?}", other),
    }
    assert!(stream.next().is_none());
}

#[test]
fn truncated_error_token_is_a_protocol_violation() {
    let mut msg = vec![0xAA];
    msg.extend(8u16.to_le_bytes());
    msg.extend(208u32.to_le_bytes());
    msg.extend([1, 16, 0, 0]);
    assert_eq!(decode_message(&msg), Err(Error::ProtocolViolation));
}

#[test]
fn query_yields_one_metadata_per_result_set() {
    let mut msg = colmetadata(&[(0, &[0x38], "a")]);
    msg.extend([0xD1, 7, 0, 0, 0]);
    msg.extend(done(0xFD, 0x11, 1));
    msg.extend(colmetadata(&[(0, &[0x32], "b"), (0, &[0x30], "c")]));
    msg.extend([0xD1, 1, 9]);
    msg.extend([0xD1, 0, 8]);
    msg.extend(done(0xFD, 0x10, 2));
    let tokens = decode_message(&msg).unwrap();
    let mut stream = QueryStream::new(tokens);
    let mut metadata = 0;
    let mut rows = Vec::new();
    let mut dones = 0;
    while let Some(item) = stream.next() {
        match item.unwrap() {
            QueryItem::Metadata(_) => metadata += 1,
            QueryItem::Row(r) => rows.push(r),
        }
    }
    let again = decode_message(&msg).unwrap();
    for t in &again {
        if matches!(t, ReceivedToken::Done(_)) {
            dones += 1;
        }
    }
    assert_eq!(metadata, 2);
    assert_eq!(dones, 2);
    assert_eq!(rows[0], vec![ColumnData::I32(Some(7))]);
    assert_eq!(rows[1], vec![ColumnData::Bit(Some(true)), ColumnData::U8(Some(9))]);
    assert_eq!(rows[2], vec![ColumnData::Bit(Some(false)), ColumnData::U8(Some(8))]);
}

#[test]
fn forward_to_metadata_skips_leading_tokens() {
    let mut msg = vec![0x79];
    msg.extend(0u32.to_le_bytes());
    msg.extend(colmetadata(&[(0, &[0x38], "a")]));
    let tokens = decode_message(&msg).unwrap();
    let mut stream = QueryStream::new(tokens);
    assert_eq!(stream.forward_to_metadata(), Ok(()));
    assert!(matches!(stream.next(), Some(Ok(QueryItem::Metadata(_)))));
    assert!(stream.next().is_none());
}

#[test]
fn nvarchar_row_and_env_change_decode() {
    let mut msg = vec![0xE3];
    msg.extend(3u16.to_le_bytes());
    msg.extend([8, 0, 0]);
    msg.extend(colmetadata(&[(0, &[0xE7, 0x64, 0, 0, 0, 0, 0, 0], "s")]));
    msg.push(0xD1);
    msg.extend(4u16.to_le_bytes());
    msg.extend([b'h', 0, b'i', 0]);
    let tokens = decode_message(&msg).unwrap();
    assert_eq!(tokens[0], ReceivedToken::EnvChange(vec![8, 0, 0]));
    assert_eq!(tokens[2], ReceivedToken::Row(vec![ColumnData::String(Some(vec![0x68, 0x69]))]));
}

#[test]
fn into_first_result_and_into_row() {
    let mut msg = colmetadata(&[(0, &[0x38], "a")]);
    msg.extend([0xD1, 7, 0, 0, 0]);
    msg.extend([0xD1, 8, 0, 0, 0]);
    msg.extend(done(0xFD, 0x11, 2));
    msg.extend(colmetadata(&[(0, &[0x32], "b")]));
    msg.extend([0xD1, 1]);
    msg.extend(done(0xFD, 0x10, 1));
    let rows = QueryStream::new(decode_message(&msg).unwrap()).into_first_result().unwrap();
    assert_eq!(rows, vec![vec![ColumnData::I32(Some(7))], vec![ColumnData::I32(Some(8))]]);
    let row = QueryStream::new(decode_message(&msg).unwrap()).into_row().unwrap();
    assert_eq!(row, Some(vec![ColumnData::I32(Some(7))]));
    let empty = QueryStream::new(decode_message(&done(0xFD, 0, 0)).unwrap()).into_row().unwrap();
    assert_eq!(empty, None);
}

#[test]
fn null_bitmap_row_decodes() {
    let mut msg = colmetadata(&[(0, &[0x38], "a"), (0, &[0x26, 2], "b"), (0, &[0xE7, 0x64, 0, 0, 0, 0, 0, 0], "c")]);
    // Columns a and c are null: bits 0 and 2.
    msg.extend([0xD2, 0b0000_0101, 2, 5, 0]);
    let tokens = decode_message(&msg).unwrap();
    assert_eq!(
        tokens[1],
        ReceivedToken::Row(vec![ColumnData::I32(None), ColumnData::I16(Some(5)), ColumnData::String(None)])
    );
}
