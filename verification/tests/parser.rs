use k_exercise::engine::IndexBuffer;
use k_exercise::mmap_record_parser::{field_start_offset, HeaderError, MmapRecordParser};
use k_exercise::record::RecordError;
use k_exercise::client::ClientError;
use k_exercise::engine::TransactionEngine;
use k_exercise::processing::{process_records, RecordOutcome};
use k_exercise::transaction::ParseTransactionError;
use memmap2::MmapMut;

fn mapping(content: &[u8]) -> MmapMut {
    let mut mmap = MmapMut::map_anon(content.len().max(1)).unwrap();
    if content.is_empty() {
        return MmapMut::map_anon(0).unwrap_or(mmap);
    }
    mmap[..content.len()].copy_from_slice(content);
    mmap
}

fn parser(content: &str) -> MmapRecordParser {
    MmapRecordParser::new(mapping(content.as_bytes())).unwrap()
}

#[test]
fn header_columns_may_come_in_any_order_with_whitespace() {
    let mut p = parser("amount , tx,type,client\r\n1.5,7,deposit,3\n");
    assert_eq!(p.first_record_offset(), 25);
    let (offset, record) = p.next_record().unwrap();
    assert_eq!(offset, 25);
    let record = record.unwrap();
    assert_eq!(record.transaction_type, "deposit");
    assert_eq!(record.client, 3);
    assert_eq!(record.tx, 7);
    assert_eq!(record.amount, "1.5");
    assert!(p.next_record().is_none());
}

#[test]
fn file_without_line_break_has_no_header_row() {
    let result = MmapRecordParser::new(mapping(b"type,client,tx,amount"));
    match result {
        Err(e @ HeaderError::MissingHeaderRow) => assert_eq!(e.message(), "missing header row"),
        _ => panic!("expected a missing header row"),
    }
}

#[test]
fn unexpected_header_columns_are_rejected() {
    for header in ["kind,client,tx,amount\n", "type,client,tx\n", "type,client,tx,amount,extra\n", "type,type,tx,amount\n"] {
        match MmapRecordParser::new(mapping(header.as_bytes())) {
            Err(e @ HeaderError::UnexpectedColumns(_)) => {
                let text = header.trim_end_matches('\n');
                assert_eq!(e.message(), format!("unexpected header columns: '{text}'"));
            }
            _ => panic!("expected header '{header}' to be rejected"),
        }
    }
}

#[test]
fn header_with_invalid_utf8_is_reported_lossily() {
    match MmapRecordParser::new(mapping(b"type,cl\xffient,tx,amount\n")) {
        Err(HeaderError::UnexpectedColumns(text)) => assert_eq!(text, "type,cl\u{fffd}ient,tx,amount"),
        _ => panic!("expected the header to be rejected"),
    }
}

#[test]
fn header_names_are_trimmed_of_unicode_whitespace() {
    let p = MmapRecordParser::new(mapping("\u{a0}type\u{3000},client,tx,amount\n".as_bytes()));
    assert!(p.is_ok());
}

#[test]
fn next_record_skips_blank_lines_and_reports_offsets() {
    let mut p = parser("type,client,tx,amount\n\ndeposit,1,1,2.0\n\r\nwithdrawal,1,2,1.0\n\n");
    let (first, record) = p.next_record().unwrap();
    assert_eq!(first, 23);
    assert_eq!(record.unwrap().transaction_type, "deposit");
    let (second, record) = p.next_record().unwrap();
    assert_eq!(second, 41);
    assert_eq!(record.unwrap().transaction_type, "withdrawal");
    assert!(p.next_record().is_none());
    assert!(p.next_record().is_none());
}

#[test]
fn malformed_rows_are_returned_as_errors() {
    let mut p = parser("type,client,tx,amount\ndeposit,70000,1,1.0\ndeposit,1\n");
    let (_, first) = p.next_record().unwrap();
    assert_eq!(first.unwrap_err(), RecordError::InvalidInteger);
    let (_, second) = p.next_record().unwrap();
    assert_eq!(second.unwrap_err(), RecordError::UnexpectedEndOfRow);
}

#[test]
fn try_read_record_reads_the_line_at_an_offset() {
    let p = parser("type,client,tx,amount\ndeposit,1,1,2.0\ndispute,1,1,\n");
    let record = p.try_read_record(38).unwrap().unwrap();
    assert_eq!(record.transaction_type, "dispute");
    assert_eq!(record.tx, 1);
    assert!(p.try_read_record(1000).is_none());
}

#[test]
fn set_type_first_byte_marks_the_type_cell_in_place() {
    let mut p = parser("client,type,tx,amount\n1,deposit,1,2.0\n");
    assert!(p.set_type_first_byte(22, b'Z'));
    let record = p.try_read_record(22).unwrap().unwrap();
    assert_eq!(record.transaction_type, "Zeposit");
    assert!(!p.set_type_first_byte(5000, b'Z'));
}

#[test]
fn set_type_first_byte_refuses_an_empty_type_cell_at_the_end() {
    let mut p = parser("client,tx,amount,type\n1,1,2.0,\n");
    assert!(!p.set_type_first_byte(22, b'Z'));
    let record = p.try_read_record(22).unwrap().unwrap();
    assert_eq!(record.transaction_type, "");
}

#[test]
fn set_type_first_byte_refuses_an_empty_type_cell_before_other_cells() {
    let content = "type,client,tx,amount\n,1,1,1.5\n";
    let mut p = parser(content);
    assert!(!p.set_type_first_byte(22, b'Z'));
    let record = p.try_read_record(22).unwrap().unwrap();
    assert_eq!(record.transaction_type, "");
    assert_eq!(record.client, 1);
}

#[test]
fn field_start_offset_finds_the_start_of_each_field() {
    let line = b"deposit,1,22,3.5";
    assert_eq!(field_start_offset(line, 0), Some(0));
    assert_eq!(field_start_offset(line, 1), Some(8));
    assert_eq!(field_start_offset(line, 2), Some(10));
    assert_eq!(field_start_offset(line, 3), Some(13));
    assert_eq!(field_start_offset(line, 4), None);
}

#[test]
fn index_buffer_reads_back_what_was_written() {
    let width = std::mem::size_of::<usize>();
    let mut index = IndexBuffer::new(MmapMut::map_anon(4 * width).unwrap());
    assert_eq!(index.get(2), Some(0));
    assert!(index.set(2, 0x0102_0304));
    assert!(index.set(1, 77));
    assert_eq!(index.get(2), Some(0x0102_0304));
    assert_eq!(index.get(1), Some(77));
    assert_eq!(index.get(3), Some(0));
    assert_eq!(index.get(4), None);
    assert!(!index.set(4, 1));
}

#[test]
fn index_buffer_keeps_the_last_write_of_each_key() {
    let width = std::mem::size_of::<usize>();
    let mut index = IndexBuffer::new(MmapMut::map_anon(3 * width).unwrap());
    for (key, value) in [(0u32, 5usize), (2, 9), (0, 11), (2, usize::MAX)] {
        assert!(index.set(key, value));
    }
    assert_eq!(index.get(0), Some(11));
    assert_eq!(index.get(1), Some(0));
    assert_eq!(index.get(2), Some(usize::MAX));
}

#[test]
fn records_are_applied_in_order_and_failures_skipped() {
    let mut p = parser(
        "type,client,tx,amount\n\
         deposit,1,1,2.0\n\
         deposit,x,2,1.0\n\
         teleport,1,3,1.0\n\
         withdrawal,1,4,5.0\n\
         \n\
         withdrawal,1,5,0.5\n\
         deposit,2,6,1.0\n",
    );
    let mut engine = TransactionEngine::new();
    let outcomes = process_records(&mut p, &mut engine).unwrap();
    assert_eq!(outcomes.len(), 6);
    assert!(matches!(outcomes[0], RecordOutcome::Processed(_, Ok(()))));
    assert!(matches!(outcomes[1], RecordOutcome::Undecodable(_)));
    match &outcomes[2] {
        RecordOutcome::Unparsable(record, ParseTransactionError::UnknownType(t)) => {
            assert_eq!(t, "teleport");
            assert_eq!(record.tx, 3);
        }
        other => panic!("unexpected {other:?}"),
    }
    assert!(matches!(
        outcomes[3],
        RecordOutcome::Processed(_, Err(ClientError::InsufficientFunds))
    ));
    assert!(matches!(outcomes[4], RecordOutcome::Processed(_, Ok(()))));
    assert!(matches!(outcomes[5], RecordOutcome::Processed(_, Ok(()))));
    assert_eq!(engine.clients[&1].available.to_text(), "1.5");
    assert_eq!(engine.clients[&2].available.to_text(), "1.0");
}

#[test]
fn processing_stops_at_an_overflowing_record() {
    let content = "type,client,tx,amount\n\
                   deposit,1,1,79228162514264337593543950335\n\
                   deposit,2,2,1\n\
                   deposit,1,3,1\n\
                   deposit,2,4,1\n";
    let mut p = parser(content);
    let mut engine = TransactionEngine::new();
    let overflow = process_records(&mut p, &mut engine).unwrap_err();
    assert_eq!(overflow.outcomes.len(), 2);
    assert_eq!(overflow.offset, content.find("deposit,1,3").unwrap());
    assert_eq!(engine.clients[&2].available.to_text(), "1");
    assert_eq!(engine.clients[&1].transactions.len(), 1);
}
