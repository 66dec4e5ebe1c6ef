use k_exercise::record::{Record, RecordError};

/// Reads a CSV text the way the input file is read: the first line is the
/// header, whose trimmed names map each following line's fields onto a
/// `Record`.
fn parse_csv(input: &str) -> Vec<Result<Record, RecordError>> {
    let mut lines = input.lines();
    let headers: Vec<Vec<u8>> = lines
        .next()
        .unwrap()
        .split(',')
        .map(|name| name.trim().as_bytes().to_vec())
        .collect();
    lines
        .filter(|line| !line.is_empty())
        .map(|line| Record::from_bytes(line.as_bytes(), &headers))
        .collect()
}

#[test]
fn parses_compact_csv_without_extra_whitespace() {
    let records = parse_csv("type,client,tx,amount\ndeposit,1,1,1.5\n");

    assert_eq!(records.len(), 1);
    let record = records[0].as_ref().unwrap();
    assert_eq!(record.transaction_type, "deposit");
    assert_eq!(record.client, 1);
    assert_eq!(record.tx, 1);
    assert_eq!(record.amount, "1.5");
}

#[test]
fn parses_csv_with_redundant_whitespace() {
    let records = parse_csv("type, client, tx, amount\n  deposit ,  1 , 1 ,  1.5000  \n");

    assert_eq!(records.len(), 1);
    let record = records[0].as_ref().unwrap();
    assert_eq!(record.transaction_type, "deposit");
    assert_eq!(record.client, 1);
    assert_eq!(record.tx, 1);
    assert_eq!(record.amount, "1.5000");
}

#[test]
fn client_id_overflowing_u16_is_rejected() {
    // u16::MAX is 65535.
    let records = parse_csv("type,client,tx,amount\ndeposit,65536,1,1.5\n");

    assert_eq!(records.len(), 1);
    assert!(records[0].is_err());
}

#[test]
fn tx_id_overflowing_u32_is_rejected() {
    // u32::MAX is 4294967295.
    let records = parse_csv("type,client,tx,amount\ndeposit,1,4294967296,1.5\n");

    assert_eq!(records.len(), 1);
    assert!(records[0].is_err());
}

#[test]
fn defined_columns_are_deserialized_into_matching_fields() {
    let records = parse_csv("type,client,tx,amount\nwithdrawal,7,42,3.1400\n");

    assert_eq!(records.len(), 1);
    let record = records[0].as_ref().unwrap();
    assert_eq!(record.transaction_type, "withdrawal");
    assert_eq!(record.client, 7);
    assert_eq!(record.tx, 42);
    assert_eq!(record.amount, "3.1400");
}

#[test]
fn unexpected_column_name_is_rejected() {
    // "kind" does not map to any `Record` field, so the required `type`
    // column is effectively missing from the header.
    let records = parse_csv("kind,client,tx,amount\ndeposit,1,1,1.5\n");

    assert_eq!(records.len(), 1);
    assert!(records[0].is_err());
}

#[test]
fn parses_multiple_rows_with_mixed_transaction_types_and_blank_amounts() {
    let records = parse_csv(
        "type,client,tx,amount\n\
         deposit,1,1,1.5\n  \
         withdrawal , 1 , 2 ,  0.75  \n\
         dispute,1,1,\n\
         resolve,1,1,\n\
         chargeback,2,5,\n",
    );

    assert_eq!(records.len(), 5);
    let records: Vec<Record> = records.into_iter().map(|r| r.unwrap()).collect();

    assert_eq!(records[0].transaction_type, "deposit");
    assert_eq!(records[0].client, 1);
    assert_eq!(records[0].tx, 1);
    assert_eq!(records[0].amount, "1.5");

    assert_eq!(records[1].transaction_type, "withdrawal");
    assert_eq!(records[1].client, 1);
    assert_eq!(records[1].tx, 2);
    assert_eq!(records[1].amount, "0.75");

    // dispute/resolve/chargeback rows carry no meaningful amount, just a
    // trailing empty column.
    assert_eq!(records[2].transaction_type, "dispute");
    assert_eq!(records[2].amount, "");
    assert_eq!(records[3].transaction_type, "resolve");
    assert_eq!(records[3].amount, "");
    assert_eq!(records[4].transaction_type, "chargeback");
    assert_eq!(records[4].client, 2);
    assert_eq!(records[4].tx, 5);
    assert_eq!(records[4].amount, "");
}

#[test]
fn row_with_missing_trailing_column_is_rejected() {
    // the `amount` column is entirely absent from this data row (not even
    // a trailing comma for an empty value), so it has fewer fields than
    // the header declares.
    let records = parse_csv("type,client,tx,amount\ndispute,1,1\n");

    assert_eq!(records.len(), 1);
    assert!(records[0].is_err());
}

fn headers(names: &[&str]) -> Vec<Vec<u8>> {
    names.iter().map(|n| n.as_bytes().to_vec()).collect()
}

#[test]
fn each_decoding_error_is_reported_by_its_kind() {
    let standard = headers(&["type", "client", "tx", "amount"]);
    assert_eq!(
        Record::from_bytes(b"dispute,1,1", &standard).unwrap_err(),
        RecordError::UnexpectedEndOfRow
    );
    assert_eq!(
        Record::from_bytes(b"deposit,1,4294967296,1.0", &standard).unwrap_err(),
        RecordError::InvalidInteger
    );
    assert_eq!(
        Record::from_bytes(b"deposit,65536,1,1.0", &standard).unwrap_err(),
        RecordError::InvalidInteger
    );
    assert_eq!(
        Record::from_bytes(b"deposit,one,1,1.0", &standard).unwrap_err(),
        RecordError::InvalidInteger
    );
    assert_eq!(
        Record::from_bytes(b"dep\xffosit,1,1,1.0", &standard).unwrap_err(),
        RecordError::InvalidUtf8
    );
    assert_eq!(
        Record::from_bytes(b"deposit,1,1,1.0", &headers(&["type", "client", "tx"])).unwrap_err(),
        RecordError::MissingField
    );
    assert_eq!(
        Record::from_bytes(
            b"deposit,deposit,1,1,1.0",
            &headers(&["type", "type", "client", "tx", "amount"])
        )
        .unwrap_err(),
        RecordError::DuplicateField
    );
}

#[test]
fn numbers_may_carry_a_plus_sign_or_a_hex_prefix() {
    let standard = headers(&["type", "client", "tx", "amount"]);
    let record = Record::from_bytes(b"deposit,+5,0x1F,2.5", &standard).unwrap();
    assert_eq!(record.client, 5);
    assert_eq!(record.tx, 31);
    assert_eq!(
        Record::from_bytes(b"deposit,+,1,2.5", &standard).unwrap_err(),
        RecordError::InvalidInteger
    );
    assert_eq!(
        Record::from_bytes(b"deposit,-1,1,2.5", &standard).unwrap_err(),
        RecordError::InvalidInteger
    );
}

#[test]
fn columns_are_matched_by_name_and_extra_columns_are_skipped() {
    let names = headers(&["amount", "note", "tx", "client", "type"]);
    let record = Record::from_bytes(b" 0.5 , hello , 9 , 4 , withdrawal ", &names).unwrap();
    assert_eq!(record.transaction_type, "withdrawal");
    assert_eq!(record.client, 4);
    assert_eq!(record.tx, 9);
    assert_eq!(record.amount, "0.5");
}

#[test]
fn record_renders_as_one_comma_separated_line() {
    let record = Record {
        transaction_type: "deposit".to_string(),
        client: 12,
        tx: 3400,
        amount: "1.25".to_string(),
    };
    assert_eq!(record.to_line(), "deposit,12,3400,1.25");
}

#[test]
fn a_record_line_reads_back_as_the_same_record() {
    let standard = headers(&["type", "client", "tx", "amount"]);
    for (kind, client, tx, amount) in [
        ("deposit", 12u16, 3400u32, "1.25"),
        ("dispute", 0, 0, ""),
        ("withdrawal", 65535, 4294967295, "0.0001"),
        ("dépôt", 7, 8, "€ 1"),
        ("заявка", 1, 2, "один"),
    ] {
        let record = Record {
            transaction_type: kind.to_string(),
            client,
            tx,
            amount: amount.to_string(),
        };
        let back = Record::from_bytes(record.to_line().as_bytes(), &standard).unwrap();
        assert_eq!(back.transaction_type, kind);
        assert_eq!(back.client, client);
        assert_eq!(back.tx, tx);
        assert_eq!(back.amount, amount);
    }
}
