use k_exercise::amount::Amount;
use k_exercise::client::{output_header_row, Client};
use rust_decimal::Decimal;
use std::str::FromStr;

/// The decimal with the parts of `amount`.
fn to_decimal(amount: &Amount) -> Decimal {
    let (negative, magnitude, scale) = amount.parts();
    let mut d = Decimal::from_i128_with_scale(magnitude as i128, scale);
    d.set_sign_negative(negative);
    d
}

/// Parses an output field as a decimal.
fn parse_decimal(field: &str) -> Decimal {
    Decimal::from_str(field).unwrap()
}

/// Serializes `client` the same way the binary does (through a `csv::Writer`)
/// and returns its `(client, available, held, total, locked)` fields as
/// strings, as they would appear in the output CSV row.
fn serialize_client(client: &Client) -> (String, String, String, String, String) {
    let mut writer = csv::Writer::from_writer(vec![]);
    writer.write_record(output_header_row()).unwrap();
    writer.write_record(client.try_output_row().unwrap()).unwrap();
    let output = String::from_utf8(writer.into_inner().unwrap()).unwrap();

    let mut lines = output.lines();
    assert_eq!(lines.next().unwrap(), "client,available,held,total,locked");
    let fields: Vec<&str> = lines.next().unwrap().split(',').collect();
    assert_eq!(fields.len(), 5);

    (
        fields[0].to_string(),
        fields[1].to_string(),
        fields[2].to_string(),
        fields[3].to_string(),
        fields[4].to_string(),
    )
}

#[test]
fn serialized_total_equals_available_plus_held() {
    let cases = [
        (Amount::new(0, 0), Amount::new(0, 0)),
        (Amount::new(100, 0), Amount::new(0, 0)),
        (Amount::new(15, 1), Amount::new(225, 2)),
        (Amount::new(-105, 1), Amount::new(325, 2)),
        (Amount::new(9999999, 4), Amount::new(1, 4)),
        (Amount::new(-50, 1), Amount::new(-50, 1)),
    ];

    for (id, (available, held)) in cases.into_iter().enumerate() {
        let mut client = Client::new(id as u16);
        client.available = available;
        client.held = held;

        let (_, available_field, held_field, total_field, _) = serialize_client(&client);

        assert_eq!(parse_decimal(&available_field), to_decimal(&available));
        assert_eq!(parse_decimal(&held_field), to_decimal(&held));
        assert_eq!(
            parse_decimal(&total_field),
            to_decimal(&available) + to_decimal(&held),
            "total should equal available + held for client {id}"
        );
    }
}

#[test]
fn serializes_available_balance_with_various_decimal_precisions() {
    let values = [Amount::new(0, 0), Amount::new(5, 0), Amount::new(51, 1), Amount::new(512, 2), Amount::new(5123, 3), Amount::new(51234, 4)];

    for (id, available) in values.into_iter().enumerate() {
        let mut client = Client::new(id as u16);
        client.available = available;

        let (_, available_field, ..) = serialize_client(&client);
        assert_eq!(available_field, to_decimal(&available).to_string());
    }
}

#[test]
fn serializes_held_balance_with_various_decimal_precisions() {
    let values = [Amount::new(0, 0), Amount::new(5, 0), Amount::new(51, 1), Amount::new(512, 2), Amount::new(5123, 3), Amount::new(51234, 4)];

    for (id, held) in values.into_iter().enumerate() {
        let mut client = Client::new(id as u16);
        client.held = held;

        let (_, _, held_field, ..) = serialize_client(&client);
        assert_eq!(held_field, to_decimal(&held).to_string());
    }
}

#[test]
fn serializes_negative_available_balance_correctly() {
    // `available` can legitimately go negative (see README), so its sign
    // must round-trip through serialization exactly.
    let values = [
        Amount::new(-1, 0),
        Amount::new(-5, 1),
        Amount::new(-12345678, 4),
        Amount::new(-1, 4),
        Amount::new(-100, 0),
    ];

    for (id, available) in values.into_iter().enumerate() {
        let mut client = Client::new(id as u16);
        client.available = available;

        let (_, available_field, .., total_field, _) = serialize_client(&client);
        assert_eq!(available_field, to_decimal(&available).to_string());
        assert!(available_field.starts_with('-'));
        assert_eq!(parse_decimal(&total_field), to_decimal(&available));
    }
}

#[test]
fn serializes_locked_flag_correctly() {
    let mut unlocked = Client::new(1);
    unlocked.locked = false;
    let (.., locked_field) = serialize_client(&unlocked);
    assert_eq!(locked_field, "false");

    let mut locked = Client::new(2);
    locked.locked = true;
    let (.., locked_field) = serialize_client(&locked);
    assert_eq!(locked_field, "true");
}

#[test]
fn serializes_client_id_correctly() {
    for id in [0u16, 1, 42, 1000, u16::MAX] {
        let client = Client::new(id);

        let (client_field, ..) = serialize_client(&client);
        assert_eq!(client_field, id.to_string());
    }
}
