# k_exercise

A bank transaction processor, verified with Verus. It reads a CSV file of
client transactions (`deposit`, `withdrawal`, `dispute`, `resolve`,
`chargeback`), applies them in order to per-client accounts, and writes the
resulting balances as CSV.

## Layout

- `src/` — the verified library.
  - `amount.rs`: decimal amounts (sign, 96-bit magnitude, scale); all
    arithmetic, comparison, rounding, parsing and rendering is done by
    `rust_decimal` behind small trusted wrappers.
  - `record.rs`: decoding one CSV line into a `Record`, with the columns
    mapped by header name (the `csv` crate splits and trims the fields).
  - `transaction.rs`: turning a record into a `Transaction` (type names,
    the in-place dispute marks `Zeposit` and `Zithdrawal`, amount validation).
  - `client.rs`: the account rules, stated over an abstract `ClientModel`,
    and the output row of an account.
  - `engine.rs`: routing transactions to accounts by client id (each
    account keeps its own transaction history in memory); a little-endian
    index over any memory map, with read-after-write proved.
  - `mmap_record_parser.rs`: header validation and record-by-record reading
    of a memory-mapped input file.
  - `processing.rs`: applying the file's records to the accounts in order,
    skipping lines that do not decode, records that are not transactions,
    and transactions that are rejected; stopping at an overflow.
  - `laws.rs`: properties across transactions (locks are permanent, a
    transaction is disputed at most once, resolve undoes a dispute,
    chargebacks reverse, clients are isolated, held and available funds
    follow the transaction history, a record line reads back as the same
    record, columns match by name, ...).
  - `text.rs`: decimal rendering of integers.
- `tests/` — tests run against the compiled library with the real outside
  crates linked.
- `app/` — the command-line program: argument handling, opening and mapping
  the file, printing the outcome of each skipped or rejected record on
  stderr, writing the CSV output.

## Usage

```sh
k_exercise input.csv > accounts.csv
```

The input file is mapped read-write, as the parser can mark a record's type
cell in place (`set_type_first_byte`); processing itself does not modify it.
