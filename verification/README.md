# parser

Reads and writes bank transactions in three formats, with contracts proved
by Verus.

- `src/record.rs`: the record, its kind and state, their names and codes.
- `src/numbers.rs`: decimal text and big-endian bytes of the integer fields.
- `src/text.rs`: lines, UTF-8, white space and field splitting.
- `src/fields.rs`: a record from its eight textual fields.
- `src/csv_format.rs`, `src/txt_format.rs`, `src/bin_format.rs`: the formats,
  with the round-trip laws of the CSV and binary writers.
- `src/compare.rs`: the identifiers that one list of records lacks.
- `src/files.rs`: the format a file name gives.
- `app/`: file handling and the converter and comparer tools.
