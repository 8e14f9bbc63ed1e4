use csv_migrator::binary_copy::{binary_header, binary_kind, binary_trailer, parse_line, prepare_binary_record, BinaryKind};
use csv_migrator::copy_text::encode_copy_line;
use csv_migrator::fields::{create_table_sql, parse_fields, row_fits, Field, FieldInput, FieldIssue};
use csv_migrator::schema::Column;
use csv_migrator::sql::{copy_binary_sql, copy_text_sql, create_table_statement, insert_statement};
use csv_migrator::validate::{insert_values, validate_migration, ValidationIssue};

fn strings(v: &[&str]) -> Vec<String> {
    v.iter().map(|s| s.to_string()).collect()
}

fn cols() -> Vec<Column> {
    vec![
        Column { name: "a".to_string(), col_type: "integer".to_string() },
        Column { name: "b".to_string(), col_type: "real".to_string() },
    ]
}

#[test]
fn copy_line_quotes_a_field_holding_the_delimiter() {
    let line = encode_copy_line(&strings(&["a,b", "", "x"]), ',');
    assert_eq!(line, "\"a,b\",\\N,\"x\"\n");
}

#[test]
fn copy_line_doubles_inner_quotes() {
    let line = encode_copy_line(&strings(&["say \"hi\"", "\\N"]), '\t');
    assert_eq!(line, "\"say \"\"hi\"\"\"\t\"\\N\"\n");
}

#[test]
fn copy_line_is_read_back_by_a_csv_reader() {
    let fields = strings(&["a,b", "q\"uote", "multi\nline", "plain"]);
    let line = encode_copy_line(&fields, ',');
    let mut rdr = csv::ReaderBuilder::new().has_headers(false).from_reader(line.as_bytes());
    let rec = rdr.records().next().unwrap().unwrap();
    let back: Vec<String> = rec.iter().map(|s| s.to_string()).collect();
    assert_eq!(back, fields);
}

#[test]
fn empty_row_is_a_bare_line_feed() {
    assert_eq!(encode_copy_line(&Vec::new(), ','), "\n");
}

#[test]
fn create_table_quotes_identifiers() {
    assert_eq!(
        create_table_statement("t", &cols()),
        "CREATE TABLE IF NOT EXISTS \"t\" (\"a\" integer, \"b\" real)"
    );
    let odd = vec![Column { name: "we\"ird".to_string(), col_type: "text".to_string() }];
    assert_eq!(
        create_table_statement("x", &odd),
        "CREATE TABLE IF NOT EXISTS \"x\" (\"we\"\"ird\" text)"
    );
}

#[test]
fn insert_statement_has_one_placeholder_per_column() {
    assert_eq!(insert_statement("t", &cols()), "INSERT INTO \"t\" (\"a\",\"b\") VALUES (?,?)");
}

#[test]
fn copy_statements() {
    assert_eq!(
        copy_text_sql("t", &cols(), '\t'),
        "COPY \"t\" (\"a\", \"b\") FROM STDIN WITH (FORMAT csv, DELIMITER E'\\t', NULL '\\N')"
    );
    assert_eq!(
        copy_text_sql("t", &cols(), ','),
        "COPY \"t\" (\"a\", \"b\") FROM STDIN WITH (FORMAT csv, DELIMITER ',', NULL '\\N')"
    );
    assert_eq!(copy_binary_sql("t", &cols()), "COPY \"t\" (\"a\", \"b\") FROM STDIN WITH (FORMAT binary)");
}

fn field(name: &str, t: &str) -> Field {
    Field { name: name.to_string(), field_type: t.to_string() }
}

#[test]
fn server_types_follow_the_tags() {
    assert_eq!(field("x", "integer").to_postgres_type(), "INTEGER");
    assert_eq!(field("x", "number").to_postgres_type(), "NUMERIC");
    assert_eq!(field("x", "date").to_postgres_type(), "DATE");
    assert_eq!(field("x", "text").to_postgres_type(), "TEXT");
    assert_eq!(field("x", "whatever").to_postgres_type(), "TEXT");
    let sql = create_table_sql("t", &vec![field("id", "integer"), field("d", "date")]);
    assert_eq!(sql, "CREATE TABLE IF NOT EXISTS \"t\" (\"id\" INTEGER, \"d\" DATE)");
}

#[test]
fn values_are_checked_against_their_type() {
    assert!(field("x", "integer").validate_value("  "));
    assert!(field("x", "integer").validate_value("12"));
    assert!(field("x", "integer").validate_value("1.5"));
    assert!(field("x", "integer").validate_value("inf"));
    assert!(!field("x", "integer").validate_value("twelve"));
    assert!(field("x", "number").validate_value("1.5"));
    assert!(!field("x", "number").validate_value("abc"));
    assert!(field("x", "date").validate_value("2024-01-31"));
    assert!(field("x", "date").validate_value("2024-01-31 10:20:30"));
    assert!(field("x", "date").validate_value("01/31/2024"));
    assert!(!field("x", "date").validate_value("2024-02-30"));
    assert!(!field("x", "date").validate_value("yesterday"));
    assert!(field("x", "text").validate_value("anything"));
}

#[test]
fn field_definitions_are_read_in_order() {
    let ok = parse_fields(vec![
        FieldInput::Object { name: Some("a".to_string()), field_type: Some("integer".to_string()) },
        FieldInput::Object { name: Some("b".to_string()), field_type: Some("text".to_string()) },
    ])
    .ok()
    .unwrap();
    assert_eq!(ok.len(), 2);
    assert_eq!(ok[1].name, "b");
    assert_eq!(ok[1].field_type, "text");
    let e = parse_fields(vec![
        FieldInput::Object { name: Some("a".to_string()), field_type: None },
        FieldInput::NotAnObject,
    ])
    .err();
    assert_eq!(e, Some(FieldIssue::MissingType));
    assert_eq!(parse_fields(vec![FieldInput::NotAnObject]).err(), Some(FieldIssue::NotAnObject));
    assert_eq!(
        parse_fields(vec![FieldInput::Object { name: None, field_type: Some("t".to_string()) }]).err(),
        Some(FieldIssue::MissingName)
    );
}

#[test]
fn requests_are_validated_in_order() {
    assert_eq!(validate_migration(false, 0, "", ""), Err(ValidationIssue::MissingFile));
    assert_eq!(validate_migration(true, 0, "a:text", "t"), Err(ValidationIssue::ZeroBatchSize));
    assert_eq!(validate_migration(true, 10, "", "t"), Err(ValidationIssue::EmptySchema));
    assert_eq!(validate_migration(true, 10, "a:text", ""), Err(ValidationIssue::EmptyTableName));
    assert_eq!(
        validate_migration(true, 10, "a:text", "my table"),
        Err(ValidationIssue::TableNameCharacters)
    );
    assert_eq!(
        validate_migration(true, 10, "a:text", "1table"),
        Err(ValidationIssue::TableNameStartsWithDigit)
    );
    assert_eq!(validate_migration(true, 10, "a:text", "table_1"), Ok(()));
}

#[test]
fn empty_fields_are_bound_as_null() {
    assert_eq!(
        insert_values(&strings(&["1", "", "x"])),
        vec![Some("1".to_string()), None, Some("x".to_string())]
    );
}

#[test]
fn binary_header_and_trailer() {
    assert_eq!(
        binary_header(),
        vec![0x50, 0x47, 0x43, 0x4f, 0x50, 0x59, 0x0a, 0xff, 0x0d, 0x0a, 0x00, 0, 0, 0, 0, 0, 0, 0, 0]
    );
    assert_eq!(binary_trailer(), vec![0xff, 0xff]);
}

#[test]
fn binary_row_frames_each_kind() {
    let kinds = vec![
        binary_kind("integer"),
        binary_kind("number"),
        binary_kind("date"),
        binary_kind("text"),
    ];
    assert_eq!(kinds, vec![BinaryKind::Int4, BinaryKind::Float8, BinaryKind::Date, BinaryKind::Text]);
    let bits = vec![None, Some(2.5f64.to_bits()), None, None];
    let row = prepare_binary_record(&parse_line("-2,2.5,2000-01-03,hé", b',').unwrap(), &kinds, &bits).unwrap();
    let mut want: Vec<u8> = vec![0, 4];
    want.extend_from_slice(&[0, 0, 0, 4]);
    want.extend_from_slice(&(-2i32).to_be_bytes());
    want.extend_from_slice(&[0, 0, 0, 8]);
    want.extend_from_slice(&2.5f64.to_bits().to_be_bytes());
    want.extend_from_slice(&[0, 0, 0, 4]);
    want.extend_from_slice(&2i32.to_be_bytes());
    want.extend_from_slice(&[0, 0, 0, 3]);
    want.extend_from_slice("hé".as_bytes());
    assert_eq!(row, want);
}

#[test]
fn binary_row_nulls_what_does_not_read() {
    let kinds = vec![BinaryKind::Int4, BinaryKind::Int4, BinaryKind::Date, BinaryKind::Text];
    let row = prepare_binary_record(&parse_line("2147483648,,nope,", b',').unwrap(), &kinds, &Vec::new()).unwrap();
    let mut want: Vec<u8> = vec![0, 4];
    for _ in 0..4 {
        want.extend_from_slice(&[0xff, 0xff, 0xff, 0xff]);
    }
    assert_eq!(row, want);
}

#[test]
fn binary_row_takes_at_most_one_field_per_kind() {
    let row = prepare_binary_record(&parse_line("7\t8\t9", b'\t').unwrap(), &vec![BinaryKind::Int4], &Vec::new()).unwrap();
    assert_eq!(row, vec![0, 1, 0, 0, 0, 4, 0, 0, 0, 7]);
    let short = prepare_binary_record(&parse_line("7", b'\t').unwrap(), &vec![BinaryKind::Int4, BinaryKind::Text], &Vec::new()).unwrap();
    assert_eq!(short, vec![0, 1, 0, 0, 0, 4, 0, 0, 0, 7]);
}

#[test]
fn parse_line_keeps_empty_fields() {
    assert_eq!(parse_line("a,,b,", b','), Some(strings(&["a", "", "b", ""])));
    assert_eq!(parse_line("", b','), Some(Vec::new()));
}

#[test]
fn parse_line_keeps_quoted_delimiters() {
    assert_eq!(parse_line("1,\"a,b\"", b','), Some(strings(&["1", "a,b"])));
    assert_eq!(parse_line("\"say \"\"hi\"\"\"\tx", b'\t'), Some(strings(&["say \"hi\"", "x"])));
}

#[test]
fn binary_row_of_a_quoted_field() {
    let values = parse_line("1,\"a,b\"", b',').unwrap();
    let row = prepare_binary_record(&values, &vec![BinaryKind::Text, BinaryKind::Text], &Vec::new()).unwrap();
    assert_eq!(row, vec![0, 2, 0, 0, 0, 1, b'1', 0, 0, 0, 3, b'a', b',', b'b']);
}

#[test]
fn binary_dates_count_from_the_server_epoch() {
    let row = prepare_binary_record(&strings(&["1999-12-31"]), &vec![BinaryKind::Date], &Vec::new()).unwrap();
    let mut want: Vec<u8> = vec![0, 1, 0, 0, 0, 4];
    want.extend_from_slice(&(-1i32).to_be_bytes());
    assert_eq!(row, want);
}

#[test]
fn rows_are_checked_field_by_field() {
    let fields = vec![field("a", "integer"), field("b", "date")];
    assert!(row_fits(&fields, &strings(&["1", "2024-02-29", "extra"])));
    assert!(!row_fits(&fields, &strings(&["1", "2023-02-29"])));
    assert!(!row_fits(&fields, &strings(&["x"])));
    assert!(row_fits(&fields, &strings(&["1.5", "01/31/2024"])));
    assert!(row_fits(&fields, &strings(&["", ""])));
}
