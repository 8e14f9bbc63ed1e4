use csv_migrator::infer::{get_csv_schema, infer_column_types, infer_field_type, schema_from_sample, InferredType, SampleIssue};
use csv_migrator::schema::{parse_schema, serialize_schema, Column, SchemaIssue};

fn col(name: &str, t: &str) -> Column {
    Column { name: name.to_string(), col_type: t.to_string() }
}

fn pairs(cols: &[Column]) -> Vec<(String, String)> {
    cols.iter().map(|c| (c.name.clone(), c.col_type.clone())).collect()
}

#[test]
fn parse_schema_trims_names_and_types() {
    let cols = parse_schema(" a : integer ,b:real").ok().unwrap();
    assert_eq!(
        pairs(&cols),
        vec![("a".to_string(), "integer".to_string()), ("b".to_string(), "real".to_string())]
    );
}

#[test]
fn parse_schema_rejects_a_piece_without_colon() {
    let e = parse_schema("a:integer,b").err().unwrap();
    assert_eq!(e.issue, SchemaIssue::NotAPair);
    assert_eq!(e.pair, "b");
}

#[test]
fn parse_schema_rejects_two_colons() {
    let e = parse_schema("a:integer:x").err().unwrap();
    assert_eq!(e.issue, SchemaIssue::NotAPair);
    assert_eq!(e.pair, "a:integer:x");
}

#[test]
fn parse_schema_rejects_blank_type() {
    let e = parse_schema("a:integer,b:  ").err().unwrap();
    assert_eq!(e.issue, SchemaIssue::EmptyToken);
    assert_eq!(e.pair, "b:  ");
}

#[test]
fn parse_schema_rejects_empty_string() {
    let e = parse_schema("").err().unwrap();
    assert_eq!(e.issue, SchemaIssue::NotAPair);
}

#[test]
fn schema_string_round_trips() {
    let cols = vec![col("id", "integer"), col("price", "real"), col("label", "text")];
    let s = serialize_schema(&cols);
    assert_eq!(s, "id:integer,price:real,label:text");
    let back = parse_schema(&s).ok().unwrap();
    assert_eq!(pairs(&back), pairs(&cols));
}

#[test]
fn inferred_schema_of_small_file() {
    let s = get_csv_schema(b"a,b,c\n1,2.5,hello\n").ok().unwrap();
    assert_eq!(s, "a:integer,b:real,c:text");
}

#[test]
fn inferred_schema_with_tabs() {
    let s = get_csv_schema(b"x\ty\n7\tz\n").ok().unwrap();
    assert_eq!(s, "x:integer,y:text");
}

#[test]
fn inferred_schema_trims_fields() {
    let s = get_csv_schema(b"a , b\n 3 , 4.0 \n").ok().unwrap();
    assert_eq!(s, "a:integer,b:real");
}

#[test]
fn header_only_file_gives_text_columns() {
    let s = get_csv_schema(b"a,b\n").ok().unwrap();
    assert_eq!(s, "a:text,b:text");
}

#[test]
fn short_first_record_pads_with_text() {
    let s = get_csv_schema(b"a,b,c\n1\n").ok().unwrap();
    assert_eq!(s, "a:integer,b:text,c:text");
}

#[test]
fn no_delimiter_is_refused() {
    assert_eq!(get_csv_schema(b"abc\n123\n").err(), Some(SampleIssue::NoDelimiter));
}

#[test]
fn field_types_follow_the_parse_order() {
    assert_eq!(infer_field_type("42"), InferredType::Integer);
    assert_eq!(infer_field_type("+7"), InferredType::Integer);
    assert_eq!(infer_field_type("-9223372036854775808"), InferredType::Integer);
    assert_eq!(infer_field_type("9223372036854775808"), InferredType::Real);
    assert_eq!(infer_field_type("2.5"), InferredType::Real);
    assert_eq!(infer_field_type(".5"), InferredType::Real);
    assert_eq!(infer_field_type("5."), InferredType::Real);
    assert_eq!(infer_field_type("1e5"), InferredType::Real);
    assert_eq!(infer_field_type("-1.5E-3"), InferredType::Real);
    assert_eq!(infer_field_type("inf"), InferredType::Real);
    assert_eq!(infer_field_type("-Infinity"), InferredType::Real);
    assert_eq!(infer_field_type("NaN"), InferredType::Real);
    assert_eq!(infer_field_type("."), InferredType::Text);
    assert_eq!(infer_field_type("1e"), InferredType::Text);
    assert_eq!(infer_field_type("-"), InferredType::Text);
    assert_eq!(infer_field_type(""), InferredType::Text);
    assert_eq!(infer_field_type("hello"), InferredType::Text);
    assert_eq!(infer_field_type("1,5"), InferredType::Text);
}

#[test]
fn field_type_recognisers_agree_with_std() {
    let samples = [
        "0", "-0", "+1", "12a", "1.2.3", "e3", "1e+3", "1e-", "infinity", "INF", "nan", " 1", "1 ",
        "00012", "9223372036854775807", "-9223372036854775809", "1_000", "0x10", "+", "+.",
    ];
    for s in samples {
        let expected = if s.parse::<i64>().is_ok() {
            InferredType::Integer
        } else if s.parse::<f64>().is_ok() {
            InferredType::Real
        } else {
            InferredType::Text
        };
        assert_eq!(infer_field_type(s), expected, "value {:?}", s);
    }
}

#[test]
fn widening_never_narrows() {
    let rows = vec![
        vec!["1".to_string(), "x".to_string(), "1".to_string()],
        vec!["2.5".to_string(), "1".to_string(), "2".to_string()],
    ];
    let t = infer_column_types(4, &rows);
    assert_eq!(
        t,
        vec![InferredType::Real, InferredType::Text, InferredType::Integer, InferredType::Text]
    );
}

#[test]
fn sample_skips_unreadable_and_empty_records() {
    let header = vec!["a".to_string(), "b".to_string()];
    let records = vec![None, Some(vec![]), Some(vec!["3".to_string(), "x".to_string()])];
    assert_eq!(schema_from_sample(&header, records), "a:integer,b:text");
}
