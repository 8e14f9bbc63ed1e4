//! Field definitions of the server target: their native types and the
//! checks a value must pass to fit one.

use vstd::prelude::*;
use crate::infer::{parses_as_f64, parses_as_float};
use crate::schema::{Column, columns_view};
use crate::sql::{create_table_statement, create_table_text};
use crate::text::{chars_of, trim, trim_range};

verus! {

/// A column as the server target describes it: a name and a semantic type
/// tag (`integer`, `number`, `date` or `text`).
pub struct Field {
    pub name: String,
    pub field_type: String,
}

/// A field definition as it arrives from the caller: either something that
/// is not an object, or an object with a string `name` and a string `type`
/// where present.
pub enum FieldInput {
    NotAnObject,
    Object { name: Option<String>, field_type: Option<String> },
}

/// Why a field definition was refused.
#[derive(Clone, Copy, Debug, PartialEq, Eq, Structural)]
pub enum FieldIssue {
    NotAnObject,
    MissingName,
    MissingType,
}

pub open spec fn postgres_type_of(tag: Seq<char>) -> Seq<char> {
    if tag == "integer"@ {
        "INTEGER"@
    } else if tag == "number"@ {
        "NUMERIC"@
    } else if tag == "date"@ {
        "DATE"@
    } else {
        "TEXT"@
    }
}

/// The date formats a `date` value may be written in.
pub open spec fn date_format() -> Seq<char> {
    "%Y-%m-%d"@
}

pub open spec fn datetime_format() -> Seq<char> {
    "%Y-%m-%d %H:%M:%S"@
}

pub open spec fn us_date_format() -> Seq<char> {
    "%m/%d/%Y"@
}

/// The day number of the date that `s` names under format `fmt`, counted
/// with 1 January of year 1 as day 1; `None` where `s` names no date.
pub uninterp spec fn naive_date_of(s: Seq<char>, fmt: Seq<char>) -> Option<int>;

/// Whether `s` names a date and time under format `fmt`.
pub uninterp spec fn naive_datetime_ok_of(s: Seq<char>, fmt: Seq<char>) -> bool;

/// Relies on `chrono::NaiveDate::parse_from_str`, with the date that comes
/// out given as its `num_days_from_ce`.
#[verifier::external_body]
pub(crate) fn parse_date(s: &str, fmt: &str) -> (r: Option<i32>)
    ensures
        match r {
            Some(d) => naive_date_of(s@, fmt@) == Some(d as int),
            None => naive_date_of(s@, fmt@) is None,
        },
{
    chrono::NaiveDate::parse_from_str(s, fmt).ok().map(|d| chrono::Datelike::num_days_from_ce(&d))
}

/// Relies on `chrono::NaiveDateTime::parse_from_str` succeeding or not.
#[verifier::external_body]
fn datetime_parses(s: &str, fmt: &str) -> (r: bool)
    ensures
        r == naive_datetime_ok_of(s@, fmt@),
{
    chrono::NaiveDateTime::parse_from_str(s, fmt).is_ok()
}

/// Whether `value` fits a field of type tag `tag`: empty or blank values
/// always do; `integer` and `number` need a value that reads as a float,
/// `date` a date in one of the accepted formats; any other tag takes any
/// text.
pub open spec fn value_fits(tag: Seq<char>, value: Seq<char>) -> bool {
    if trim(value).len() == 0 {
        true
    } else if tag == "integer"@ || tag == "number"@ {
        parses_as_f64(value)
    } else if tag == "date"@ {
        naive_date_of(value, date_format()) is Some || naive_datetime_ok_of(
            value,
            datetime_format(),
        ) || naive_date_of(value, us_date_format()) is Some
    } else {
        true
    }
}

pub(crate) fn str_eq(a: &str, b: &str) -> (r: bool)
    ensures
        r == (a@ == b@),
{
    let x = a.to_owned();
    let y = b.to_owned();
    x == y
}

impl Field {
    /// The server's native column type for this field's type tag.
    pub fn to_postgres_type(&self) -> (r: String)
        ensures
            r@ == postgres_type_of(self.field_type@),
    {
        let t = self.field_type.as_str();
        if str_eq(t, "integer") {
            "INTEGER".to_owned()
        } else if str_eq(t, "number") {
            "NUMERIC".to_owned()
        } else if str_eq(t, "date") {
            "DATE".to_owned()
        } else {
            "TEXT".to_owned()
        }
    }

    /// Whether `value` fits this field's type.
    pub fn validate_value(&self, value: &str) -> (r: bool)
        ensures
            r == value_fits(self.field_type@, value@),
    {
        let cs = chars_of(value);
        let (a, b) = trim_range(&cs, 0, cs.len());
        assert(cs@.subrange(0, cs@.len() as int) =~= value@);
        if a == b {
            return true;
        }
        let t = self.field_type.as_str();
        if str_eq(t, "integer") || str_eq(t, "number") {
            parses_as_float(&cs)
        } else if str_eq(t, "date") {
            parse_date(value, "%Y-%m-%d").is_some() || datetime_parses(value, "%Y-%m-%d %H:%M:%S")
                || parse_date(value, "%m/%d/%Y").is_some()
        } else {
            true
        }
    }
}

pub open spec fn field_of(f: FieldInput) -> Result<(Seq<char>, Seq<char>), FieldIssue> {
    match f {
        FieldInput::NotAnObject => Err(FieldIssue::NotAnObject),
        FieldInput::Object { name, field_type } => match name {
            None => Err(FieldIssue::MissingName),
            Some(n) => match field_type {
                None => Err(FieldIssue::MissingType),
                Some(t) => Ok((n@, t@)),
            },
        },
    }
}

/// The fields of the definitions, or the issue of the first refused one.
pub open spec fn fields_of(fs: Seq<FieldInput>) -> Result<Seq<(Seq<char>, Seq<char>)>, FieldIssue>
    decreases fs.len(),
{
    if fs.len() == 0 {
        Ok(Seq::empty())
    } else {
        match fields_of(fs.drop_last()) {
            Err(e) => Err(e),
            Ok(v) => match field_of(fs.last()) {
                Ok(f) => Ok(v.push(f)),
                Err(e) => Err(e),
            },
        }
    }
}

pub open spec fn defs_view(v: Seq<Field>) -> Seq<(Seq<char>, Seq<char>)> {
    v.map_values(|f: Field| (f.name@, f.field_type@))
}

proof fn lemma_fields_err_extends(fs: Seq<FieldInput>, k: int)
    requires
        0 <= k <= fs.len(),
        fields_of(fs.take(k)) is Err,
    ensures
        fields_of(fs) == fields_of(fs.take(k)),
    decreases fs.len() - k,
{
    if k < fs.len() {
        assert(fs.take(k + 1).drop_last() =~= fs.take(k));
        lemma_fields_err_extends(fs, k + 1);
    } else {
        assert(fs.take(k) =~= fs);
    }
}

/// Reads the caller's field definitions, stopping at the first one that is
/// not an object or lacks a name or a type.
pub fn parse_fields(fields: Vec<FieldInput>) -> (r: Result<Vec<Field>, FieldIssue>)
    ensures
        match r {
            Ok(v) => fields_of(fields@) == Ok::<_, FieldIssue>(defs_view(v@)),
            Err(e) => fields_of(fields@) == Err::<Seq<(Seq<char>, Seq<char>)>, _>(e),
        },
{
    let ghost all = fields@;
    let mut out: Vec<Field> = Vec::new();
    let mut input = fields;
    let mut k: usize = 0;
    let n = input.len();
    assert(all.take(0) =~= Seq::<FieldInput>::empty());
    assert(defs_view(out@) =~= Seq::<(Seq<char>, Seq<char>)>::empty());
    assert(input@ =~= all.skip(0));
    while k < n
        invariant
            n == all.len(),
            all == fields@,
            k <= n,
            input@ == all.skip(k as int),
            fields_of(all.take(k as int)) == Ok::<_, FieldIssue>(defs_view(out@)),
        decreases n - k,
    {
        assert(input@[0] == all[k as int]);
        let f = input.remove(0);
        assert(input@ =~= all.skip(k + 1));
        assert(all.take(k + 1).drop_last() =~= all.take(k as int));
        assert(all.take(k + 1).last() == f);
        match f {
            FieldInput::NotAnObject => {
                proof {
                    lemma_fields_err_extends(all, k + 1);
                }
                return Err(FieldIssue::NotAnObject);
            },
            FieldInput::Object { name, field_type } => {
                match name {
                    None => {
                        proof {
                            lemma_fields_err_extends(all, k + 1);
                        }
                        return Err(FieldIssue::MissingName);
                    },
                    Some(name) => match field_type {
                        None => {
                            proof {
                                lemma_fields_err_extends(all, k + 1);
                            }
                            return Err(FieldIssue::MissingType);
                        },
                        Some(field_type) => {
                            let ghost before = out@;
                            out.push(Field { name, field_type });
                            assert(defs_view(out@) =~= defs_view(before).push(
                                (name@, field_type@),
                            ));
                        },
                    },
                }
            },
        }
        k = k + 1;
    }
    assert(all.take(n as int) =~= all);
    Ok(out)
}

/// The columns of the server table: each field's name with its native type.
pub open spec fn server_columns(fs: Seq<(Seq<char>, Seq<char>)>) -> Seq<(Seq<char>, Seq<char>)> {
    fs.map_values(|f: (Seq<char>, Seq<char>)| (f.0, postgres_type_of(f.1)))
}

/// The columns that a list of fields stands for at the server.
pub fn server_table_columns(fields: &Vec<Field>) -> (r: Vec<Column>)
    ensures
        columns_view(r@) == server_columns(defs_view(fields@)),
{
    let mut r: Vec<Column> = Vec::new();
    let mut k: usize = 0;
    while k < fields.len()
        invariant
            k <= fields.len(),
            columns_view(r@) == server_columns(defs_view(fields@)).take(k as int),
        decreases fields.len() - k,
    {
        let ghost before = r@;
        let name = fields[k].name.clone();
        let col_type = fields[k].to_postgres_type();
        r.push(Column { name, col_type });
        assert(columns_view(r@) =~= columns_view(before).push((name@, col_type@)));
        assert(server_columns(defs_view(fields@))[k as int] == (
            fields@[k as int].name@,
            postgres_type_of(fields@[k as int].field_type@),
        ));
        k = k + 1;
        assert(columns_view(r@) =~= server_columns(defs_view(fields@)).take(k as int));
    }
    assert(server_columns(defs_view(fields@)).take(k as int) =~= server_columns(
        defs_view(fields@),
    ));
    r
}

/// The statement that creates the server table for the given fields.
pub fn create_table_sql(table_name: &str, fields: &Vec<Field>) -> (r: String)
    ensures
        r@ == create_table_text(table_name@, server_columns(defs_view(fields@))),
{
    let cols = server_table_columns(fields);
    create_table_statement(table_name, &cols)
}

/// Whether every value fits the field at its position; values past the
/// last field are not checked.
pub open spec fn row_fits_spec(fs: Seq<(Seq<char>, Seq<char>)>, values: Seq<Seq<char>>) -> bool {
    forall|i: int| 0 <= i < values.len() && i < fs.len() ==> value_fits(#[trigger] fs[i].1, values[i])
}

/// Checks a row against the field types, for loads that skip rows whose
/// values do not fit.
pub fn row_fits(fields: &Vec<Field>, values: &Vec<String>) -> (r: bool)
    ensures
        r == row_fits_spec(defs_view(fields@), crate::infer::fields_view(values@)),
{
    let mut k: usize = 0;
    while k < values.len() && k < fields.len()
        invariant
            k <= values.len(),
            forall|i: int|
                0 <= i < k && i < fields.len() ==> value_fits(
                    #[trigger] defs_view(fields@)[i].1,
                    crate::infer::fields_view(values@)[i],
                ),
        decreases values.len() - k,
    {
        if !fields[k].validate_value(values[k].as_str()) {
            assert(!value_fits(
                defs_view(fields@)[k as int].1,
                crate::infer::fields_view(values@)[k as int],
            ));
            return false;
        }
        k = k + 1;
    }
    true
}

} // verus!
