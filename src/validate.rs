//! Checks on a migration request made before any work on the target.

use vstd::prelude::*;
use crate::copy_text::stored_value;
use crate::infer::fields_view;
use crate::text::chars_of;

verus! {

/// Why a migration request was refused before any work on the target.
#[derive(Clone, Copy, Debug, PartialEq, Eq, Structural)]
pub enum ValidationIssue {
    MissingFile,
    ZeroBatchSize,
    EmptySchema,
    EmptyTableName,
    /// The table name holds something other than ASCII letters, digits and
    /// underscores.
    TableNameCharacters,
    TableNameStartsWithDigit,
}

pub open spec fn is_ascii_digit(c: char) -> bool {
    '0' <= c && c <= '9'
}

pub open spec fn ident_char(c: char) -> bool {
    ('a' <= c && c <= 'z') || ('A' <= c && c <= 'Z') || is_ascii_digit(c) || c == '_'
}

/// The checks a request goes through, in order; the first that fails is
/// reported.
pub open spec fn validation_of(
    file_exists: bool,
    batch_size: usize,
    schema: Seq<char>,
    table: Seq<char>,
) -> Result<(), ValidationIssue> {
    if !file_exists {
        Err(ValidationIssue::MissingFile)
    } else if batch_size == 0 {
        Err(ValidationIssue::ZeroBatchSize)
    } else if schema.len() == 0 {
        Err(ValidationIssue::EmptySchema)
    } else if table.len() == 0 {
        Err(ValidationIssue::EmptyTableName)
    } else if !(forall|i: int| 0 <= i < table.len() ==> ident_char(#[trigger] table[i])) {
        Err(ValidationIssue::TableNameCharacters)
    } else if is_ascii_digit(table[0]) {
        Err(ValidationIssue::TableNameStartsWithDigit)
    } else {
        Ok(())
    }
}

fn ident_char_exec(c: char) -> (r: bool)
    ensures
        r == ident_char(c),
{
    ('a' <= c && c <= 'z') || ('A' <= c && c <= 'Z') || ('0' <= c && c <= '9') || c == '_'
}

/// Checks a migration request: the file exists, the batch size is not
/// zero, the schema is not empty, and the table name is a plain identifier.
pub fn validate_migration(file_exists: bool, batch_size: usize, schema: &str, table_name: &str) -> (r:
    Result<(), ValidationIssue>)
    ensures
        r == validation_of(file_exists, batch_size, schema@, table_name@),
{
    if !file_exists {
        return Err(ValidationIssue::MissingFile);
    }
    if batch_size == 0 {
        return Err(ValidationIssue::ZeroBatchSize);
    }
    if schema.is_empty() {
        return Err(ValidationIssue::EmptySchema);
    }
    let t = chars_of(table_name);
    if t.len() == 0 {
        return Err(ValidationIssue::EmptyTableName);
    }
    let mut k: usize = 0;
    while k < t.len()
        invariant
            k <= t.len(),
            t@ == table_name@,
            file_exists,
            batch_size != 0,
            schema@.len() != 0,
            t.len() != 0,
            forall|i: int| 0 <= i < k ==> ident_char(#[trigger] t@[i]),
        decreases t.len() - k,
    {
        if !ident_char_exec(t[k]) {
            assert(!ident_char(table_name@[k as int]));
            return Err(ValidationIssue::TableNameCharacters);
        }
        k = k + 1;
    }
    if '0' <= t[0] && t[0] <= '9' {
        return Err(ValidationIssue::TableNameStartsWithDigit);
    }
    Ok(())
}

pub open spec fn values_view(v: Seq<Option<String>>) -> Seq<Option<Seq<char>>> {
    v.map_values(
        |o: Option<String>|
            match o {
                Some(s) => Some(s@),
                None => None,
            },
    )
}

/// The values bound to an insert statement for one row: an empty field is
/// bound as NULL.
pub fn insert_values(fields: &Vec<String>) -> (r: Vec<Option<String>>)
    ensures
        values_view(r@) == fields_view(fields@).map_values(|f: Seq<char>| stored_value(f)),
{
    let mut r: Vec<Option<String>> = Vec::new();
    let mut k: usize = 0;
    while k < fields.len()
        invariant
            k <= fields.len(),
            values_view(r@) == fields_view(fields@).map_values(
                |f: Seq<char>| stored_value(f),
            ).take(k as int),
        decreases fields.len() - k,
    {
        let v = if fields[k].as_str().is_empty() {
            None
        } else {
            Some(fields[k].clone())
        };
        let ghost before = r@;
        r.push(v);
        assert(values_view(r@) =~= values_view(before).push(stored_value(fields@[k as int]@)));
        assert(fields_view(fields@)[k as int] == fields@[k as int]@);
        k = k + 1;
        assert(values_view(r@) =~= fields_view(fields@).map_values(
            |f: Seq<char>| stored_value(f),
        ).take(k as int));
    }
    assert(fields_view(fields@).map_values(|f: Seq<char>| stored_value(f)).take(k as int)
        =~= fields_view(fields@).map_values(|f: Seq<char>| stored_value(f)));
    r
}

} // verus!
