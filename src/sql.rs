//! The SQL statements that create the target table and load rows into it.

use vstd::prelude::*;
use crate::copy_text::{escape, push_escaped};
use crate::schema::{Column, columns_view};
use crate::text::{chars_of, push_char};

verus! {

/// A name as a quoted SQL identifier, inner quotes doubled.
pub open spec fn quote_ident(n: Seq<char>) -> Seq<char> {
    seq!['"'] + escape(n) + seq!['"']
}

/// `parts` joined by `sep`.
pub open spec fn join_with(parts: Seq<Seq<char>>, sep: Seq<char>) -> Seq<char>
    decreases parts.len(),
{
    if parts.len() == 0 {
        Seq::empty()
    } else if parts.len() == 1 {
        parts[0]
    } else {
        join_with(parts.drop_last(), sep) + sep + parts.last()
    }
}

pub open spec fn column_definition(c: (Seq<char>, Seq<char>)) -> Seq<char> {
    quote_ident(c.0) + seq![' '] + c.1
}

/// `CREATE TABLE IF NOT EXISTS "t" ("a" type, ...)`.
pub open spec fn create_table_text(table: Seq<char>, cols: Seq<(Seq<char>, Seq<char>)>) -> Seq<
    char,
> {
    "CREATE TABLE IF NOT EXISTS "@ + quote_ident(table) + " ("@ + join_with(
        cols.map_values(|c: (Seq<char>, Seq<char>)| column_definition(c)),
        ", "@,
    ) + ")"@
}

/// `INSERT INTO "t" ("a","b") VALUES (?,?)`.
pub open spec fn insert_text(table: Seq<char>, cols: Seq<(Seq<char>, Seq<char>)>) -> Seq<char> {
    "INSERT INTO "@ + quote_ident(table) + " ("@ + join_with(
        cols.map_values(|c: (Seq<char>, Seq<char>)| quote_ident(c.0)),
        ","@,
    ) + ") VALUES ("@ + join_with(
        cols.map_values(|c: (Seq<char>, Seq<char>)| seq!['?']),
        ","@,
    ) + ")"@
}

/// The delimiter as the server's copy options write it.
pub open spec fn delimiter_option(d: char) -> Seq<char> {
    if d == '\t' {
        "E'\\t'"@
    } else if d == ';' {
        "';'"@
    } else {
        "','"@
    }
}

/// The copy statement for the text framing: CSV mode with the given
/// delimiter and `\N` for NULL.
pub open spec fn copy_text_statement(
    table: Seq<char>,
    cols: Seq<(Seq<char>, Seq<char>)>,
    d: char,
) -> Seq<char> {
    "COPY "@ + quote_ident(table) + " ("@ + join_with(
        cols.map_values(|c: (Seq<char>, Seq<char>)| quote_ident(c.0)),
        ", "@,
    ) + ") FROM STDIN WITH (FORMAT csv, DELIMITER "@ + delimiter_option(d) + ", NULL '\\N')"@
}

/// The copy statement for the binary framing.
pub open spec fn copy_binary_statement(table: Seq<char>, cols: Seq<(Seq<char>, Seq<char>)>) -> Seq<
    char,
> {
    "COPY "@ + quote_ident(table) + " ("@ + join_with(
        cols.map_values(|c: (Seq<char>, Seq<char>)| quote_ident(c.0)),
        ", "@,
    ) + ") FROM STDIN WITH (FORMAT binary)"@
}

/// Appends `n` as a quoted identifier.
fn push_ident(s: &mut String, n: &str)
    ensures
        final(s)@ == old(s)@ + quote_ident(n@),
{
    let cs = chars_of(n);
    push_char(s, '"');
    push_escaped(s, &cs);
    push_char(s, '"');
    assert(s@ =~= old(s)@ + quote_ident(n@));
}

/// Which list a column contributes to a statement.
#[derive(Clone, Copy, PartialEq, Eq, Structural)]
enum ListItem {
    Definition,
    Name,
    Placeholder,
}

spec fn item_text(item: ListItem, c: (Seq<char>, Seq<char>)) -> Seq<char> {
    match item {
        ListItem::Definition => column_definition(c),
        ListItem::Name => quote_ident(c.0),
        ListItem::Placeholder => seq!['?'],
    }
}

/// Appends one item for each column, joined by `sep`.
fn push_column_list(s: &mut String, cols: &Vec<Column>, item: ListItem, sep: &str)
    ensures
        final(s)@ == old(s)@ + join_with(
            columns_view(cols@).map_values(|c: (Seq<char>, Seq<char>)| item_text(item, c)),
            sep@,
        ),
{
    let ghost parts = columns_view(cols@).map_values(
        |c: (Seq<char>, Seq<char>)| item_text(item, c),
    );
    let mut k: usize = 0;
    assert(parts.take(0) =~= Seq::<Seq<char>>::empty());
    assert(old(s)@ + join_with(parts.take(0), sep@) =~= old(s)@);
    while k < cols.len()
        invariant
            k <= cols.len(),
            parts == columns_view(cols@).map_values(
                |c: (Seq<char>, Seq<char>)| item_text(item, c),
            ),
            s@ == old(s)@ + join_with(parts.take(k as int), sep@),
        decreases cols.len() - k,
    {
        let ghost before = s@;
        if k > 0 {
            s.append(sep);
        }
        proof {
            reveal_strlit(" ");
            reveal_strlit("?");
        }
        match item {
            ListItem::Definition => {
                push_ident(s, cols[k].name.as_str());
                s.append(" ");
                s.append(cols[k].col_type.as_str());
            },
            ListItem::Name => {
                push_ident(s, cols[k].name.as_str());
            },
            ListItem::Placeholder => {
                s.append("?");
            },
        }
        proof {
            let t = parts.take(k + 1);
            assert(t.drop_last() =~= parts.take(k as int));
            assert(t.last() == item_text(item, cols@[k as int]@));
            if k == 0 {
                assert(join_with(t, sep@) == t[0]);
            }
            assert(s@ =~= old(s)@ + join_with(t, sep@));
        }
        k = k + 1;
    }
    assert(parts.take(cols.len() as int) =~= parts);
}

/// The statement that creates the table, with each column's type as given.
pub fn create_table_statement(table_name: &str, cols: &Vec<Column>) -> (r: String)
    ensures
        r@ == create_table_text(table_name@, columns_view(cols@)),
{
    let mut s = String::new();
    s.append("CREATE TABLE IF NOT EXISTS ");
    push_ident(&mut s, table_name);
    s.append(" (");
    push_column_list(&mut s, cols, ListItem::Definition, ", ");
    s.append(")");
    proof {
        let v = columns_view(cols@);
        assert(v.map_values(|c: (Seq<char>, Seq<char>)| item_text(ListItem::Definition, c))
            =~= v.map_values(|c: (Seq<char>, Seq<char>)| column_definition(c)));
        assert(s@ =~= create_table_text(table_name@, v));
    }
    s
}

/// The prepared statement that inserts one row, one placeholder per column.
pub fn insert_statement(table_name: &str, cols: &Vec<Column>) -> (r: String)
    ensures
        r@ == insert_text(table_name@, columns_view(cols@)),
{
    let mut s = String::new();
    s.append("INSERT INTO ");
    push_ident(&mut s, table_name);
    s.append(" (");
    push_column_list(&mut s, cols, ListItem::Name, ",");
    s.append(") VALUES (");
    push_column_list(&mut s, cols, ListItem::Placeholder, ",");
    s.append(")");
    proof {
        let v = columns_view(cols@);
        assert(v.map_values(|c: (Seq<char>, Seq<char>)| item_text(ListItem::Name, c))
            =~= v.map_values(|c: (Seq<char>, Seq<char>)| quote_ident(c.0)));
        assert(v.map_values(|c: (Seq<char>, Seq<char>)| item_text(ListItem::Placeholder, c))
            =~= v.map_values(|c: (Seq<char>, Seq<char>)| seq!['?']));
        assert(s@ =~= insert_text(table_name@, v));
    }
    s
}

/// The copy statement that opens a text-framed bulk load.
pub fn copy_text_sql(table_name: &str, cols: &Vec<Column>, delimiter: char) -> (r: String)
    ensures
        r@ == copy_text_statement(table_name@, columns_view(cols@), delimiter),
{
    let mut s = String::new();
    s.append("COPY ");
    push_ident(&mut s, table_name);
    s.append(" (");
    push_column_list(&mut s, cols, ListItem::Name, ", ");
    s.append(") FROM STDIN WITH (FORMAT csv, DELIMITER ");
    if delimiter == '\t' {
        s.append("E'\\t'");
    } else if delimiter == ';' {
        s.append("';'");
    } else {
        s.append("','");
    }
    s.append(", NULL '\\N')");
    proof {
        let v = columns_view(cols@);
        assert(v.map_values(|c: (Seq<char>, Seq<char>)| item_text(ListItem::Name, c))
            =~= v.map_values(|c: (Seq<char>, Seq<char>)| quote_ident(c.0)));
        assert(s@ =~= copy_text_statement(table_name@, v, delimiter));
    }
    s
}

/// The copy statement that opens a binary-framed bulk load.
pub fn copy_binary_sql(table_name: &str, cols: &Vec<Column>) -> (r: String)
    ensures
        r@ == copy_binary_statement(table_name@, columns_view(cols@)),
{
    let mut s = String::new();
    s.append("COPY ");
    push_ident(&mut s, table_name);
    s.append(" (");
    push_column_list(&mut s, cols, ListItem::Name, ", ");
    s.append(") FROM STDIN WITH (FORMAT binary)");
    proof {
        let v = columns_view(cols@);
        assert(v.map_values(|c: (Seq<char>, Seq<char>)| item_text(ListItem::Name, c))
            =~= v.map_values(|c: (Seq<char>, Seq<char>)| quote_ident(c.0)));
        assert(s@ =~= copy_binary_statement(table_name@, v));
    }
    s
}

} // verus!
