//! The schema string: comma-separated `name:type` pairs, read and written.

use vstd::prelude::*;
use crate::text::{chars_of, is_space, split_on, split_ranges, trim, trim_end, trim_range, trim_start};
use crate::text::{lemma_split_join, lemma_split_nonempty, lemma_split_plain};

verus! {

/// One column of a schema: its name and the type written after it.
pub struct Column {
    pub name: String,
    pub col_type: String,
}

impl View for Column {
    type V = (Seq<char>, Seq<char>);

    open spec fn view(&self) -> (Seq<char>, Seq<char>) {
        (self.name@, self.col_type@)
    }
}

pub open spec fn columns_view(cols: Seq<Column>) -> Seq<(Seq<char>, Seq<char>)> {
    cols.map_values(|c: Column| c@)
}

/// Why a `name:type` pair of a schema string was refused.
#[derive(Clone, Copy, Debug, PartialEq, Eq, Structural)]
pub enum SchemaIssue {
    /// The pair does not split into exactly two parts at `:`.
    NotAPair,
    /// The name or the type is empty once trimmed.
    EmptyToken,
}

/// The first refused pair of a schema string, as it stood in the string.
pub struct SchemaError {
    pub issue: SchemaIssue,
    pub pair: String,
}

/// What one comma-separated piece of a schema string stands for.
pub open spec fn pair_of(p: Seq<char>) -> Result<(Seq<char>, Seq<char>), SchemaIssue> {
    let parts = split_on(p, ':');
    if parts.len() != 2 {
        Err(SchemaIssue::NotAPair)
    } else if trim(parts[0]).len() == 0 || trim(parts[1]).len() == 0 {
        Err(SchemaIssue::EmptyToken)
    } else {
        Ok((trim(parts[0]), trim(parts[1])))
    }
}

/// The columns of the pieces, or the first piece that is refused.
pub open spec fn pairs_of(ps: Seq<Seq<char>>) -> Result<
    Seq<(Seq<char>, Seq<char>)>,
    (SchemaIssue, Seq<char>),
>
    decreases ps.len(),
{
    if ps.len() == 0 {
        Ok(Seq::empty())
    } else {
        match pairs_of(ps.drop_last()) {
            Err(e) => Err(e),
            Ok(cols) => match pair_of(ps.last()) {
                Ok(c) => Ok(cols.push(c)),
                Err(issue) => Err((issue, ps.last())),
            },
        }
    }
}

/// The meaning of a schema string: comma-separated `name:type` pairs.
pub open spec fn schema_of(s: Seq<char>) -> Result<
    Seq<(Seq<char>, Seq<char>)>,
    (SchemaIssue, Seq<char>),
> {
    pairs_of(split_on(s, ','))
}

pub open spec fn pair_text(c: (Seq<char>, Seq<char>)) -> Seq<char> {
    c.0.push(':') + c.1
}

/// The schema string of a list of columns.
pub open spec fn schema_text(cols: Seq<(Seq<char>, Seq<char>)>) -> Seq<char>
    decreases cols.len(),
{
    if cols.len() == 0 {
        Seq::empty()
    } else if cols.len() == 1 {
        pair_text(cols[0])
    } else {
        schema_text(cols.drop_last()).push(',') + pair_text(cols.last())
    }
}

/// A name or a type that the schema string can carry unchanged.
pub open spec fn valid_token(t: Seq<char>) -> bool {
    &&& t.len() > 0
    &&& !t.contains(',')
    &&& !t.contains(':')
    &&& !is_space(t[0])
    &&& !is_space(t.last())
}

pub open spec fn valid_columns(cols: Seq<(Seq<char>, Seq<char>)>) -> bool {
    &&& cols.len() > 0
    &&& forall|i: int|
        0 <= i < cols.len() ==> valid_token(#[trigger] cols[i].0) && valid_token(cols[i].1)
}

proof fn lemma_pairs_err_extends(ps: Seq<Seq<char>>, k: int)
    requires
        0 <= k <= ps.len(),
        pairs_of(ps.take(k)) is Err,
    ensures
        pairs_of(ps) == pairs_of(ps.take(k)),
    decreases ps.len() - k,
{
    if k < ps.len() {
        assert(ps.take(k + 1).drop_last() =~= ps.take(k));
        lemma_pairs_err_extends(ps, k + 1);
    } else {
        assert(ps.take(k) =~= ps);
    }
}

/// Splits a schema string into its columns, trimming each name and type.
pub fn parse_schema(schema: &str) -> (r: Result<Vec<Column>, SchemaError>)
    ensures
        match r {
            Ok(cols) => schema_of(schema@) == Ok::<_, (SchemaIssue, Seq<char>)>(
                columns_view(cols@),
            ),
            Err(e) => schema_of(schema@) == Err::<Seq<(Seq<char>, Seq<char>)>, _>(
                (e.issue, e.pair@),
            ),
        },
{
    let cs = chars_of(schema);
    let pieces = split_ranges(&cs, 0, cs.len(), ',');
    let ghost ps = split_on(cs@, ',');
    assert(cs@.subrange(0, cs@.len() as int) =~= cs@);
    let mut cols: Vec<Column> = Vec::new();
    let mut k: usize = 0;
    assert(ps.take(0) =~= Seq::<Seq<char>>::empty());
    assert(columns_view(cols@) =~= Seq::<(Seq<char>, Seq<char>)>::empty());
    while k < pieces.len()
        invariant
            cs@ == schema@,
            ps == split_on(cs@, ','),
            pieces.len() == ps.len(),
            forall|i: int|
                0 <= i < pieces.len() ==> 0 <= (#[trigger] pieces[i]).0 <= pieces[i].1 <= cs.len()
                    && cs@.subrange(pieces[i].0 as int, pieces[i].1 as int) == ps[i],
            k <= pieces.len(),
            pairs_of(ps.take(k as int)) == Ok::<_, (SchemaIssue, Seq<char>)>(
                columns_view(cols@),
            ),
        decreases pieces.len() - k,
    {
        let (a, b) = pieces[k];
        let ghost p = ps[k as int];
        assert(ps.take(k + 1).drop_last() =~= ps.take(k as int));
        assert(ps.take(k + 1).last() == p);
        let parts = split_ranges(&cs, a, b, ':');
        if parts.len() != 2 {
            let pair = schema.substring_char(a, b).to_owned();
            proof {
                lemma_pairs_err_extends(ps, k + 1);
                assert(ps =~= split_on(schema@, ','));
            }
            return Err(SchemaError { issue: SchemaIssue::NotAPair, pair });
        }
        let (n0, n1) = trim_range(&cs, parts[0].0, parts[0].1);
        let (t0, t1) = trim_range(&cs, parts[1].0, parts[1].1);
        if n0 == n1 || t0 == t1 {
            let pair = schema.substring_char(a, b).to_owned();
            proof {
                lemma_pairs_err_extends(ps, k + 1);
                assert(ps =~= split_on(schema@, ','));
            }
            return Err(SchemaError { issue: SchemaIssue::EmptyToken, pair });
        }
        let name = schema.substring_char(n0, n1).to_owned();
        let col_type = schema.substring_char(t0, t1).to_owned();
        let ghost before = cols@;
        cols.push(Column { name, col_type });
        proof {
            assert(columns_view(cols@) =~= columns_view(before).push(
                (trim(split_on(p, ':')[0]), trim(split_on(p, ':')[1])),
            ));
        }
        k = k + 1;
    }
    proof {
        assert(ps.take(pieces.len() as int) =~= ps);
        assert(ps =~= split_on(schema@, ','));
    }
    Ok(cols)
}

/// Writes the columns as comma-separated `name:type` pairs.
pub fn serialize_schema(cols: &Vec<Column>) -> (r: String)
    ensures
        r@ == schema_text(columns_view(cols@)),
{
    let mut r = String::new();
    let mut i: usize = 0;
    proof {
        reveal_strlit(",");
        reveal_strlit(":");
    }
    assert(columns_view(cols@).take(0) =~= Seq::<(Seq<char>, Seq<char>)>::empty());
    while i < cols.len()
        invariant
            i <= cols.len(),
            r@ == schema_text(columns_view(cols@).take(i as int)),
            ","@ == seq![','],
            ":"@ == seq![':'],
        decreases cols.len() - i,
    {
        let ghost prev = columns_view(cols@).take(i as int);
        let ghost next = columns_view(cols@).take(i + 1);
        assert(next.drop_last() =~= prev);
        assert(next.last() == cols@[i as int]@);
        if i > 0 {
            r.append(",");
        }
        r.append(cols[i].name.as_str());
        r.append(":");
        r.append(cols[i].col_type.as_str());
        proof {
            if i == 0 {
                assert(r@ =~= pair_text(next[0]));
            } else {
                assert(r@ =~= schema_text(prev).push(',') + pair_text(next.last()));
            }
        }
        i = i + 1;
    }
    assert(columns_view(cols@).take(cols.len() as int) =~= columns_view(cols@));
    r
}

proof fn lemma_trim_valid(t: Seq<char>)
    requires
        valid_token(t),
    ensures
        trim(t) == t,
{
    assert(trim_start(t) == t);
    assert(trim_end(t) == t);
}

proof fn lemma_pair_text_no_comma(c: (Seq<char>, Seq<char>))
    requires
        valid_token(c.0),
        valid_token(c.1),
    ensures
        !pair_text(c).contains(','),
{
    let p = pair_text(c);
    if p.contains(',') {
        let k = choose|k: int| 0 <= k < p.len() && p[k] == ',';
        if k < c.0.len() {
            assert(c.0[k] == ',');
        } else if k > c.0.len() {
            assert(c.1[k - c.0.len() - 1] == ',');
        }
    }
}

proof fn lemma_pair_round_trip(c: (Seq<char>, Seq<char>))
    requires
        valid_token(c.0),
        valid_token(c.1),
    ensures
        pair_of(pair_text(c)) == Ok::<_, SchemaIssue>(c),
{
    lemma_split_join(c.0, c.1, ':');
    lemma_split_plain(c.0, ':');
    assert(split_on(pair_text(c), ':') =~= seq![c.0, c.1]);
    lemma_trim_valid(c.0);
    lemma_trim_valid(c.1);
}

proof fn lemma_split_schema_text(cols: Seq<(Seq<char>, Seq<char>)>)
    requires
        valid_columns(cols),
    ensures
        split_on(schema_text(cols), ',') == cols.map_values(|c: (Seq<char>, Seq<char>)| pair_text(c)),
    decreases cols.len(),
{
    let f = |c: (Seq<char>, Seq<char>)| pair_text(c);
    assert(valid_token(cols.last().0) && valid_token(cols.last().1));
    lemma_pair_text_no_comma(cols.last());
    if cols.len() == 1 {
        lemma_split_plain(pair_text(cols[0]), ',');
        assert(cols.map_values(f) =~= seq![pair_text(cols[0])]);
    } else {
        let init = cols.drop_last();
        assert forall|i: int| 0 <= i < init.len() implies valid_token(#[trigger] init[i].0)
            && valid_token(init[i].1) by {
            assert(init[i] == cols[i]);
        }
        lemma_split_schema_text(init);
        lemma_split_join(schema_text(init), pair_text(cols.last()), ',');
        assert(cols.map_values(f) =~= init.map_values(f).push(pair_text(cols.last())));
    }
}

proof fn lemma_pairs_of_texts(cols: Seq<(Seq<char>, Seq<char>)>)
    requires
        forall|i: int|
            0 <= i < cols.len() ==> valid_token(#[trigger] cols[i].0) && valid_token(cols[i].1),
    ensures
        pairs_of(cols.map_values(|c: (Seq<char>, Seq<char>)| pair_text(c))) == Ok::<
            _,
            (SchemaIssue, Seq<char>),
        >(cols),
    decreases cols.len(),
{
    let f = |c: (Seq<char>, Seq<char>)| pair_text(c);
    if cols.len() > 0 {
        let init = cols.drop_last();
        assert forall|i: int| 0 <= i < init.len() implies valid_token(#[trigger] init[i].0)
            && valid_token(init[i].1) by {
            assert(init[i] == cols[i]);
        }
        lemma_pairs_of_texts(init);
        assert(cols.map_values(f).drop_last() =~= init.map_values(f));
        assert(valid_token(cols.last().0) && valid_token(cols.last().1));
        lemma_pair_round_trip(cols.last());
        assert(init.push(cols.last()) =~= cols);
    } else {
        assert(cols.map_values(f) =~= Seq::<Seq<char>>::empty());
        assert(cols =~= Seq::<(Seq<char>, Seq<char>)>::empty());
    }
}

/// Reading back the schema string of valid columns gives the same columns:
/// every name and type non-empty, free of `,` and `:`, and without white
/// space at either end.
pub proof fn lemma_schema_round_trip(cols: Seq<(Seq<char>, Seq<char>)>)
    requires
        valid_columns(cols),
    ensures
        schema_of(schema_text(cols)) == Ok::<_, (SchemaIssue, Seq<char>)>(cols),
{
    lemma_split_schema_text(cols);
    lemma_pairs_of_texts(cols);
}

} // verus!
