//! Schema inference: the narrowest type of each column over a sample of
//! records.

use vstd::prelude::*;
use crate::detect::{sample_delimiter, detect_sample_delimiter, COMMA, TAB};
use crate::schema::{schema_text, serialize_schema, columns_view, Column};
use crate::text::chars_of;

verus! {

/// The type guessed for a column: the narrowest that its sampled values fit.
#[derive(Clone, Copy, Debug, PartialEq, Eq, Structural)]
pub enum InferredType {
    Integer,
    Real,
    Text,
}

pub open spec fn is_digit(c: char) -> bool {
    '0' <= c && c <= '9'
}

pub open spec fn all_digits(s: Seq<char>) -> bool {
    forall|i: int| 0 <= i < s.len() ==> is_digit(#[trigger] s[i])
}

pub open spec fn digits_value(s: Seq<char>) -> int
    decreases s.len(),
{
    if s.len() == 0 {
        0
    } else {
        digits_value(s.drop_last()) * 10 + (s.last() as int - '0' as int)
    }
}

pub open spec fn is_sign(c: char) -> bool {
    c == '+' || c == '-'
}

/// `s` without one leading sign.
pub open spec fn unsigned_part(s: Seq<char>) -> Seq<char> {
    if s.len() > 0 && is_sign(s[0]) {
        s.drop_first()
    } else {
        s
    }
}

/// What `i64::from_str` accepts: an optional sign, then decimal digits whose
/// value fits in 64 bits.
pub open spec fn parses_as_i64(s: Seq<char>) -> bool {
    let body = unsigned_part(s);
    let negative = s.len() > 0 && s[0] == '-';
    &&& body.len() > 0
    &&& all_digits(body)
    &&& if negative {
        digits_value(body) <= i64::MAX + 1
    } else {
        digits_value(body) <= i64::MAX
    }
}

/// The first index of `c` in `s`, or its length.
pub open spec fn index_of(s: Seq<char>, c: char) -> int
    decreases s.len(),
{
    if s.len() == 0 {
        0
    } else if s[0] == c {
        0
    } else {
        1 + index_of(s.drop_first(), c)
    }
}

pub open spec fn is_exp_mark(c: char) -> bool {
    c == 'e' || c == 'E'
}

/// The first index of an exponent mark in `s`, or its length.
pub open spec fn exp_index(s: Seq<char>) -> int
    decreases s.len(),
{
    if s.len() == 0 {
        0
    } else if is_exp_mark(s[0]) {
        0
    } else {
        1 + exp_index(s.drop_first())
    }
}

/// Digits with at most one decimal point, and at least one digit.
pub open spec fn mantissa_ok(m: Seq<char>) -> bool {
    let p = index_of(m, '.');
    if p == m.len() {
        m.len() > 0 && all_digits(m)
    } else {
        m.len() >= 2 && all_digits(m.take(p)) && all_digits(m.skip(p + 1))
    }
}

/// Empty, or an exponent mark, an optional sign and at least one digit.
pub open spec fn exponent_ok(x: Seq<char>) -> bool {
    x.len() == 0 || (unsigned_part(x.drop_first()).len() > 0 && all_digits(
        unsigned_part(x.drop_first()),
    ))
}

pub open spec fn ascii_lower(c: char) -> char {
    if 'A' <= c && c <= 'Z' {
        (((c as u32) + 32) as u8) as char
    } else {
        c
    }
}

pub open spec fn eq_ignore_case(s: Seq<char>, word: Seq<char>) -> bool {
    s.len() == word.len() && forall|i: int| 0 <= i < s.len() ==> ascii_lower(#[trigger] s[i]) == word[i]
}

/// What `f64::from_str` accepts: an optional sign, then `inf`, `infinity` or
/// `nan` in any case, or a decimal number with an optional exponent.
pub open spec fn parses_as_f64(s: Seq<char>) -> bool {
    let b = unsigned_part(s);
    let e = exp_index(b);
    ||| eq_ignore_case(b, seq!['i', 'n', 'f'])
    ||| eq_ignore_case(b, seq!['i', 'n', 'f', 'i', 'n', 'i', 't', 'y'])
    ||| eq_ignore_case(b, seq!['n', 'a', 'n'])
    ||| mantissa_ok(b.take(e)) && exponent_ok(b.skip(e))
}

/// The type of one value: integer where it reads as a 64-bit integer, else
/// real where it reads as a float, else text.
pub open spec fn field_type_of(s: Seq<char>) -> InferredType {
    if parses_as_i64(s) {
        InferredType::Integer
    } else if parses_as_f64(s) {
        InferredType::Real
    } else {
        InferredType::Text
    }
}

pub open spec fn rank(t: InferredType) -> int {
    match t {
        InferredType::Integer => 0,
        InferredType::Real => 1,
        InferredType::Text => 2,
    }
}

/// The narrowest type that holds values of both types: text never narrows
/// back, and real only widens to text.
pub open spec fn widen_spec(a: InferredType, b: InferredType) -> InferredType {
    if rank(a) >= rank(b) {
        a
    } else {
        b
    }
}

pub open spec fn type_label(t: InferredType) -> Seq<char> {
    match t {
        InferredType::Integer => seq!['i', 'n', 't', 'e', 'g', 'e', 'r'],
        InferredType::Real => seq!['r', 'e', 'a', 'l'],
        InferredType::Text => seq!['t', 'e', 'x', 't'],
    }
}

/// The type of column `i` over the sampled rows that have it; `None` where
/// none has.
pub open spec fn column_type(rows: Seq<Seq<Seq<char>>>, i: int) -> Option<InferredType>
    decreases rows.len(),
{
    if rows.len() == 0 {
        None
    } else {
        let prev = column_type(rows.drop_last(), i);
        if 0 <= i < rows.last().len() {
            let t = field_type_of(rows.last()[i]);
            match prev {
                None => Some(t),
                Some(p) => Some(widen_spec(p, t)),
            }
        } else {
            prev
        }
    }
}

/// The types of `width` columns over the sampled rows; a column that no row
/// reaches is text.
pub open spec fn inferred_columns(width: nat, rows: Seq<Seq<Seq<char>>>) -> Seq<InferredType> {
    Seq::new(
        width,
        |i: int|
            match column_type(rows, i) {
                Some(t) => t,
                None => InferredType::Text,
            },
    )
}

impl InferredType {
    /// The type's name in a schema string.
    pub fn name(&self) -> (r: String)
        ensures
            r@ == type_label(*self),
    {
        match self {
            InferredType::Integer => {
                proof {
                    reveal_strlit("integer");
                }
                "integer".to_owned()
            },
            InferredType::Real => {
                proof {
                    reveal_strlit("real");
                }
                "real".to_owned()
            },
            InferredType::Text => {
                proof {
                    reveal_strlit("text");
                }
                "text".to_owned()
            },
        }
    }
}

/// The wider of two types.
pub fn widen(a: InferredType, b: InferredType) -> (r: InferredType)
    ensures
        r == widen_spec(a, b),
{
    let ra: u8 = match a {
        InferredType::Integer => 0,
        InferredType::Real => 1,
        InferredType::Text => 2,
    };
    let rb: u8 = match b {
        InferredType::Integer => 0,
        InferredType::Real => 1,
        InferredType::Text => 2,
    };
    if ra >= rb {
        a
    } else {
        b
    }
}

fn is_digit_char(c: char) -> (r: bool)
    ensures
        r == is_digit(c),
{
    '0' <= c && c <= '9'
}

pub(crate) fn digits_in(s: &Vec<char>, a: usize, b: usize) -> (r: bool)
    requires
        a <= b <= s.len(),
    ensures
        r == all_digits(s@.subrange(a as int, b as int)),
{
    let mut k = a;
    while k < b
        invariant
            a <= k <= b <= s.len(),
            all_digits(s@.subrange(a as int, k as int)),
        decreases b - k,
    {
        if !is_digit_char(s[k]) {
            assert(s@.subrange(a as int, b as int)[k - a] == s@[k as int]);
            return false;
        }
        k = k + 1;
        assert(all_digits(s@.subrange(a as int, k as int))) by {
            assert forall|i: int| 0 <= i < k - a implies is_digit(
                #[trigger] s@.subrange(a as int, k as int)[i],
            ) by {
                if i < k - 1 - a {
                    assert(s@.subrange(a as int, k as int)[i] == s@.subrange(a as int, k - 1)[i]);
                }
            }
        }
    }
    true
}

/// Where `s[a..b]` is digits, its value if that is at most `limit`.
pub(crate) fn digits_value_upto(s: &Vec<char>, a: usize, b: usize, limit: u64) -> (r: Option<u64>)
    requires
        a <= b <= s.len(),
        all_digits(s@.subrange(a as int, b as int)),
        limit >= 9,
    ensures
        r is Some <==> digits_value(s@.subrange(a as int, b as int)) <= limit,
        r is Some ==> r->0 == digits_value(s@.subrange(a as int, b as int)),
{
    let mut v: u64 = 0;
    let mut k = a;
    assert(s@.subrange(a as int, a as int) =~= Seq::<char>::empty());
    while k < b
        invariant
            a <= k <= b <= s.len(),
            all_digits(s@.subrange(a as int, b as int)),
            v == digits_value(s@.subrange(a as int, k as int)),
            v <= limit,
            limit >= 9,
        decreases b - k,
    {
        let ghost sub = s@.subrange(a as int, k + 1);
        assert(sub.drop_last() =~= s@.subrange(a as int, k as int));
        assert(sub.last() == s@[k as int]);
        assert(s@.subrange(a as int, b as int)[k - a] == s@[k as int]);
        let d = (s[k] as u32 - '0' as u32) as u64;
        assert(d <= 9);
        if v > (limit - d) / 10 {
            assert(v * 10 + d > limit) by (nonlinear_arith)
                requires
                    v > (limit - d) / 10,
                    d <= limit,
            ;
            proof {
                lemma_digits_value_grows(s@.subrange(a as int, b as int), k + 1 - a);
                assert(s@.subrange(a as int, b as int).take(k + 1 - a) =~= sub);
            }
            return None;
        }
        assert(v * 10 + d <= limit) by (nonlinear_arith)
            requires
                v <= (limit - d) / 10,
                d <= limit,
        ;
        v = v * 10 + d;
        k = k + 1;
    }
    Some(v)
}

proof fn lemma_digits_value_grows(s: Seq<char>, n: int)
    requires
        all_digits(s),
        0 <= n <= s.len(),
    ensures
        digits_value(s.take(n)) <= digits_value(s),
        digits_value(s) >= 0,
    decreases s.len(),
{
    if s.len() > 0 {
        assert(all_digits(s.drop_last())) by {
            assert forall|i: int| 0 <= i < s.len() - 1 implies is_digit(#[trigger] s.drop_last()[i]) by {
                assert(s.drop_last()[i] == s[i]);
            }
        }
        if n == s.len() {
            assert(s.take(n) =~= s);
            lemma_digits_value_grows(s.drop_last(), 0);
        } else {
            assert(s.drop_last().take(n) =~= s.take(n));
            lemma_digits_value_grows(s.drop_last(), n);
        }
    } else {
        assert(s.take(n) =~= s);
    }
}

/// Whether `s` reads as a 64-bit integer.
pub fn parses_as_integer(s: &Vec<char>) -> (r: bool)
    ensures
        r == parses_as_i64(s@),
{
    let n = s.len();
    let a: usize = if n > 0 && (s[0] == '+' || s[0] == '-') {
        1
    } else {
        0
    };
    assert(s@.subrange(a as int, n as int) == unsigned_part(s@));
    if a == n {
        return false;
    }
    if !digits_in(s, a, n) {
        return false;
    }
    let limit: u64 = if a == 1 && s[0] == '-' {
        9223372036854775808
    } else {
        9223372036854775807
    };
    digits_value_upto(s, a, n, limit).is_some()
}

/// The first index of `c` in `s[a..b]`, counted from `a`.
fn index_in(s: &Vec<char>, a: usize, b: usize, c: char) -> (r: usize)
    requires
        a <= b <= s.len(),
    ensures
        a <= r <= b,
        r - a == index_of(s@.subrange(a as int, b as int), c),
{
    let mut k = a;
    while k < b && s[k] != c
        invariant
            a <= k <= b <= s.len(),
            index_of(s@.subrange(a as int, b as int), c) == (k - a) + index_of(
                s@.subrange(k as int, b as int),
                c,
            ),
        decreases b - k,
    {
        assert(s@.subrange(k as int, b as int).drop_first() =~= s@.subrange(k + 1, b as int));
        k = k + 1;
    }
    k
}

fn exp_index_in(s: &Vec<char>, a: usize, b: usize) -> (r: usize)
    requires
        a <= b <= s.len(),
    ensures
        a <= r <= b,
        r - a == exp_index(s@.subrange(a as int, b as int)),
{
    let mut k = a;
    while k < b && s[k] != 'e' && s[k] != 'E'
        invariant
            a <= k <= b <= s.len(),
            exp_index(s@.subrange(a as int, b as int)) == (k - a) + exp_index(
                s@.subrange(k as int, b as int),
            ),
        decreases b - k,
    {
        assert(s@.subrange(k as int, b as int).drop_first() =~= s@.subrange(k + 1, b as int));
        k = k + 1;
    }
    k
}

fn ascii_lower_char(c: char) -> (r: char)
    ensures
        r == ascii_lower(c),
{
    if 'A' <= c && c <= 'Z' {
        (((c as u32) + 32) as u8) as char
    } else {
        c
    }
}

fn word_in(s: &Vec<char>, a: usize, b: usize, word: &Vec<char>) -> (r: bool)
    requires
        a <= b <= s.len(),
    ensures
        r == eq_ignore_case(s@.subrange(a as int, b as int), word@),
{
    if b - a != word.len() {
        return false;
    }
    let mut k: usize = 0;
    while k < word.len()
        invariant
            a <= b <= s.len(),
            b - a == word.len(),
            k <= word.len(),
            forall|i: int| 0 <= i < k ==> ascii_lower(#[trigger] s@.subrange(a as int, b as int)[i]) == word@[i],
        decreases word.len() - k,
    {
        if ascii_lower_char(s[a + k]) != word[k] {
            assert(s@.subrange(a as int, b as int)[k as int] == s@[a + k]);
            return false;
        }
        assert(s@.subrange(a as int, b as int)[k as int] == s@[a + k]);
        k = k + 1;
    }
    true
}

fn mantissa_in(s: &Vec<char>, a: usize, e: usize) -> (r: bool)
    requires
        a <= e <= s.len(),
    ensures
        r == mantissa_ok(s@.subrange(a as int, e as int)),
{
    let ghost m = s@.subrange(a as int, e as int);
    let p = index_in(s, a, e, '.');
    if p == e {
        e > a && digits_in(s, a, e)
    } else {
        assert(m.take(p - a) =~= s@.subrange(a as int, p as int));
        assert(m.skip(p - a + 1) =~= s@.subrange(p + 1, e as int));
        e - a >= 2 && digits_in(s, a, p) && digits_in(s, p + 1, e)
    }
}

fn exponent_in(s: &Vec<char>, e: usize, n: usize) -> (r: bool)
    requires
        e <= n <= s.len(),
    ensures
        r == exponent_ok(s@.subrange(e as int, n as int)),
{
    if e == n {
        return true;
    }
    let ghost x = s@.subrange(e as int, n as int);
    let d: usize = if e + 1 < n && (s[e + 1] == '+' || s[e + 1] == '-') {
        e + 2
    } else {
        e + 1
    };
    assert(x.drop_first() =~= s@.subrange(e + 1, n as int));
    assert(unsigned_part(x.drop_first()) =~= s@.subrange(d as int, n as int));
    d < n && digits_in(s, d, n)
}

fn special_in(s: &Vec<char>, a: usize, n: usize) -> (r: bool)
    requires
        a <= n <= s.len(),
    ensures
        r == (eq_ignore_case(s@.subrange(a as int, n as int), seq!['i', 'n', 'f'])
            || eq_ignore_case(
            s@.subrange(a as int, n as int),
            seq!['i', 'n', 'f', 'i', 'n', 'i', 't', 'y'],
        ) || eq_ignore_case(s@.subrange(a as int, n as int), seq!['n', 'a', 'n'])),
{
    let inf = vec!['i', 'n', 'f'];
    let infinity = vec!['i', 'n', 'f', 'i', 'n', 'i', 't', 'y'];
    let nan = vec!['n', 'a', 'n'];
    assert(inf@ =~= seq!['i', 'n', 'f']);
    assert(infinity@ =~= seq!['i', 'n', 'f', 'i', 'n', 'i', 't', 'y']);
    assert(nan@ =~= seq!['n', 'a', 'n']);
    word_in(s, a, n, &inf) || word_in(s, a, n, &infinity) || word_in(s, a, n, &nan)
}

/// Whether `s` reads as a 64-bit float.
pub fn parses_as_float(s: &Vec<char>) -> (r: bool)
    ensures
        r == parses_as_f64(s@),
{
    let n = s.len();
    let a: usize = if n > 0 && (s[0] == '+' || s[0] == '-') {
        1
    } else {
        0
    };
    let ghost b = unsigned_part(s@);
    assert(s@.subrange(a as int, n as int) =~= b);
    if special_in(s, a, n) {
        return true;
    }
    let e = exp_index_in(s, a, n);
    assert(b.take(e - a) =~= s@.subrange(a as int, e as int));
    assert(b.skip(e - a) =~= s@.subrange(e as int, n as int));
    mantissa_in(s, a, e) && exponent_in(s, e, n)
}

/// The type of one value.
pub fn infer_field_type(field: &str) -> (r: InferredType)
    ensures
        r == field_type_of(field@),
{
    let cs = chars_of(field);
    if parses_as_integer(&cs) {
        InferredType::Integer
    } else if parses_as_float(&cs) {
        InferredType::Real
    } else {
        InferredType::Text
    }
}

pub open spec fn rows_view(rows: Seq<Vec<String>>) -> Seq<Seq<Seq<char>>> {
    rows.map_values(|r: Vec<String>| r@.map_values(|f: String| f@))
}

/// The types of `width` columns over the sampled rows.
pub fn infer_column_types(width: usize, rows: &Vec<Vec<String>>) -> (r: Vec<InferredType>)
    ensures
        r@ == inferred_columns(width as nat, rows_view(rows@)),
{
    let mut found: Vec<Option<InferredType>> = Vec::new();
    let mut i: usize = 0;
    while i < width
        invariant
            i <= width,
            found.len() == i,
            forall|c: int| 0 <= c < i ==> #[trigger] found@[c] == None::<InferredType>,
        decreases width - i,
    {
        found.push(None);
        i = i + 1;
    }
    let mut k: usize = 0;
    assert(rows@.take(0) =~= Seq::<Vec<String>>::empty());
    while k < rows.len()
        invariant
            k <= rows.len(),
            found.len() == width,
            forall|c: int|
                0 <= c < width ==> #[trigger] found@[c] == column_type(
                    rows_view(rows@.take(k as int)),
                    c,
                ),
        decreases rows.len() - k,
    {
        let row = &rows[k];
        let ghost prev = rows_view(rows@.take(k as int));
        let ghost next = rows_view(rows@.take(k + 1));
        assert(next.drop_last() =~= prev);
        assert(next.last() =~= row@.map_values(|f: String| f@));
        let mut c: usize = 0;
        while c < width
            invariant
                c <= width,
                found.len() == width,
                next.drop_last() == prev,
                next.last() == row@.map_values(|f: String| f@),
                next.len() > 0,
                forall|j: int| 0 <= j < c ==> #[trigger] found@[j] == column_type(next, j),
                forall|j: int| c <= j < width ==> #[trigger] found@[j] == column_type(prev, j),
            decreases width - c,
        {
            if c < row.len() {
                let t = infer_field_type(row[c].as_str());
                let nt = match found[c] {
                    None => t,
                    Some(p) => widen(p, t),
                };
                found.set(c, Some(nt));
            }
            c = c + 1;
        }
        k = k + 1;
    }
    assert(rows@.take(rows.len() as int) =~= rows@);
    let mut r: Vec<InferredType> = Vec::new();
    let mut c: usize = 0;
    while c < width
        invariant
            c <= width,
            found.len() == width,
            forall|j: int| 0 <= j < width ==> #[trigger] found@[j] == column_type(rows_view(rows@), j),
            r@ == inferred_columns(width as nat, rows_view(rows@)).take(c as int),
        decreases width - c,
    {
        let t = match found[c] {
            Some(t) => t,
            None => InferredType::Text,
        };
        r.push(t);
        c = c + 1;
        assert(r@ =~= inferred_columns(width as nat, rows_view(rows@)).take(c as int));
    }
    assert(inferred_columns(width as nat, rows_view(rows@)).take(width as int) =~= inferred_columns(
        width as nat,
        rows_view(rows@),
    ));
    r
}

/// What the csv crate reads from `data` with the given delimiter, trimming
/// every field where `trim` is set: the fields of the first record (the
/// header) and, for each record after it, its fields or `None` where the
/// record could not be read; `None` where the first record could not be read.
pub uninterp spec fn csv_records_of(data: Seq<u8>, delimiter: u8, trim: bool) -> Option<
    (Seq<Seq<char>>, Seq<Option<Seq<Seq<char>>>>),
>;

pub open spec fn fields_view(v: Seq<String>) -> Seq<Seq<char>> {
    v.map_values(|f: String| f@)
}

pub open spec fn records_view(recs: Seq<Option<Vec<String>>>) -> Seq<Option<Seq<Seq<char>>>> {
    recs.map_values(
        |o: Option<Vec<String>>|
            match o {
                Some(v) => Some(fields_view(v@)),
                None => None,
            },
    )
}

/// Relies on `csv::ReaderBuilder` set for a header row, records of any
/// length and, where `trim` is set, `Trim::All`, reading `data`: its
/// `headers` and `records`, each field as a `String`.
#[verifier::external_body]
pub(crate) fn read_csv(data: &[u8], delimiter: u8, trim: bool) -> (r: Option<
    (Vec<String>, Vec<Option<Vec<String>>>),
>)
    ensures
        match r {
            None => csv_records_of(data@, delimiter, trim) is None,
            Some((h, recs)) => csv_records_of(data@, delimiter, trim) == Some(
                (fields_view(h@), records_view(recs@)),
            ),
        },
{
    let trimming = if trim { csv::Trim::All } else { csv::Trim::None };
    let mut rdr = csv::ReaderBuilder::new().has_headers(true).delimiter(delimiter).flexible(
        true,
    ).trim(trimming).from_reader(data);
    let header: Vec<String> = rdr.headers().ok()?.iter().map(String::from).collect();
    let records = rdr.records().map(|rec| rec.ok().map(|x| x.iter().map(String::from).collect())).collect();
    Some((header, records))
}

/// The sampled rows: the first record that was read and has fields, if any.
pub open spec fn sample_rows(recs: Seq<Option<Seq<Seq<char>>>>) -> Seq<Seq<Seq<char>>>
    decreases recs.len(),
{
    if recs.len() == 0 {
        Seq::empty()
    } else {
        match recs[0] {
            Some(f) => if f.len() > 0 {
                seq![f]
            } else {
                sample_rows(recs.drop_first())
            },
            None => sample_rows(recs.drop_first()),
        }
    }
}

/// The schema string inferred from a header and the records after it.
pub open spec fn sample_schema(header: Seq<Seq<char>>, recs: Seq<Option<Seq<Seq<char>>>>) -> Seq<
    char,
> {
    let types = inferred_columns(header.len(), sample_rows(recs));
    schema_text(Seq::new(header.len(), |i: int| (header[i], type_label(types[i]))))
}

fn has_fields(o: &Option<Vec<String>>) -> (r: bool)
    ensures
        r == (o is Some && o->0.len() > 0),
{
    match o {
        Some(f) => f.len() > 0,
        None => false,
    }
}

/// Infers the schema string from a header and the records read after it.
pub fn schema_from_sample(header: &Vec<String>, records: Vec<Option<Vec<String>>>) -> (r: String)
    ensures
        r@ == sample_schema(fields_view(header@), records_view(records@)),
{
    let ghost recs = records_view(records@);
    let mut records = records;
    let mut k: usize = 0;
    assert(recs.skip(0) =~= recs);
    while k < records.len() && !has_fields(&records[k])
        invariant
            k <= records.len(),
            records_view(records@) == recs,
            sample_rows(recs) == sample_rows(recs.skip(k as int)),
        decreases records.len() - k,
    {
        assert(recs.skip(k as int).drop_first() =~= recs.skip(k + 1));
        assert(recs.skip(k as int)[0] == recs[k as int]);
        k = k + 1;
    }
    let rows: Vec<Vec<String>> = if k < records.len() {
        assert(recs.skip(k as int)[0] == recs[k as int]);
        let picked = records.remove(k);
        match picked {
            Some(f) => {
                assert(recs[k as int] == Some(fields_view(f@)));
                let rows = vec![f];
                assert(rows_view(rows@) =~= seq![fields_view(f@)]);
                rows
            },
            None => Vec::new(),
        }
    } else {
        assert(recs.skip(k as int) =~= Seq::<Option<Seq<Seq<char>>>>::empty());
        let rows = Vec::new();
        assert(rows_view(rows@) =~= Seq::<Seq<Seq<char>>>::empty());
        rows
    };
    assert(rows_view(rows@) == sample_rows(recs));
    let types = infer_column_types(header.len(), &rows);
    let ghost want = Seq::new(
        header.len() as nat,
        |i: int| (fields_view(header@)[i], type_label(types@[i])),
    );
    let mut cols: Vec<Column> = Vec::new();
    let mut i: usize = 0;
    while i < header.len()
        invariant
            i <= header.len(),
            types.len() == header.len(),
            want.len() == header.len(),
            want == Seq::new(
                header.len() as nat,
                |i: int| (fields_view(header@)[i], type_label(types@[i])),
            ),
            columns_view(cols@) == want.take(i as int),
        decreases header.len() - i,
    {
        let name = header[i].clone();
        let col_type = types[i].name();
        let ghost prev = cols@;
        cols.push(Column { name, col_type });
        assert(want[i as int] == (fields_view(header@)[i as int], type_label(types@[i as int])));
        assert(fields_view(header@)[i as int] == header@[i as int]@);
        assert(cols@ == prev.push(Column { name, col_type }));
        assert(columns_view(cols@) =~= columns_view(prev).push((name@, col_type@)));
        i = i + 1;
        assert(columns_view(cols@) =~= want.take(i as int));
    }
    assert(want.take(header.len() as int) =~= want);
    serialize_schema(&cols)
}

/// Why no schema could be inferred from a sample.
#[derive(Clone, Copy, Debug, PartialEq, Eq, Structural)]
pub enum SampleIssue {
    /// The first lines hold neither a tab nor a comma.
    NoDelimiter,
    /// No header row could be read with either delimiter.
    UnreadableHeader,
}

pub open spec fn other_delimiter(d: u8) -> u8 {
    if d == TAB {
        COMMA
    } else {
        TAB
    }
}

/// The schema string that a sample of a file yields: the delimiter from its
/// first lines, then the header and first record as the csv crate reads them,
/// trying the other delimiter where the header cannot be read.
pub open spec fn csv_schema_of(sample: Seq<u8>) -> Result<Seq<char>, SampleIssue> {
    match sample_delimiter(sample) {
        None => Err(SampleIssue::NoDelimiter),
        Some(d) => match csv_records_of(sample, d, true) {
            Some((h, recs)) => Ok(sample_schema(h, recs)),
            None => match csv_records_of(sample, other_delimiter(d), true) {
                Some((h, recs)) => Ok(sample_schema(h, recs)),
                None => Err(SampleIssue::UnreadableHeader),
            },
        },
    }
}

/// Infers the `name:type` schema string of a file from a sample of its
/// first bytes.
pub fn get_csv_schema(sample: &[u8]) -> (r: Result<String, SampleIssue>)
    ensures
        match r {
            Ok(s) => csv_schema_of(sample@) == Ok::<Seq<char>, SampleIssue>(s@),
            Err(e) => csv_schema_of(sample@) == Err::<Seq<char>, SampleIssue>(e),
        },
{
    let d = match detect_sample_delimiter(sample) {
        Some(d) => d,
        None => return Err(SampleIssue::NoDelimiter),
    };
    let read = match read_csv(sample, d, true) {
        Some(x) => x,
        None => {
            let alt = if d == TAB {
                COMMA
            } else {
                TAB
            };
            match read_csv(sample, alt, true) {
                Some(x) => x,
                None => return Err(SampleIssue::UnreadableHeader),
            }
        },
    };
    let (header, records) = read;
    Ok(schema_from_sample(&header, records))
}

} // verus!
