//! The text framing of the bulk-copy writer, with a model of how the
//! server reads it back.

use vstd::prelude::*;
use crate::infer::{fields_view, index_of};
use crate::text::push_char;

verus! {

/// The text that stands for one character inside a quoted value: a quote is
/// doubled.
pub open spec fn escape_char(c: char) -> Seq<char> {
    if c == '"' {
        seq!['"', '"']
    } else {
        seq![c]
    }
}

pub open spec fn escape(f: Seq<char>) -> Seq<char>
    decreases f.len(),
{
    if f.len() == 0 {
        Seq::empty()
    } else {
        escape_char(f[0]) + escape(f.drop_first())
    }
}

/// The null marker of the copy stream.
pub open spec fn null_marker() -> Seq<char> {
    seq!['\\', 'N']
}

/// One value in a copy line: an empty field is NULL, any other is quoted.
pub open spec fn encode_field(f: Seq<char>) -> Seq<char> {
    if f.len() == 0 {
        null_marker()
    } else {
        seq!['"'] + escape(f) + seq!['"']
    }
}

/// The values of a row joined by the delimiter.
pub open spec fn encode_fields(fs: Seq<Seq<char>>, d: char) -> Seq<char>
    decreases fs.len(),
{
    if fs.len() == 0 {
        Seq::empty()
    } else if fs.len() == 1 {
        encode_field(fs[0])
    } else {
        encode_field(fs[0]).push(d) + encode_fields(fs.drop_first(), d)
    }
}

/// A row as one line of the copy stream.
pub open spec fn copy_line(fs: Seq<Seq<char>>, d: char) -> Seq<char> {
    encode_fields(fs, d).push('\n')
}

/// The body of a quoted value up to its closing quote, as the server reads
/// it: the value, and what follows the closing quote.
pub open spec fn unquote(s: Seq<char>) -> Option<(Seq<char>, Seq<char>)>
    decreases s.len(),
{
    if s.len() == 0 {
        None
    } else if s[0] == '"' {
        if s.len() >= 2 && s[1] == '"' {
            match unquote(s.skip(2)) {
                Some((c, r)) => Some((seq!['"'] + c, r)),
                None => None,
            }
        } else {
            Some((Seq::empty(), s.drop_first()))
        }
    } else {
        match unquote(s.drop_first()) {
            Some((c, r)) => Some((seq![s[0]] + c, r)),
            None => None,
        }
    }
}

/// A line of the copy stream (without its line feed) as the server reads it
/// in CSV mode: a quoted value is taken literally, an unquoted null marker is
/// NULL (`None`).
pub open spec fn decode_fields(s: Seq<char>, d: char) -> Option<Seq<Option<Seq<char>>>>
    decreases s.len(),
{
    if s.len() > 0 && s[0] == '"' {
        match unquote(s.drop_first()) {
            None => None,
            Some((c, rest)) => if rest.len() == 0 {
                Some(seq![Some(c)])
            } else if rest[0] == d && rest.len() < s.len() {
                match decode_fields(rest.drop_first(), d) {
                    Some(vs) => Some(seq![Some(c)] + vs),
                    None => None,
                }
            } else {
                None
            },
        }
    } else {
        let i = index_of(s, d);
        let raw = s.take(i);
        let v = if raw == null_marker() {
            None
        } else {
            Some(raw)
        };
        if i >= s.len() {
            Some(seq![v])
        } else if 0 <= i {
            match decode_fields(s.skip(i + 1), d) {
                Some(vs) => Some(seq![v] + vs),
                None => None,
            }
        } else {
            None
        }
    }
}

/// The value a field stands for at the target: NULL when empty.
pub open spec fn stored_value(f: Seq<char>) -> Option<Seq<char>> {
    if f.len() == 0 {
        None
    } else {
        Some(f)
    }
}

/// A delimiter that cannot be taken for part of a value.
pub open spec fn copy_delimiter_ok(d: char) -> bool {
    d != '"' && d != '\\' && d != 'N'
}

pub proof fn lemma_escape_push(a: Seq<char>, c: char)
    ensures
        escape(a.push(c)) == escape(a) + escape_char(c),
    decreases a.len(),
{
    if a.len() == 0 {
        assert(a.push(c).drop_first() =~= Seq::<char>::empty());
        assert(a.push(c)[0] == c);
        assert(escape(Seq::<char>::empty()) == Seq::<char>::empty());
        assert(escape(a.push(c)) == escape_char(c) + escape(a.push(c).drop_first()));
        assert(escape(a.push(c)) =~= escape_char(c));
        assert(escape(a) + escape_char(c) =~= escape_char(c));
    } else {
        assert(a.push(c).drop_first() =~= a.drop_first().push(c));
        lemma_escape_push(a.drop_first(), c);
        assert(escape(a.push(c)) =~= escape(a) + escape_char(c));
    }
}

proof fn lemma_encode_fields_push(fs: Seq<Seq<char>>, d: char)
    requires
        fs.len() >= 2,
    ensures
        encode_fields(fs, d) == encode_fields(fs.drop_last(), d).push(d) + encode_field(fs.last()),
    decreases fs.len(),
{
    if fs.len() == 2 {
        assert(fs.drop_first() =~= seq![fs.last()]);
        assert(fs.drop_last() =~= seq![fs[0]]);
        assert(encode_fields(fs.drop_first(), d) == encode_field(fs.last()));
        assert(encode_fields(fs.drop_last(), d) == encode_field(fs[0]));
    } else {
        lemma_encode_fields_push(fs.drop_first(), d);
        assert(fs.drop_first().drop_last() =~= fs.drop_last().drop_first());
        assert(fs.drop_last()[0] == fs[0]);
        assert(fs.drop_first().last() == fs.last());
        assert(encode_fields(fs.drop_last(), d) == encode_field(fs[0]).push(d) + encode_fields(
            fs.drop_last().drop_first(),
            d,
        ));
        assert(encode_fields(fs, d) =~= encode_fields(fs.drop_last(), d).push(d) + encode_field(
            fs.last(),
        ));
    }
}

/// Appends `cs` with every quote doubled.
pub(crate) fn push_escaped(line: &mut String, cs: &Vec<char>)
    ensures
        final(line)@ == old(line)@ + escape(cs@),
{
    let mut k: usize = 0;
    assert(cs@.take(0) =~= Seq::<char>::empty());
    assert(old(line)@ + escape(Seq::<char>::empty()) =~= old(line)@);
    while k < cs.len()
        invariant
            k <= cs.len(),
            line@ == old(line)@ + escape(cs@.take(k as int)),
        decreases cs.len() - k,
    {
        let c = cs[k];
        proof {
            assert(cs@.take(k + 1) =~= cs@.take(k as int).push(c));
            lemma_escape_push(cs@.take(k as int), c);
        }
        push_char(line, c);
        if c == '"' {
            push_char(line, '"');
        }
        k = k + 1;
        assert(line@ =~= old(line)@ + escape(cs@.take(k as int)));
    }
    assert(cs@.take(k as int) =~= cs@);
}

/// Appends the copy-stream form of one field.
fn push_field(line: &mut String, f: &String)
    ensures
        final(line)@ == old(line)@ + encode_field(f@),
{
    let cs = crate::text::chars_of(f.as_str());
    if cs.len() == 0 {
        push_char(line, '\\');
        push_char(line, 'N');
        assert(final(line)@ =~= old(line)@ + encode_field(f@));
        return ;
    }
    push_char(line, '"');
    push_escaped(line, &cs);
    push_char(line, '"');
    assert(line@ =~= old(line)@ + encode_field(f@));
}

/// Encodes a row as one line of CSV-mode copy data: values joined by the
/// delimiter, empty ones as the null marker, the others quoted with inner
/// quotes doubled, and a line feed at the end.
pub fn encode_copy_line(fields: &Vec<String>, delimiter: char) -> (r: String)
    ensures
        r@ == copy_line(fields_view(fields@), delimiter),
{
    let ghost fs = fields_view(fields@);
    let mut line = String::new();
    let mut k: usize = 0;
    while k < fields.len()
        invariant
            k <= fields.len(),
            fs == fields_view(fields@),
            line@ == encode_fields(fs.take(k as int), delimiter),
        decreases fields.len() - k,
    {
        let ghost before = line@;
        if k > 0 {
            push_char(&mut line, delimiter);
        }
        push_field(&mut line, &fields[k]);
        proof {
            let t = fs.take(k + 1);
            assert(t.last() == fields@[k as int]@);
            if k == 0 {
                assert(line@ =~= encode_fields(t, delimiter));
            } else {
                lemma_encode_fields_push(t, delimiter);
                assert(t.drop_last() =~= fs.take(k as int));
                assert(line@ =~= encode_fields(t, delimiter));
            }
        }
        k = k + 1;
    }
    assert(fs.take(fields.len() as int) =~= fs);
    push_char(&mut line, '\n');
    line
}

proof fn lemma_unquote_escape(f: Seq<char>, rest: Seq<char>)
    requires
        rest.len() == 0 || rest[0] != '"',
    ensures
        unquote(escape(f) + seq!['"'] + rest) == Some((f, rest)),
    decreases f.len(),
{
    let s = escape(f) + seq!['"'] + rest;
    if f.len() == 0 {
        assert(s =~= seq!['"'] + rest);
        assert(s.drop_first() =~= rest);
    } else {
        let c = f[0];
        lemma_unquote_escape(f.drop_first(), rest);
        let t = escape(f.drop_first()) + seq!['"'] + rest;
        if c == '"' {
            assert(s =~= seq!['"', '"'] + t);
            assert(s.skip(2) =~= t);
        } else {
            assert(s =~= seq![c] + t);
            assert(s.drop_first() =~= t);
        }
        assert(seq![c] + f.drop_first() =~= f);
    }
}

proof fn lemma_index_of_plain(a: Seq<char>, b: Seq<char>, d: char)
    requires
        !a.contains(d),
    ensures
        index_of(a + b, d) == a.len() + index_of(b, d),
        index_of(a, d) == a.len(),
    decreases a.len(),
{
    if a.len() > 0 {
        assert(!a.drop_first().contains(d)) by {
            if a.drop_first().contains(d) {
                let k = choose|k: int| 0 <= k < a.drop_first().len() && a.drop_first()[k] == d;
                assert(a[k + 1] == d);
            }
        }
        assert(a[0] != d);
        assert((a + b).drop_first() =~= a.drop_first() + b);
        lemma_index_of_plain(a.drop_first(), b, d);
    }
}

proof fn lemma_index_of_bounds(s: Seq<char>, d: char)
    ensures
        0 <= index_of(s, d) <= s.len(),
        index_of(s, d) < s.len() ==> s[index_of(s, d)] == d,
    decreases s.len(),
{
    if s.len() > 0 && s[0] != d {
        lemma_index_of_bounds(s.drop_first(), d);
    }
}

/// A row written as a copy line and read back by the server's CSV-mode
/// reader gives back every value byte for byte, empty fields as NULL, when
/// the delimiter is neither a quote, a backslash nor `N`.
pub proof fn lemma_copy_line_round_trip(fs: Seq<Seq<char>>, d: char)
    requires
        fs.len() >= 1,
        copy_delimiter_ok(d),
    ensures
        decode_fields(copy_line(fs, d).drop_last(), d) == Some(
            fs.map_values(|f: Seq<char>| stored_value(f)),
        ),
    decreases fs.len(),
{
    let line = encode_fields(fs, d);
    assert(copy_line(fs, d).drop_last() =~= line);
    let want = fs.map_values(|f: Seq<char>| stored_value(f));
    let f0 = fs[0];
    let tail = if fs.len() == 1 {
        Seq::<char>::empty()
    } else {
        seq![d] + encode_fields(fs.drop_first(), d)
    };
    assert(line =~= encode_field(f0) + tail);
    if fs.len() > 1 {
        lemma_copy_line_round_trip(fs.drop_first(), d);
        assert(copy_line(fs.drop_first(), d).drop_last() =~= encode_fields(fs.drop_first(), d));
        assert(want =~= seq![stored_value(f0)] + fs.drop_first().map_values(
            |f: Seq<char>| stored_value(f),
        ));
    } else {
        assert(want =~= seq![stored_value(f0)]);
    }
    if f0.len() == 0 {
        let m = null_marker();
        assert(!m.contains(d)) by {
            if m.contains(d) {
                let k = choose|k: int| 0 <= k < m.len() && m[k] == d;
                assert(k == 0 || k == 1);
            }
        }
        assert(line[0] == '\\');
        lemma_index_of_plain(m, tail, d);
        assert(line =~= m + tail);
        if fs.len() == 1 {
            assert(tail =~= Seq::<char>::empty());
            assert(m + tail =~= m);
            assert(index_of(line, d) == 2);
            assert(line.take(2) =~= m);
        } else {
            assert(index_of(tail, d) == 0);
            assert(line.take(2) =~= m);
            assert(line.skip(3) =~= encode_fields(fs.drop_first(), d));
        }
    } else {
        let body = escape(f0) + seq!['"'] + tail;
        assert(line =~= seq!['"'] + body);
        assert(line.drop_first() =~= body);
        lemma_unquote_escape(f0, tail);
        if fs.len() > 1 {
            assert(tail.drop_first() =~= encode_fields(fs.drop_first(), d));
        }
    }
}

} // verus!
