//! Reading a file as chunks of lines from a line offset on, decoding a
//! single-byte legacy encoding.

use vstd::prelude::*;
use crate::text::split_on;
use crate::text::split_ranges;
use crate::text::push_char;

verus! {

/// Text from a single-byte legacy encoding: each byte stands for the
/// character with the same code point (so the accented Latin-1 letters, and
/// CR and LF, come out as themselves).
pub open spec fn latin1(bytes: Seq<u8>) -> Seq<char> {
    bytes.map_values(|b: u8| b as char)
}

pub open spec fn strings_view(v: Seq<String>) -> Seq<Seq<char>> {
    v.map_values(|s: String| s@)
}

/// The lines `ls`, each followed by a line feed.
pub open spec fn with_newlines(ls: Seq<Seq<char>>) -> Seq<char>
    decreases ls.len(),
{
    if ls.len() == 0 {
        Seq::empty()
    } else {
        with_newlines(ls.drop_last()) + ls.last().push('\n')
    }
}

/// The lines `ls` grouped `size` at a time; the last group may be shorter.
pub open spec fn chunk_texts(ls: Seq<Seq<char>>, size: nat) -> Seq<Seq<char>>
    decreases ls.len(),
{
    if ls.len() == 0 || size == 0 {
        Seq::empty()
    } else if ls.len() <= size {
        seq![with_newlines(ls)]
    } else {
        seq![with_newlines(ls.take(size as int))] + chunk_texts(ls.skip(size as int), size)
    }
}

/// Lines handed out per call: this many chunks' worth.
pub const CHUNKS_PER_CALL: usize = 10;

/// The window of lines, `[start, end)`, that a call at `offset` covers.
pub open spec fn line_window(total: nat, chunk_size: nat, offset: nat) -> (nat, nat) {
    let end: int = if offset + chunk_size * CHUNKS_PER_CALL < total {
        offset + chunk_size * CHUNKS_PER_CALL
    } else {
        total as int
    };
    let start: int = if offset < end {
        offset as int
    } else {
        end
    };
    (start as nat, end as nat)
}

/// The chunks of a file read from line `offset` on, and whether they reach
/// its last line.
pub open spec fn file_chunks_of(content: Seq<char>, chunk_size: nat, offset: nat) -> (
    Seq<Seq<char>>,
    bool,
) {
    let ls = split_on(content, '\n');
    let (start, end) = line_window(ls.len(), chunk_size, offset);
    (chunk_texts(ls.subrange(start as int, end as int), chunk_size), end >= ls.len())
}

/// Decodes legacy single-byte text.
pub fn decode_legacy(bytes: &[u8]) -> (r: Vec<char>)
    ensures
        r@ == latin1(bytes@),
{
    let mut r: Vec<char> = Vec::new();
    let mut i: usize = 0;
    while i < bytes.len()
        invariant
            i <= bytes.len(),
            r@ == latin1(bytes@.take(i as int)),
        decreases bytes.len() - i,
    {
        r.push(bytes[i] as char);
        i = i + 1;
        assert(r@ =~= latin1(bytes@.take(i as int)));
    }
    assert(bytes@.take(i as int) =~= bytes@);
    r
}

fn append_chars(s: &mut String, cs: &Vec<char>, a: usize, b: usize)
    requires
        a <= b <= cs.len(),
    ensures
        final(s)@ == old(s)@ + cs@.subrange(a as int, b as int),
{
    let mut k = a;
    while k < b
        invariant
            a <= k <= b <= cs.len(),
            s@ == old(s)@ + cs@.subrange(a as int, k as int),
        decreases b - k,
    {
        push_char(s, cs[k]);
        k = k + 1;
        assert(s@ =~= old(s)@ + cs@.subrange(a as int, k as int));
    }
}

/// Decodes a file, splits it into lines and hands out the lines from
/// `offset` on, `chunk_size` lines per chunk and at most ten chunks; the flag
/// says whether the file's last line was reached.
pub fn file_chunks(data: &[u8], chunk_size: usize, offset: usize) -> (r: (Vec<String>, bool))
    ensures
        strings_view(r.0@) == file_chunks_of(latin1(data@), chunk_size as nat, offset as nat).0,
        r.1 == file_chunks_of(latin1(data@), chunk_size as nat, offset as nat).1,
{
    let content = decode_legacy(data);
    let lines = split_ranges(&content, 0, content.len(), '\n');
    let ghost ls = split_on(content@, '\n');
    assert(content@.subrange(0, content@.len() as int) =~= content@);
    let total = lines.len();
    let end = if chunk_size <= (usize::MAX - offset) / CHUNKS_PER_CALL && offset + chunk_size
        * CHUNKS_PER_CALL < total {
        offset + chunk_size * CHUNKS_PER_CALL
    } else {
        total
    };
    let start = if offset < end {
        offset
    } else {
        end
    };
    assert((start as nat, end as nat) == line_window(total as nat, chunk_size as nat, offset as nat))
        by (nonlinear_arith)
        requires
            chunk_size <= (usize::MAX - offset) / 10 ==> chunk_size * 10 <= usize::MAX - offset,
            end == (if chunk_size <= (usize::MAX - offset) / 10 && offset + chunk_size * 10
                < total {
                offset + chunk_size * 10
            } else {
                total as int
            }),
            start == (if offset < end {
                offset as int
            } else {
                end as int
            }),
            CHUNKS_PER_CALL == 10,
            total <= usize::MAX,
    ;
    let ghost sel = ls.subrange(start as int, end as int);
    let mut chunks: Vec<String> = Vec::new();
    if chunk_size > 0 {
        let mut j = start;
        assert(ls.subrange(j as int, end as int) =~= sel);
        assert(strings_view(chunks@) + chunk_texts(sel, chunk_size as nat) =~= chunk_texts(
            sel,
            chunk_size as nat,
        ));
        while j < end
            invariant
                start <= j <= end <= total,
                total == lines.len(),
                ls == split_on(content@, '\n'),
                lines.len() == ls.len(),
                chunk_size > 0,
                sel == ls.subrange(start as int, end as int),
                forall|i: int|
                    0 <= i < lines.len() ==> 0 <= (#[trigger] lines[i]).0 <= lines[i].1
                        <= content.len() && content@.subrange(lines[i].0 as int, lines[i].1 as int)
                        == ls[i],
                strings_view(chunks@) + chunk_texts(
                    ls.subrange(j as int, end as int),
                    chunk_size as nat,
                ) == chunk_texts(sel, chunk_size as nat),
            decreases end - j,
        {
            let stop = if end - j > chunk_size {
                j + chunk_size
            } else {
                end
            };
            let mut cur = String::new();
            let mut k = j;
            assert(ls.subrange(j as int, k as int) =~= Seq::<Seq<char>>::empty());
            while k < stop
                invariant
                    j <= k <= stop <= end <= total,
                    total == lines.len(),
                    lines.len() == ls.len(),
                    forall|i: int|
                        0 <= i < lines.len() ==> 0 <= (#[trigger] lines[i]).0 <= lines[i].1
                            <= content.len() && content@.subrange(
                            lines[i].0 as int,
                            lines[i].1 as int,
                        ) == ls[i],
                    cur@ == with_newlines(ls.subrange(j as int, k as int)),
                decreases stop - k,
            {
                let ghost before = cur@;
                append_chars(&mut cur, &content, lines[k].0, lines[k].1);
                push_char(&mut cur, '\n');
                assert(ls.subrange(j as int, k + 1).drop_last() =~= ls.subrange(j as int, k as int));
                assert(ls.subrange(j as int, k + 1).last() == ls[k as int]);
                assert(cur@ =~= before + ls[k as int].push('\n'));
                k = k + 1;
            }
            let ghost rest = ls.subrange(j as int, end as int);
            let ghost prev_chunks = strings_view(chunks@);
            chunks.push(cur);
            assert(strings_view(chunks@) =~= prev_chunks.push(
                with_newlines(ls.subrange(j as int, stop as int)),
            ));
            if end - j > chunk_size {
                assert(rest.take(chunk_size as int) =~= ls.subrange(j as int, stop as int));
                assert(rest.skip(chunk_size as int) =~= ls.subrange(stop as int, end as int));
            } else {
                assert(rest =~= ls.subrange(j as int, stop as int));
                assert(ls.subrange(stop as int, end as int) =~= Seq::<Seq<char>>::empty());
            }
            assert(strings_view(chunks@) + chunk_texts(
                ls.subrange(stop as int, end as int),
                chunk_size as nat,
            ) =~= prev_chunks + chunk_texts(rest, chunk_size as nat));
            j = stop;
        }
        assert(ls.subrange(end as int, end as int) =~= Seq::<Seq<char>>::empty());
        assert(strings_view(chunks@) =~= strings_view(chunks@) + chunk_texts(
            ls.subrange(end as int, end as int),
            chunk_size as nat,
        ));
    } else {
        assert(strings_view(chunks@) =~= Seq::<Seq<char>>::empty());
    }
    (chunks, end >= total)
}

} // verus!
