//! Delimiter detection from the first lines of a file, and line counting
//! for progress.

use vstd::prelude::*;

verus! {

pub const COMMA: u8 = 0x2C;

pub const TAB: u8 = 0x09;

pub const NEWLINE: u8 = 0x0A;

/// How many times `b` occurs in `s`.
pub open spec fn count_of(s: Seq<u8>, b: u8) -> nat
    decreases s.len(),
{
    if s.len() == 0 {
        0
    } else {
        count_of(s.drop_last(), b) + if s.last() == b {
            1nat
        } else {
            0nat
        }
    }
}

/// How many times `b` occurs in the first `lines` lines of `s`.
pub open spec fn head_count(s: Seq<u8>, lines: nat, b: u8) -> nat
    decreases s.len(),
{
    if s.len() == 0 || lines == 0 {
        0
    } else {
        let rest_lines = if s[0] == NEWLINE {
            (lines - 1) as nat
        } else {
            lines
        };
        (if s[0] == b {
            1nat
        } else {
            0nat
        }) + head_count(s.drop_first(), rest_lines, b)
    }
}

/// The number of lines of `s` as a line reader yields them: one per line
/// feed, and one more for text after the last line feed.
pub open spec fn line_count(s: Seq<u8>) -> nat {
    count_of(s, NEWLINE) + if s.len() > 0 && s.last() != NEWLINE {
        1nat
    } else {
        0nat
    }
}

/// The delimiter that the first line of `head` suggests: tab where tabs
/// outnumber commas there, else comma; `None` where it holds neither.
pub open spec fn first_line_delimiter(head: Seq<u8>) -> Option<u8> {
    let tabs = head_count(head, 1, TAB);
    let commas = head_count(head, 1, COMMA);
    if tabs == 0 && commas == 0 {
        None
    } else if tabs > commas {
        Some(TAB)
    } else {
        Some(COMMA)
    }
}

/// The delimiter that the first five lines of a sample suggest, or `None`
/// where they hold neither a tab nor a comma. Tab wins only where tabs are
/// more than twice as many as commas.
pub open spec fn sample_delimiter(sample: Seq<u8>) -> Option<u8> {
    let tabs = head_count(sample, 5, TAB);
    let commas = head_count(sample, 5, COMMA);
    if tabs == 0 && commas == 0 {
        None
    } else if tabs > 2 * commas {
        Some(TAB)
    } else {
        Some(COMMA)
    }
}

/// Tabs and commas in the first `lines` lines of `s`, in one pass.
fn head_tabs_and_commas(s: &[u8], lines: usize) -> (r: (usize, usize))
    ensures
        r.0 == head_count(s@, lines as nat, TAB),
        r.1 == head_count(s@, lines as nat, COMMA),
{
    let mut tabs: usize = 0;
    let mut commas: usize = 0;
    let mut left = lines;
    let mut i: usize = 0;
    assert(s@.skip(0) =~= s@);
    while i < s.len() && left > 0
        invariant
            i <= s.len(),
            tabs <= i,
            commas <= i,
            head_count(s@, lines as nat, TAB) == tabs + head_count(s@.skip(i as int), left as nat, TAB),
            head_count(s@, lines as nat, COMMA) == commas + head_count(
                s@.skip(i as int),
                left as nat,
                COMMA,
            ),
        decreases s.len() - i,
    {
        assert(s@.skip(i as int).drop_first() =~= s@.skip(i + 1));
        assert(s@.skip(i as int)[0] == s[i as int]);
        let b = s[i];
        if b == TAB {
            tabs = tabs + 1;
        } else if b == COMMA {
            commas = commas + 1;
        }
        if b == NEWLINE {
            left = left - 1;
        }
        i = i + 1;
    }
    (tabs, commas)
}

/// Picks the field delimiter from the first line of a file; `None` where
/// that line holds neither a tab nor a comma.
pub fn detect_delimiter(head: &[u8]) -> (r: Option<u8>)
    ensures
        r == first_line_delimiter(head@),
{
    let (tabs, commas) = head_tabs_and_commas(head, 1);
    if tabs == 0 && commas == 0 {
        None
    } else if tabs > commas {
        Some(TAB)
    } else {
        Some(COMMA)
    }
}

/// Picks the field delimiter from the first five lines of a sample; `None`
/// where they hold neither a tab nor a comma.
pub fn detect_sample_delimiter(sample: &[u8]) -> (r: Option<u8>)
    ensures
        r == sample_delimiter(sample@),
{
    let (tabs, commas) = head_tabs_and_commas(sample, 5);
    if tabs == 0 && commas == 0 {
        None
    } else if tabs / 2 >= commas && tabs > 2 * commas {
        Some(TAB)
    } else {
        Some(COMMA)
    }
}

/// Counts lines over a file handed in pieces, so that the file need not be
/// held whole.
pub struct LineCounter {
    newlines: usize,
    open_line: bool,
    fed: usize,
    seen: Ghost<Seq<u8>>,
}

impl LineCounter {
    /// The bytes handed in so far.
    pub closed spec fn content(&self) -> Seq<u8> {
        self.seen@
    }

    pub closed spec fn wf(&self) -> bool {
        &&& self.newlines == count_of(self.seen@, NEWLINE)
        &&& self.open_line == (self.seen@.len() > 0 && self.seen@.last() != NEWLINE)
        &&& self.fed == self.seen@.len()
    }

    pub fn new() -> (r: LineCounter)
        ensures
            r.wf(),
            r.content() == Seq::<u8>::empty(),
    {
        LineCounter { newlines: 0, open_line: false, fed: 0, seen: Ghost(Seq::empty()) }
    }

    /// How many bytes have been handed in.
    pub fn bytes_fed(&self) -> (r: usize)
        requires
            self.wf(),
        ensures
            r == self.content().len(),
    {
        self.fed
    }

    /// Hands in the next piece of the file.
    pub fn feed(&mut self, chunk: &[u8])
        requires
            old(self).wf(),
            old(self).content().len() + chunk@.len() <= usize::MAX,
        ensures
            final(self).wf(),
            final(self).content() == old(self).content() + chunk@,
    {
        let ghost start = self.seen@;
        let mut i: usize = 0;
        assert(start + chunk@.take(0) =~= start);
        proof {
            lemma_count_le_len(start, NEWLINE);
        }
        while i < chunk.len()
            invariant
                self.wf(),
                i <= chunk.len(),
                self.seen@ == start + chunk@.take(i as int),
                start.len() + chunk@.len() <= usize::MAX,
                self.newlines <= self.seen@.len(),
            decreases chunk.len() - i,
        {
            let b = chunk[i];
            let ghost prev = self.seen@;
            self.seen = Ghost(prev.push(b));
            assert(self.seen@.drop_last() =~= prev);
            assert(start + chunk@.take(i + 1) =~= prev.push(b));
            if b == NEWLINE {
                self.newlines = self.newlines + 1;
                self.open_line = false;
            } else {
                self.open_line = true;
            }
            self.fed = self.fed + 1;
            i = i + 1;
        }
        assert(chunk@.take(chunk@.len() as int) =~= chunk@);
    }

    /// The number of lines in what was handed in.
    pub fn total(&self) -> (r: usize)
        requires
            self.wf(),
        ensures
            r == line_count(self.content()),
    {
        proof {
            lemma_count_le_len(self.seen@, NEWLINE);
        }
        if self.open_line {
            self.newlines + 1
        } else {
            self.newlines
        }
    }
}

pub proof fn lemma_count_le_len(s: Seq<u8>, b: u8)
    ensures
        count_of(s, b) <= s.len(),
        s.len() > 0 && s.last() != b ==> count_of(s, b) < s.len(),
    decreases s.len(),
{
    if s.len() > 0 {
        lemma_count_le_len(s.drop_last(), b);
    }
}

/// The number of lines in `data`, for progress reporting.
pub fn count_rows(data: &[u8]) -> (r: usize)
    ensures
        r == line_count(data@),
{
    let mut counter = LineCounter::new();
    let n = data.len();
    assert(n == data@.len());
    counter.feed(data);
    assert(Seq::<u8>::empty() + data@ =~= data@);
    counter.total()
}

} // verus!
