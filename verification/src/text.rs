use vstd::prelude::*;

verus! {

/// The line feed.
pub const LINE_FEED: u8 = 10;

/// The carriage return.
pub const CARRIAGE_RETURN: u8 = 13;

/// A line ends at a line feed, or at a carriage return that no line feed
/// follows: the byte at `i` is the last byte of such a terminator.
pub open spec fn is_line_break(s: Seq<u8>, i: int) -> bool {
    &&& 0 <= i < s.len()
    &&& (s[i] == LINE_FEED || (s[i] == CARRIAGE_RETURN && !(i + 1 < s.len() && s[i + 1]
        == LINE_FEED)))
}

/// The number of line breaks among the first `n` bytes.
pub open spec fn breaks_before(s: Seq<u8>, n: int) -> nat
    decreases n,
{
    if n <= 0 {
        0
    } else {
        breaks_before(s, n - 1) + if is_line_break(s, n - 1) {
            1nat
        } else {
            0nat
        }
    }
}

/// The 1-indexed line that holds the byte at `offset`. A terminator belongs
/// to the line it ends.
pub open spec fn line_of_offset(s: Seq<u8>, offset: int) -> int {
    1 + breaks_before(s, offset) as int
}

/// The offsets at which the lines found among the first `n` bytes begin:
/// 0, then the offset after each line break, in increasing order.
pub open spec fn line_starts_upto(s: Seq<u8>, n: int) -> Seq<int>
    decreases n,
{
    if n <= 0 {
        seq![0int]
    } else if is_line_break(s, n - 1) {
        line_starts_upto(s, n - 1).push(n)
    } else {
        line_starts_upto(s, n - 1)
    }
}

/// The offsets at which the lines of a text begin.
pub open spec fn line_starts(s: Seq<u8>) -> Seq<int> {
    line_starts_upto(s, s.len() as int)
}

/// The number of lines of a text. A terminator at the very end opens no
/// further line, and the empty text has one line.
pub open spec fn line_count(s: Seq<u8>) -> int {
    let starts = line_starts(s);
    if starts.len() > 1 && starts.last() == s.len() {
        starts.len() - 1
    } else {
        starts.len() as int
    }
}

/// Where line `line` begins.
pub open spec fn line_start(s: Seq<u8>, line: int) -> int
    recommends
        1 <= line <= line_starts(s).len(),
{
    line_starts(s)[line - 1]
}

/// Where the content of line `line` ends: at its terminator, which is one
/// byte or a carriage return with a line feed, or at the end of the text.
pub open spec fn line_end(s: Seq<u8>, line: int) -> int
    recommends
        1 <= line <= line_starts(s).len(),
{
    if line < line_starts(s).len() {
        let last = line_starts(s)[line] - 1;
        if line_starts(s)[line - 1] < last && s[last] == LINE_FEED && s[last - 1]
            == CARRIAGE_RETURN {
            last - 1
        } else {
            last
        }
    } else {
        s.len() as int
    }
}

/// The bytes of one line, without its terminator.
pub open spec fn line_text(s: Seq<u8>, line: int) -> Seq<u8>
    recommends
        1 <= line <= line_starts(s).len(),
{
    s.subrange(line_start(s, line), line_end(s, line))
}

/// The bytes from the beginning of line `first` to the end of line `last`,
/// as they stand in the text, without the terminator of line `last`.
pub open spec fn span_text(s: Seq<u8>, first: int, last: int) -> Seq<u8>
    recommends
        1 <= first <= last <= line_starts(s).len(),
{
    s.subrange(line_start(s, first), line_end(s, last))
}

/// The line starts begin with 0, increase, lie inside the text, and are one
/// more than the line breaks.
pub proof fn lemma_line_starts_shape(s: Seq<u8>, n: int)
    requires
        0 <= n <= s.len(),
    ensures
        line_starts_upto(s, n).len() == breaks_before(s, n) + 1,
        line_starts_upto(s, n)[0] == 0,
        forall|i: int| 0 <= i < line_starts_upto(s, n).len() ==> 0 <= #[trigger] line_starts_upto(s, n)[i] <= n,
        forall|i: int, j: int|
            0 <= i < j < line_starts_upto(s, n).len() ==> #[trigger] line_starts_upto(s, n)[i]
                < #[trigger] line_starts_upto(s, n)[j],
    decreases n,
{
    if n > 0 {
        lemma_line_starts_shape(s, n - 1);
        let prev = line_starts_upto(s, n - 1);
        let cur = line_starts_upto(s, n);
        if is_line_break(s, n - 1) {
            assert(cur == prev.push(n));
            assert forall|i: int, j: int| 0 <= i < j < cur.len() implies #[trigger] cur[i]
                < #[trigger] cur[j] by {
                if j < prev.len() {
                    assert(cur[i] == prev[i] && cur[j] == prev[j]);
                } else {
                    assert(cur[i] == prev[i]);
                    assert(prev[i] <= n - 1);
                }
            }
        }
    }
}

/// The starts found among the first `n` bytes are the first starts of the
/// whole text, and every later start lies beyond `n`.
pub proof fn lemma_line_starts_prefix(s: Seq<u8>, n: int, m: int)
    requires
        0 <= n <= m <= s.len(),
    ensures
        line_starts_upto(s, n).len() <= line_starts_upto(s, m).len(),
        forall|i: int|
            0 <= i < line_starts_upto(s, n).len() ==> #[trigger] line_starts_upto(s, m)[i]
                == line_starts_upto(s, n)[i],
        forall|i: int|
            line_starts_upto(s, n).len() <= i < line_starts_upto(s, m).len()
                ==> #[trigger] line_starts_upto(s, m)[i] > n,
    decreases m - n,
{
    if n < m {
        lemma_line_starts_prefix(s, n, m - 1);
        lemma_line_starts_shape(s, m - 1);
    }
}

/// The line starts of a text, computed once so that offsets and lines can be
/// mapped to each other without scanning the text again.
pub struct LineTable {
    pub starts: Vec<usize>,
}

impl LineTable {
    /// The table holds exactly the line starts of `s`.
    pub open spec fn describes(&self, s: Seq<u8>) -> bool {
        &&& self.starts@.len() == line_starts(s).len()
        &&& forall|i: int| 0 <= i < self.starts@.len() ==> #[trigger] self.starts@[i] as int == line_starts(s)[i]
    }

    /// Finds the line starts of a text.
    pub fn build(bytes: &[u8]) -> (table: LineTable)
        ensures
            table.describes(bytes@),
    {
        let mut starts: Vec<usize> = Vec::new();
        starts.push(0);
        let n: usize = bytes.len();
        let mut i: usize = 0;
        while i < n
            invariant
                n == bytes@.len(),
                i <= n,
                starts@.len() == line_starts_upto(bytes@, i as int).len(),
                forall|k: int|
                    0 <= k < starts@.len() ==> #[trigger] starts@[k] as int == line_starts_upto(
                        bytes@,
                        i as int,
                    )[k],
            decreases n - i,
        {
            let b: u8 = bytes[i];
            let ends_line: bool = b == LINE_FEED || (b == CARRIAGE_RETURN && !(i + 1 < n && bytes[i
                + 1] == LINE_FEED));
            assert(ends_line == is_line_break(bytes@, i as int));
            if ends_line {
                starts.push(i + 1);
            }
            i += 1;
        }
        LineTable { starts }
    }

    /// The number of lines of the text.
    pub fn line_count(&self, bytes: &[u8]) -> (count: usize)
        requires
            self.describes(bytes@),
        ensures
            count == line_count(bytes@),
            1 <= count <= self.starts@.len(),
    {
        proof {
            lemma_line_starts_shape(bytes@, bytes@.len() as int);
        }
        let k: usize = self.starts.len();
        if k > 1 && self.starts[k - 1] == bytes.len() {
            k - 1
        } else {
            k
        }
    }

    /// The line that holds the byte at `offset`.
    pub fn line_of_offset(&self, bytes: &[u8], offset: usize) -> (line: usize)
        requires
            self.describes(bytes@),
            offset <= bytes@.len(),
        ensures
            line == line_of_offset(bytes@, offset as int),
            1 <= line <= self.starts@.len(),
    {
        proof {
            lemma_line_starts_shape(bytes@, bytes@.len() as int);
            lemma_line_starts_shape(bytes@, offset as int);
            lemma_line_starts_prefix(bytes@, offset as int, bytes@.len() as int);
        }
        let mut lo: usize = 0;
        let mut hi: usize = self.starts.len();
        while hi - lo > 1
            invariant
                self.describes(bytes@),
                lo < hi <= self.starts@.len(),
                self.starts@[lo as int] <= offset,
                hi < self.starts@.len() ==> self.starts@[hi as int] > offset,
            decreases hi - lo,
        {
            let mid: usize = lo + (hi - lo) / 2;
            if self.starts[mid] <= offset {
                lo = mid;
            } else {
                hi = mid;
            }
        }
        proof {
            let p = line_starts_upto(bytes@, offset as int).len() as int;
            let all = line_starts(bytes@);
            assert(self.starts@[lo as int] as int == all[lo as int]);
            if lo >= p {
                assert(all[lo as int] > offset);
            }
            if lo + 1 < p {
                assert(self.starts@[lo + 1] as int == all[lo + 1]);
                assert(all[lo + 1] == line_starts_upto(bytes@, offset as int)[lo + 1]);
            }
            assert(lo + 1 == p);
        }
        lo + 1
    }

    /// Where line `line` begins.
    pub fn line_start(&self, bytes: &[u8], line: usize) -> (offset: usize)
        requires
            self.describes(bytes@),
            1 <= line <= self.starts@.len(),
        ensures
            offset == line_start(bytes@, line as int),
            offset <= bytes@.len(),
    {
        proof {
            lemma_line_starts_shape(bytes@, bytes@.len() as int);
        }
        self.starts[line - 1]
    }

    /// Where the content of line `line` ends.
    pub fn line_end(&self, bytes: &[u8], line: usize) -> (offset: usize)
        requires
            self.describes(bytes@),
            1 <= line <= self.starts@.len(),
        ensures
            offset == line_end(bytes@, line as int),
            line_start(bytes@, line as int) <= offset <= bytes@.len(),
    {
        proof {
            lemma_line_starts_shape(bytes@, bytes@.len() as int);
        }
        if line < self.starts.len() {
            assert(self.starts@[line as int] as int == line_starts(bytes@)[line as int]);
            assert(self.starts@[line - 1] as int == line_starts(bytes@)[line - 1]);
            let last: usize = self.starts[line] - 1;
            if self.starts[line - 1] < last && bytes[last] == LINE_FEED && bytes[last - 1]
                == CARRIAGE_RETURN {
                last - 1
            } else {
                last
            }
        } else {
            assert(self.starts@[line - 1] as int == line_starts(bytes@)[line - 1]);
            bytes.len()
        }
    }
}

} // verus!
