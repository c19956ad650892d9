use crate::text::{line_text, LineTable};
use vstd::prelude::*;

verus! {

/// The bytes that the walk along a line tells apart.
pub const QUOTE_DOUBLE: u8 = 34;

pub const HASH: u8 = 35;

pub const QUOTE_SINGLE: u8 = 39;

pub const ROUND_OPEN: u8 = 40;

pub const ROUND_CLOSE: u8 = 41;

pub const COLON: u8 = 58;

pub const SQUARE_OPEN: u8 = 91;

pub const BACKSLASH: u8 = 92;

pub const SQUARE_CLOSE: u8 = 93;

pub const CURLY_OPEN: u8 = 123;

pub const CURLY_CLOSE: u8 = 125;

/// How many round, square and curly brackets stand open.
#[derive(Clone, Copy, PartialEq, Eq, Structural, Debug)]
pub struct Depths {
    pub round: usize,
    pub square: usize,
    pub curly: usize,
}

/// Where a walk along one line stands.
#[derive(Clone, Copy, PartialEq, Eq, Structural, Debug)]
pub struct LineScan {
    pub depths: Depths,
    /// The quote that opened the string literal the walk is in, or 0.
    pub quote: u8,
    /// The previous byte was a backslash inside a string literal.
    pub escaped: bool,
    /// A `#` outside any string literal has been passed.
    pub in_comment: bool,
    /// The last byte before the comment that is not white space, or 0.
    pub last_code: u8,
}

/// The byte is white space: a space, a tab or a line terminator.
pub open spec fn is_blank(b: u8) -> bool {
    b == 32 || (9 <= b && b <= 13)
}

/// The depth after one more bracket was opened; it stops at the largest
/// number.
pub open spec fn opened(depth: usize) -> usize {
    if depth < usize::MAX {
        (depth + 1) as usize
    } else {
        depth
    }
}

/// The depth after a bracket was closed; it stops at 0.
pub open spec fn closed(depth: usize) -> usize {
    if depth > 0 {
        (depth - 1) as usize
    } else {
        depth
    }
}

/// No bracket stands open.
pub open spec fn no_depth() -> Depths {
    Depths { round: 0, square: 0, curly: 0 }
}

/// Where a walk along a line begins.
pub open spec fn scan_start(depths: Depths) -> LineScan {
    LineScan { depths, quote: 0, escaped: false, in_comment: false, last_code: 0 }
}

/// The brackets open after a byte that stands outside string literals and
/// comments.
pub open spec fn depths_after(d: Depths, b: u8) -> Depths {
    if b == ROUND_OPEN {
        Depths { round: opened(d.round), ..d }
    } else if b == ROUND_CLOSE {
        Depths { round: closed(d.round), ..d }
    } else if b == SQUARE_OPEN {
        Depths { square: opened(d.square), ..d }
    } else if b == SQUARE_CLOSE {
        Depths { square: closed(d.square), ..d }
    } else if b == CURLY_OPEN {
        Depths { curly: opened(d.curly), ..d }
    } else if b == CURLY_CLOSE {
        Depths { curly: closed(d.curly), ..d }
    } else {
        d
    }
}

/// One step of the walk. Inside a string literal a backslash protects the
/// next byte and the opening quote closes the literal; outside, a quote opens
/// one, `#` begins the comment, and brackets count.
pub open spec fn scan_byte(st: LineScan, b: u8) -> LineScan {
    if st.in_comment {
        st
    } else if st.quote == 0 && b == HASH {
        LineScan { in_comment: true, ..st }
    } else {
        let last_code = if is_blank(b) {
            st.last_code
        } else {
            b
        };
        if st.quote != 0 {
            if st.escaped {
                LineScan { escaped: false, last_code, ..st }
            } else if b == BACKSLASH {
                LineScan { escaped: true, last_code, ..st }
            } else if b == st.quote {
                LineScan { quote: 0, last_code, ..st }
            } else {
                LineScan { last_code, ..st }
            }
        } else if b == QUOTE_SINGLE || b == QUOTE_DOUBLE {
            LineScan { quote: b, last_code, ..st }
        } else {
            LineScan { depths: depths_after(st.depths, b), last_code, ..st }
        }
    }
}

/// The walk along the first `n` bytes of a line, begun outside any string
/// literal with `depths` brackets open.
pub open spec fn scan_prefix(depths: Depths, line: Seq<u8>, n: int) -> LineScan
    decreases n,
{
    if n <= 0 {
        scan_start(depths)
    } else {
        scan_byte(scan_prefix(depths, line, n - 1), line[n - 1])
    }
}

/// The walk along a whole line.
pub open spec fn scan_line(depths: Depths, line: Seq<u8>) -> LineScan {
    scan_prefix(depths, line, line.len() as int)
}

/// The line ends a signature: its code, comment and trailing white space set
/// aside, ends with a colon, and no bracket stands open.
pub open spec fn closes_signature(scan: LineScan) -> bool {
    scan.last_code == COLON && scan.depths == no_depth()
}

/// The first line from `line` to `last` that ends a signature when the walk
/// reaches `line` with `depths` brackets open; `last` if there is none.
pub open spec fn signature_end_from(s: Seq<u8>, line: int, last: int, depths: Depths) -> int
    decreases last - line,
{
    if line >= last {
        last
    } else {
        let scan = scan_line(depths, line_text(s, line));
        if closes_signature(scan) {
            line
        } else {
            signature_end_from(s, line + 1, last, scan.depths)
        }
    }
}

/// The last line of the signature of a definition that spans the lines
/// `first` to `last`: decorators and header, up to the line that ends with
/// the colon.
pub open spec fn signature_end(s: Seq<u8>, first: int, last: int) -> int {
    signature_end_from(s, first, last, no_depth())
}

/// The signature ends between the line where the search begins and the
/// last line.
pub proof fn lemma_signature_end_bounds(s: Seq<u8>, line: int, last: int, depths: Depths)
    requires
        line <= last,
    ensures
        line <= signature_end_from(s, line, last, depths) <= last,
    decreases last - line,
{
    if line < last {
        let scan = scan_line(depths, line_text(s, line));
        if !closes_signature(scan) {
            lemma_signature_end_bounds(s, line + 1, last, scan.depths);
        }
    }
}

fn step(st: LineScan, b: u8) -> (next: LineScan)
    ensures
        next == scan_byte(st, b),
{
    if st.in_comment {
        return st;
    }
    if st.quote == 0 && b == HASH {
        return LineScan { in_comment: true, ..st };
    }
    let blank: bool = b == 32 || (9 <= b && b <= 13);
    let last_code: u8 = if blank {
        st.last_code
    } else {
        b
    };
    if st.quote != 0 {
        if st.escaped {
            LineScan { escaped: false, last_code, ..st }
        } else if b == BACKSLASH {
            LineScan { escaped: true, last_code, ..st }
        } else if b == st.quote {
            LineScan { quote: 0, last_code, ..st }
        } else {
            LineScan { last_code, ..st }
        }
    } else if b == QUOTE_SINGLE || b == QUOTE_DOUBLE {
        LineScan { quote: b, last_code, ..st }
    } else {
        let d: Depths = st.depths;
        let depths: Depths = if b == ROUND_OPEN {
            Depths { round: d.round.saturating_add(1), ..d }
        } else if b == ROUND_CLOSE {
            Depths { round: d.round.saturating_sub(1), ..d }
        } else if b == SQUARE_OPEN {
            Depths { square: d.square.saturating_add(1), ..d }
        } else if b == SQUARE_CLOSE {
            Depths { square: d.square.saturating_sub(1), ..d }
        } else if b == CURLY_OPEN {
            Depths { curly: d.curly.saturating_add(1), ..d }
        } else if b == CURLY_CLOSE {
            Depths { curly: d.curly.saturating_sub(1), ..d }
        } else {
            d
        };
        LineScan { depths, last_code, ..st }
    }
}

/// Walks along one line of the text.
pub fn scan_text_line(table: &LineTable, bytes: &[u8], line: usize, depths: Depths) -> (scan:
    LineScan)
    requires
        table.describes(bytes@),
        1 <= line <= table.starts@.len(),
    ensures
        scan == scan_line(depths, line_text(bytes@, line as int)),
{
    let from: usize = table.line_start(bytes, line);
    let to: usize = table.line_end(bytes, line);
    let ghost text = line_text(bytes@, line as int);
    let mut st: LineScan = LineScan {
        depths,
        quote: 0,
        escaped: false,
        in_comment: false,
        last_code: 0,
    };
    let mut i: usize = from;
    while i < to
        invariant
            from <= i <= to <= bytes@.len(),
            text == bytes@.subrange(from as int, to as int),
            st == scan_prefix(depths, text, i - from),
        decreases to - i,
    {
        assert(text[i - from] == bytes@[i as int]);
        st = step(st, bytes[i]);
        i += 1;
    }
    st
}

/// Finds the last line of the signature of a definition that spans the
/// lines `first` to `last`.
pub fn find_signature_end(table: &LineTable, bytes: &[u8], first: usize, last: usize) -> (end:
    usize)
    requires
        table.describes(bytes@),
        1 <= first <= last <= table.starts@.len(),
    ensures
        end == signature_end(bytes@, first as int, last as int),
        first <= end <= last,
{
    let mut line: usize = first;
    let mut depths: Depths = Depths { round: 0, square: 0, curly: 0 };
    while line < last
        invariant
            table.describes(bytes@),
            1 <= first <= line <= last <= table.starts@.len(),
            signature_end(bytes@, first as int, last as int) == signature_end_from(
                bytes@,
                line as int,
                last as int,
                depths,
            ),
        decreases last - line,
    {
        let scan: LineScan = scan_text_line(table, bytes, line, depths);
        if scan.last_code == COLON && scan.depths.round == 0 && scan.depths.square == 0
            && scan.depths.curly == 0 {
            return line;
        }
        depths = scan.depths;
        line += 1;
    }
    line
}

} // verus!
