use vstd::prelude::*;

verus! {

/// A place in the source text: a character offset and a 1-based line and column.
#[derive(Clone, Copy, Debug, PartialEq, Eq)]
pub struct Position {
    pub idx: usize,
    pub line: usize,
    pub col: usize,
}

impl Position {
    /// The start of a text: offset 0, line 1, column 1.
    pub open spec fn start() -> Position {
        Position { idx: 0, line: 1, col: 1 }
    }

    /// Line and column never run ahead of what the offset allows.
    pub open spec fn wf(self) -> bool {
        &&& 1 <= self.line <= self.idx + 1
        &&& 1 <= self.col <= self.idx + 1
    }
}

impl Default for Position {
    fn default() -> (r: Position)
        ensures
            r == Position::start(),
    {
        Position { idx: 0, line: 1, col: 1 }
    }
}

/// Number of line breaks in `s`.
pub open spec fn count_newlines(s: Seq<char>) -> nat
    decreases s.len(),
{
    if s.len() == 0 {
        0
    } else {
        count_newlines(s.drop_last()) + if s.last() == '\n' { 1nat } else { 0nat }
    }
}

/// Number of characters that follow the last line break of `s`, or `None`
/// when `s` holds no line break.
pub open spec fn chars_after_newline(s: Seq<char>) -> Option<nat>
    decreases s.len(),
{
    if s.len() == 0 {
        None
    } else if s.last() == '\n' {
        Some(0)
    } else {
        match chars_after_newline(s.drop_last()) {
            Some(n) => Some(n + 1),
            None => None,
        }
    }
}

/// The position reached from `p` after consuming the text `s`.
pub open spec fn advance(p: Position, s: Seq<char>) -> Position {
    Position {
        idx: (p.idx + s.len()) as usize,
        line: (p.line + count_newlines(s)) as usize,
        col: match chars_after_newline(s) {
            Some(n) => (n + 1) as usize,
            None => (p.col + s.len()) as usize,
        },
    }
}

/// A span of source text, with the name of the source when it has one.
#[derive(Clone, Debug)]
pub struct Location {
    pub filename: Option<String>,
    pub start: Position,
    pub end: Position,
}

impl Default for Location {
    fn default() -> (r: Location)
        ensures
            r.filename is None,
            r.start == Position::start(),
            r.end == Position::start(),
    {
        Location { filename: None, start: Position::default(), end: Position::default() }
    }
}

/// A lexical unit: the name of the rule that matched, the matched text and its span.
#[derive(Clone, Debug)]
pub struct Token {
    pub name: String,
    pub symbol: String,
    pub loc: Location,
}

} // verus!
