use vstd::prelude::*;
use vstd::string::StringExecFns;

use crate::token::text::{decimal, push_decimal};

verus! {

/// Position of a single character in the source.
/// `offset` and `line_offset` count bytes from 0; `line` counts from 1.
#[derive(Clone, Copy, Debug, PartialEq, Eq, Structural)]
pub struct Position {
    pub offset: usize,
    pub line: usize,
    pub line_offset: usize,
}

impl Position {
    /// The position of the first character of a source.
    pub open spec fn origin() -> Position {
        Position { offset: 0, line: 1, line_offset: 0 }
    }

    /// The column of the position: its distance in bytes from the start of its line; 0 where
    /// the line is said to start after it.
    pub open spec fn column(self) -> nat {
        if self.offset >= self.line_offset {
            (self.offset - self.line_offset) as nat
        } else {
            0
        }
    }

    /// The position as it is shown: the line, a colon and the column.
    pub open spec fn text(self) -> Seq<char> {
        decimal(self.line as nat) + ":"@ + decimal(self.column())
    }

    /// The position as it is shown: the line, a colon and the column.
    pub fn to_string(&self) -> (text: String)
        ensures
            text@ == self.text(),
    {
        let mut text = String::new();
        push_decimal(self.line, &mut text);
        text.append(":");
        let column: usize = if self.offset >= self.line_offset {
            self.offset - self.line_offset
        } else {
            0
        };
        push_decimal(column, &mut text);
        proof {
            assert(Seq::<char>::empty() + decimal(self.line as nat) =~= decimal(self.line as nat));
        }
        text
    }

    pub fn new() -> (p: Self)
        ensures
            p == Position::origin(),
    {
        Self { offset: 0, line: 1, line_offset: 0 }
    }

    pub fn from(p: (usize, usize, usize)) -> (r: Self)
        ensures
            r.offset == p.0,
            r.line == p.1,
            r.line_offset == p.2,
    {
        Self { offset: p.0, line: p.1, line_offset: p.2 }
    }

    /// Advances `offset` by `n`, stopping at the largest offset. Leaves `line` and `line_offset` as they are.
    pub fn forward(self, n: usize) -> (r: Self)
        ensures
            r.offset == if self.offset + n <= usize::MAX { self.offset + n } else { usize::MAX as int },
            r.line == self.line,
            r.line_offset == self.line_offset,
    {
        let offset: usize = if n <= usize::MAX - self.offset {
            self.offset + n
        } else {
            usize::MAX
        };
        Self { offset, line: self.line, line_offset: self.line_offset }
    }

    /// Decreases `offset` by `n`, stopping at 0. Leaves `line` and `line_offset` as they are.
    pub fn back(self, n: usize) -> (r: Self)
        ensures
            r.offset == if self.offset >= n { self.offset - n } else { 0 },
            r.line == self.line,
            r.line_offset == self.line_offset,
    {
        let offset: usize = if self.offset >= n {
            self.offset - n
        } else {
            0
        };
        Self { offset, line: self.line, line_offset: self.line_offset }
    }
}

/// The first and the last position of a token or a node, both inclusive.
#[derive(Clone, Copy, Debug, PartialEq, Eq, Structural)]
pub struct Span {
    pub start: Position,
    pub end: Position,
}

impl Span {
    pub fn new() -> (s: Self)
        ensures
            s.start == Position::origin(),
            s.end == Position::origin(),
    {
        Self { start: Position::new(), end: Position::new() }
    }

    pub fn from(s: (usize, usize, usize), e: (usize, usize, usize)) -> (r: Self)
        ensures
            r.start == (Position { offset: s.0, line: s.1, line_offset: s.2 }),
            r.end == (Position { offset: e.0, line: e.1, line_offset: e.2 }),
    {
        Self { start: Position::from(s), end: Position::from(e) }
    }

    /// The span as it is shown: its start, ` - ` and its end.
    pub open spec fn text(self) -> Seq<char> {
        self.start.text() + " - "@ + self.end.text()
    }

    /// The span as it is shown: its start, ` - ` and its end.
    pub fn to_string(&self) -> (text: String)
        ensures
            text@ == self.text(),
    {
        let mut text = self.start.to_string();
        text.append(" - ");
        text.append(self.end.to_string().as_str());
        text
    }

    pub fn start(&self) -> (p: Position)
        ensures
            p == self.start,
    {
        self.start
    }

    pub fn end(&self) -> (p: Position)
        ensures
            p == self.end,
    {
        self.end
    }
}

} // verus!
