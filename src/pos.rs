use vstd::prelude::*;

verus! {

/// A position in the source text: a line and a column.
#[derive(Clone, Copy, Debug, PartialEq, Eq, Structural)]
pub struct LineCol {
    pub line: usize,
    pub column: usize,
}

impl LineCol {
    /// The position strictly precedes `o` in reading order.
    pub open spec fn precedes(self, o: LineCol) -> bool {
        self.line < o.line || (self.line == o.line && self.column < o.column)
    }

    pub fn new(line: usize, column: usize) -> (r: LineCol)
        ensures
            r.line == line,
            r.column == column,
    {
        LineCol { line, column }
    }

    /// Whether this position comes strictly before `o` in the source.
    pub fn before(&self, o: &LineCol) -> (r: bool)
        ensures
            r == self.precedes(*o),
    {
        self.line < o.line || (self.line == o.line && self.column < o.column)
    }
}

} // verus!
