use vstd::prelude::*;

verus! {

/// The line on which the character at offset `n` of `s` stands.
/// Lines are counted from 1; each newline before `n` starts a new one.
pub open spec fn line_at(s: Seq<char>, n: int) -> int
    decreases n,
{
    if n <= 0 {
        1
    } else if s[n - 1] == '\n' {
        line_at(s, n - 1) + 1
    } else {
        line_at(s, n - 1)
    }
}

/// The column of the character at offset `n` of `s`: the number of
/// characters since the last newline before `n` (or since the start).
pub open spec fn col_at(s: Seq<char>, n: int) -> int
    decreases n,
{
    if n <= 0 {
        0
    } else if s[n - 1] == '\n' {
        0
    } else {
        col_at(s, n - 1) + 1
    }
}

pub proof fn lemma_location_bounds(s: Seq<char>, n: int)
    requires
        0 <= n,
    ensures
        1 <= line_at(s, n) <= n + 1,
        0 <= col_at(s, n) <= n,
    decreases n,
{
    if n > 0 {
        lemma_location_bounds(s, n - 1);
    }
}

/// A position in the source text.
#[derive(Clone, Copy, Debug, PartialEq, Eq, Structural)]
pub struct Location {
    pub line: usize,
    pub col: usize,
}

impl Location {
    /// This location is that of offset `n` in `s`.
    pub open spec fn is_at(self, s: Seq<char>, n: int) -> bool {
        self.line == line_at(s, n) && self.col == col_at(s, n)
    }

    /// The location of the first character of a text.
    pub fn start() -> (r: Location)
        ensures
            forall|s: Seq<char>| r.is_at(s, 0),
    {
        Location { line: 1, col: 0 }
    }
}

/// Scanning progress over a text: an offset into it and the location there.
#[derive(Clone, Copy, Debug)]
pub struct Cursor {
    pub offset: usize,
    pub loc: Location,
}

impl Cursor {
    /// The cursor stands at a character boundary of `s` and knows its location.
    pub open spec fn wf(self, s: Seq<char>) -> bool {
        &&& self.offset <= s.len()
        &&& self.loc.is_at(s, self.offset as int)
    }

    /// A cursor at the start of a text.
    pub fn new() -> (r: Cursor)
        ensures
            r.offset == 0,
            forall|s: Seq<char>| r.wf(s),
    {
        Cursor { offset: 0, loc: Location::start() }
    }

    /// Moves the cursor forward over `src[offset..end]`, keeping the
    /// location in step with every character passed.
    pub fn advance_to(&mut self, src: &Vec<char>, end: usize)
        requires
            old(self).wf(src@),
            old(self).offset <= end <= src@.len(),
            src@.len() < usize::MAX,
        ensures
            final(self).offset == end,
            final(self).wf(src@),
    {
        while self.offset < end
            invariant
                self.wf(src@),
                self.offset <= end <= src@.len(),
                src@.len() < usize::MAX,
            decreases end - self.offset,
        {
            proof {
                lemma_location_bounds(src@, self.offset as int);
            }
            let c = src[self.offset];
            if c == '\n' {
                self.loc = Location { line: self.loc.line + 1, col: 0 };
            } else {
                self.loc = Location { line: self.loc.line, col: self.loc.col + 1 };
            }
            self.offset = self.offset + 1;
        }
    }
}

} // verus!
