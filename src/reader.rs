//! Joining physical lines into one logical line: a line that ends in a
//! backslash just before its newline continues on the next.
use vstd::prelude::*;

verus! {

/// `line` ends in a backslash followed by a newline.
pub open spec fn is_continued(line: Seq<char>) -> bool {
    line.len() >= 2 && line[line.len() - 2] == '\\' && line[line.len() - 1] == '\n'
}

/// For a line that continues on the next, the line without its backslash
/// and newline; `None` for a line that ends the logical line.
pub fn continued_line(line: &str) -> (r: Option<&str>)
    ensures
        r is Some <==> is_continued(line@),
        r is Some ==> r->0@ == line@.subrange(0, line@.len() - 2),
{
    let n = line.unicode_len();
    if n >= 2 && line.get_char(n - 2) == '\\' && line.get_char(n - 1) == '\n' {
        Some(line.substring_char(0, n - 2))
    } else {
        None
    }
}

} // verus!
