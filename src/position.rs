use vstd::prelude::*;
use vstd::std_specs::iter::IteratorSpec;
use vstd::string::{axiom_spec_iter, next_postcondition};

verus! {

/// Line (1-based) reached after reading `p`: one more than its newlines.
pub open spec fn line_after(p: Seq<char>) -> int
    decreases p.len(),
{
    if p.len() == 0 {
        1
    } else {
        line_after(p.drop_last()) + if p.last() == '\n' { 1int } else { 0int }
    }
}

/// Column (1-based) reached after reading `p`: one more than the number of
/// characters since its last newline.
pub open spec fn column_after(p: Seq<char>) -> int
    decreases p.len(),
{
    if p.len() == 0 {
        1
    } else if p.last() == '\n' {
        1
    } else {
        column_after(p.drop_last()) + 1
    }
}

/// `(column, line)` of the character at `offset` in `s`, or `(-1, -1)` when
/// there is no such character.
pub open spec fn col_line_of(s: Seq<char>, offset: int) -> (int, int) {
    if 0 <= offset < s.len() {
        (column_after(s.subrange(0, offset)), line_after(s.subrange(0, offset)))
    } else {
        (-1, -1)
    }
}

proof fn lemma_bounds(p: Seq<char>)
    ensures
        1 <= line_after(p) <= p.len() + 1,
        1 <= column_after(p) <= p.len() + 1,
    decreases p.len(),
{
    if p.len() > 0 {
        lemma_bounds(p.drop_last());
    }
}

/// Returns the column and line number, as a `(column, line)` pair, of the
/// character at `byte_offset` (counted in characters) in `s`; `(-1, -1)`
/// when the offset lies past the end.
pub fn get_col_line_number(s: &str, byte_offset: usize) -> (r: (i32, i32))
    requires
        s@.len() < 0x7fff_ffff,
    ensures
        r.0 as int == col_line_of(s@, byte_offset as int).0,
        r.1 as int == col_line_of(s@, byte_offset as int).1,
{
    broadcast use axiom_spec_iter, next_postcondition;

    let mut chars = s.chars();
    let mut line_count: i32 = 1;
    let mut col_count: i32 = 1;
    let mut i: usize = 0;
    while i < byte_offset
        invariant
            i <= byte_offset,
            i <= s@.len(),
            chars.remaining() == s@.subrange(i as int, s@.len() as int),
            line_count as int == line_after(s@.subrange(0, i as int)),
            col_count as int == column_after(s@.subrange(0, i as int)),
            s@.len() < 0x7fff_ffff,
        decreases byte_offset - i,
    {
        proof {
            lemma_bounds(s@.subrange(0, i as int));
        }
        match chars.next() {
            None => {
                return (-1, -1);
            },
            Some(c) => {
                assert(s@.subrange(0, i as int + 1).drop_last() =~= s@.subrange(0, i as int));
                if c == '\n' {
                    line_count = line_count + 1;
                    col_count = 1;
                } else {
                    col_count = col_count + 1;
                }
                i = i + 1;
                assert(chars.remaining() =~= s@.subrange(i as int, s@.len() as int));
            },
        }
    }
    match chars.next() {
        None => (-1, -1),
        Some(_) => (col_count, line_count),
    }
}

/// Line number (1-based) of the character at `byte_offset`, or -1 past the end.
pub fn get_line_number(s: &str, byte_offset: usize) -> (r: i32)
    requires
        s@.len() < 0x7fff_ffff,
    ensures
        r as int == col_line_of(s@, byte_offset as int).1,
{
    get_col_line_number(s, byte_offset).1
}

/// Column number (1-based) of the character at `byte_offset`, or -1 past the end.
pub fn get_column_number(s: &str, byte_offset: usize) -> (r: i32)
    requires
        s@.len() < 0x7fff_ffff,
    ensures
        r as int == col_line_of(s@, byte_offset as int).0,
{
    get_col_line_number(s, byte_offset).0
}

} // verus!
