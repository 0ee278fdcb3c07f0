use vstd::prelude::*;
use crate::character::Character;
use crate::location::{Location, loc_lt};
use crate::measure::{char_width, glyph_width, lemma_glyph_width_bound};
use crate::position::Position;

verus! {

/// Most characters a document holds, so that every line, column and display
/// coordinate derived from its text fits in a `u32`.
pub const MAX_CHARS: usize = 0x3fff_ffff;

/// The line reached after reading `s`: how many line feeds it holds.
pub open spec fn end_ln(s: Seq<char>) -> int
    decreases s.len(),
{
    if s.len() == 0 {
        0
    } else {
        end_ln(s.drop_last()) + if s.last() == '\n' { 1int } else { 0int }
    }
}

/// The column reached after reading `s`: a line feed ends its line, and the
/// next character stands at column 0 of the line after.
pub open spec fn end_col(s: Seq<char>) -> int
    decreases s.len(),
{
    if s.len() == 0 {
        0
    } else if s.last() == '\n' {
        0
    } else {
        end_col(s.drop_last()) + 1
    }
}

/// The display column reached after reading `s`.
pub open spec fn end_x(s: Seq<char>) -> int
    decreases s.len(),
{
    if s.len() == 0 {
        0
    } else if s.last() == '\n' {
        0
    } else {
        end_x(s.drop_last()) + glyph_width(s.last())
    }
}

/// The record of the character at index `i` of `s`. Its location is where
/// reading the characters before it has reached, so a line feed ends its own
/// line; its position is that too, but a line feed is drawn at the start of
/// the next row.
pub open spec fn record(s: Seq<char>, i: int) -> Character {
    let p = s.take(i);
    Character {
        index: i as usize,
        char: s[i],
        width: glyph_width(s[i]),
        location: Location { ln: end_ln(p) as u32, col: end_col(p) as u32 },
        position: if s[i] == '\n' {
            Position { x: 0, y: (end_ln(p) + 1) as u32 }
        } else {
            Position { x: end_x(p) as u32, y: end_ln(p) as u32 }
        },
    }
}

/// The records of all characters of `s`, index-aligned with `s`.
pub open spec fn records(s: Seq<char>) -> Seq<Character> {
    Seq::new(s.len(), |i: int| record(s, i))
}

/// Whether some character of `s` stands at `loc`.
pub open spec fn has_loc(s: Seq<char>, loc: Location) -> bool {
    exists|i: int| 0 <= i < s.len() && #[trigger] record(s, i).location == loc
}

/// The index of the character of `s` at `loc`; `s.len()` where none is.
pub open spec fn index_at(s: Seq<char>, loc: Location) -> int {
    if has_loc(s, loc) {
        choose|i: int| 0 <= i < s.len() && #[trigger] record(s, i).location == loc
    } else {
        s.len() as int
    }
}

pub proof fn lemma_end_bounds(s: Seq<char>)
    ensures
        0 <= end_ln(s) <= s.len(),
        0 <= end_col(s) <= s.len(),
        0 <= end_x(s) <= 2 * s.len(),
    decreases s.len(),
{
    if s.len() > 0 {
        lemma_end_bounds(s.drop_last());
        lemma_glyph_width_bound(s.last());
    }
}

/// Reading one more character: how the line and column move.
pub proof fn lemma_end_step(s: Seq<char>, k: int)
    requires
        0 <= k < s.len(),
    ensures
        end_ln(s.take(k + 1)) == end_ln(s.take(k)) + if s[k] == '\n' { 1int } else { 0int },
        end_col(s.take(k + 1)) == if s[k] == '\n' { 0 } else { end_col(s.take(k)) + 1 },
        end_x(s.take(k + 1)) == if s[k] == '\n' { 0 } else { end_x(s.take(k)) + glyph_width(s[k]) },
{
    assert(s.take(k + 1).drop_last() =~= s.take(k));
    assert(s.take(k + 1).last() == s[k]);
}

/// The (line, column) pair reached after `k` characters grows strictly with `k`.
proof fn lemma_end_increasing(s: Seq<char>, i: int, j: int)
    requires
        0 <= i < j <= s.len(),
    ensures
        end_ln(s.take(i)) < end_ln(s.take(j)) || (end_ln(s.take(i)) == end_ln(s.take(j))
            && end_col(s.take(i)) < end_col(s.take(j))),
    decreases j - i,
{
    lemma_end_step(s, j - 1);
    if i < j - 1 {
        lemma_end_increasing(s, i, j - 1);
    }
}

/// The location of a record is the pair reached before its character.
pub proof fn lemma_record_location(s: Seq<char>, i: int)
    requires
        0 <= i < s.len(),
        s.len() <= MAX_CHARS,
    ensures
        record(s, i).location.ln == end_ln(s.take(i)),
        record(s, i).location.col == end_col(s.take(i)),
        0 <= end_ln(s.take(i)) <= i,
        0 <= end_col(s.take(i)) <= i,
{
    lemma_end_bounds(s.take(i));
}

/// Records stand in strictly increasing order of location.
pub proof fn lemma_records_ordered(s: Seq<char>, i: int, j: int)
    requires
        0 <= i < j < s.len(),
        s.len() <= MAX_CHARS,
    ensures
        loc_lt(record(s, i).location, record(s, j).location),
{
    lemma_record_location(s, i);
    lemma_record_location(s, j);
    lemma_end_increasing(s, i, j);
}

/// No two characters share a location.
pub proof fn lemma_locations_unique(s: Seq<char>, i: int, j: int)
    requires
        0 <= i < s.len(),
        0 <= j < s.len(),
        s.len() <= MAX_CHARS,
        record(s, i).location == record(s, j).location,
    ensures
        i == j,
{
    if i < j {
        lemma_records_ordered(s, i, j);
    } else if j < i {
        lemma_records_ordered(s, j, i);
    }
}

/// The record of a character depends only on the text up to it.
pub proof fn lemma_record_prefix(s: Seq<char>, t: Seq<char>, i: int)
    requires
        0 <= i < s.len(),
    ensures
        record(s + t, i) == record(s, i),
{
    assert((s + t).take(i) =~= s.take(i));
}

/// The records of `raw`, computed in one pass.
pub fn parse(raw: &Vec<char>) -> (r: Vec<Character>)
    requires
        raw@.len() <= MAX_CHARS,
    ensures
        r@ == records(raw@),
{
    let n = raw.len();
    let mut parsed: Vec<Character> = Vec::new();
    let mut ln: u32 = 0;
    let mut col: u32 = 0;
    let mut x: u32 = 0;
    let mut y: u32 = 0;
    let mut i: usize = 0;
    while i < n
        invariant
            n == raw@.len(),
            n <= MAX_CHARS,
            0 <= i <= n,
            ln as int == end_ln(raw@.take(i as int)),
            col as int == end_col(raw@.take(i as int)),
            x as int == end_x(raw@.take(i as int)),
            y == ln,
            parsed@.len() == i,
            forall|k: int| 0 <= k < i ==> parsed@[k] == record(raw@, k),
        decreases n - i,
    {
        let c = raw[i];
        let width = char_width(c);
        proof {
            lemma_end_bounds(raw@.take(i as int));
            lemma_end_step(raw@, i as int);
        }
        let position = if c == '\n' {
            Position { x: 0, y: y + 1 }
        } else {
            Position { x, y }
        };
        parsed.push(Character { index: i, char: c, width, location: Location { ln, col }, position });
        assert(parsed@[i as int] == record(raw@, i as int));
        if c == '\n' {
            ln += 1;
            col = 0;
            x = 0;
            y += 1;
        } else {
            col += 1;
            x += width;
        }
        i += 1;
    }
    assert(parsed@ =~= records(raw@));
    parsed
}

} // verus!
