use vstd::prelude::*;

verus! {

/// Number of ranges in the width table.
pub const WIDTH_RANGES: usize = 39;

/// The width table: ascending `(upper bound, width)` pairs. A code point takes
/// the width of the first range whose bound is at least the code point.
pub open spec fn width_range(i: usize) -> (u32, u32) {
    match i {
        0 => (126, 1),
        1 => (159, 0),
        2 => (687, 1),
        3 => (710, 0),
        4 => (711, 1),
        5 => (727, 0),
        6 => (733, 1),
        7 => (879, 0),
        8 => (1154, 1),
        9 => (1161, 0),
        10 => (4347, 1),
        11 => (4447, 2),
        12 => (7467, 1),
        13 => (7521, 0),
        14 => (8369, 1),
        15 => (8426, 0),
        16 => (9000, 1),
        17 => (9002, 2),
        18 => (11021, 1),
        19 => (12350, 2),
        20 => (12351, 1),
        21 => (12438, 2),
        22 => (12442, 0),
        23 => (19893, 2),
        24 => (19967, 1),
        25 => (55203, 2),
        26 => (63743, 1),
        27 => (64106, 2),
        28 => (65039, 1),
        29 => (65059, 0),
        30 => (65131, 2),
        31 => (65279, 1),
        32 => (65376, 2),
        33 => (65500, 1),
        34 => (65510, 2),
        35 => (120831, 1),
        36 => (130047, 1),
        37 => (262141, 2),
        _ => (1114109, 1),
    }
}

/// The width of the first range, from index `i` on, whose bound is at least
/// `v`; 1 where none is.
pub open spec fn table_width(v: u32, i: int) -> u32
    decreases WIDTH_RANGES - i,
{
    if i < 0 || i >= WIDTH_RANGES {
        1
    } else if v <= width_range(i as usize).0 {
        width_range(i as usize).1
    } else {
        table_width(v, i + 1)
    }
}

/// The control points that occupy no column whatever the table says:
/// line feed, carriage return, shift out and shift in.
pub open spec fn is_zero_width_control(c: char) -> bool {
    c as u32 == 10 || c as u32 == 13 || c as u32 == 14 || c as u32 == 15
}

/// Display width of a character, in columns.
pub open spec fn glyph_width(c: char) -> u32 {
    if is_zero_width_control(c) {
        0
    } else {
        table_width(c as u32, 0)
    }
}

proof fn lemma_table_width_bound(v: u32, i: int)
    ensures
        table_width(v, i) <= 2,
    decreases WIDTH_RANGES - i,
{
    if 0 <= i < WIDTH_RANGES && v > width_range(i as usize).0 {
        lemma_table_width_bound(v, i + 1);
    }
}

/// Every character is zero, one or two columns wide.
pub proof fn lemma_glyph_width_bound(c: char)
    ensures
        glyph_width(c) <= 2,
{
    lemma_table_width_bound(c as u32, 0);
}

/// The entry `i` of the width table.
fn range_entry(i: usize) -> (r: (u32, u32))
    requires
        i < WIDTH_RANGES,
    ensures
        r == width_range(i),
{
    match i {
        0 => (126, 1),
        1 => (159, 0),
        2 => (687, 1),
        3 => (710, 0),
        4 => (711, 1),
        5 => (727, 0),
        6 => (733, 1),
        7 => (879, 0),
        8 => (1154, 1),
        9 => (1161, 0),
        10 => (4347, 1),
        11 => (4447, 2),
        12 => (7467, 1),
        13 => (7521, 0),
        14 => (8369, 1),
        15 => (8426, 0),
        16 => (9000, 1),
        17 => (9002, 2),
        18 => (11021, 1),
        19 => (12350, 2),
        20 => (12351, 1),
        21 => (12438, 2),
        22 => (12442, 0),
        23 => (19893, 2),
        24 => (19967, 1),
        25 => (55203, 2),
        26 => (63743, 1),
        27 => (64106, 2),
        28 => (65039, 1),
        29 => (65059, 0),
        30 => (65131, 2),
        31 => (65279, 1),
        32 => (65376, 2),
        33 => (65500, 1),
        34 => (65510, 2),
        35 => (120831, 1),
        36 => (130047, 1),
        37 => (262141, 2),
        _ => (1114109, 1),
    }
}

/// How many columns `c` takes on screen.
pub fn char_width(c: char) -> (r: u32)
    ensures
        r == glyph_width(c),
        r <= 2,
        is_zero_width_control(c) ==> r == 0,
        (c as u32) <= 126 && !is_zero_width_control(c) ==> r == 1,
{
    proof {
        lemma_glyph_width_bound(c);
    }
    let value = c as u32;
    if value == 14 || value == 15 || value == 10 || value == 13 {
        return 0;
    }
    let mut i: usize = 0;
    while i < WIDTH_RANGES
        invariant
            0 <= i <= WIDTH_RANGES,
            value == c as u32,
            !is_zero_width_control(c),
            table_width(value, i as int) == table_width(value, 0),
        decreases WIDTH_RANGES - i,
    {
        let (bound, width) = range_entry(i);
        if value <= bound {
            return width;
        }
        i += 1;
    }
    1
}

} // verus!
