use vstd::prelude::*;
use crate::character::Character;
use crate::document::{Document, insert_text, remove_text, before_char, line_groups, lemma_line_bounds};
use crate::location::{Location, Range};
use crate::parse::{MAX_CHARS, record, records, has_loc, index_at, lemma_end_bounds};
use crate::position::Position;
use crate::text::push_char;

verus! {

/// `a - b`, or 0 where `b` is larger.
pub open spec fn sat_sub(a: u32, b: u32) -> u32 {
    if a >= b {
        (a - b) as u32
    } else {
        0
    }
}

/// The rendered position of a cursor at `cur` in text `s`: that of the
/// character at `cur`; past the last character, one glyph further than it; at
/// the origin in an empty text.
pub open spec fn abs_cursor(s: Seq<char>, cur: Location) -> Position {
    if has_loc(s, cur) {
        record(s, index_at(s, cur)).position
    } else if s.len() > 0 {
        let last = record(s, s.len() - 1);
        Position { x: (last.position.x + last.width) as u32, y: last.position.y }
    } else {
        Position { x: 0, y: 0 }
    }
}

/// The cursor's position relative to the scrolled viewport, stopping at 0.
pub open spec fn screen_cursor(s: Seq<char>, cur: Location, top: u32, left: u32) -> Position {
    let p = abs_cursor(s, cur);
    Position { x: sat_sub(p.x, left), y: sat_sub(p.y, top) }
}

/// The scroll offsets `(top, left)` after centering on the cursor: half a
/// viewport to the right when the cursor is past the right edge, one row down
/// when it is below the last row; then half a viewport back to the left when
/// the cursor is left of the view, one row up when it is above it.
pub open spec fn recenter(s: Seq<char>, cur: Location, width: u32, height: u32, top: u32, left: u32) -> (u32, u32) {
    let on = screen_cursor(s, cur, top, left);
    let abs = abs_cursor(s, cur);
    let left1 = if on.x > width { (left + width / 2) as u32 } else { left };
    let top1 = if on.y >= height { (top + 1) as u32 } else { top };
    let left2 = if abs.x < left1 { sat_sub(left1, width / 2) } else { left1 };
    let top2 = if abs.y < top1 { sat_sub(top1, 1) } else { top1 };
    (top2, left2)
}

/// `n` copies of `c`.
pub open spec fn filler(c: char, n: int) -> Seq<char> {
    Seq::new(n as nat, |_i: int| c)
}

/// Reading a line left to right against a viewport scrolled `left` columns
/// and `width` columns wide: the columns skipped so far, the columns rendered
/// so far, and the text rendered. A glyph cut by the left edge shows as one
/// `<` per column still in view, one cut by the right edge as one `>` per
/// column in view, and nothing is rendered past the right edge.
pub open spec fn clip_state(line: Seq<Character>, left: int, width: int) -> (int, int, Seq<char>)
    decreases line.len(),
{
    if line.len() == 0 {
        (0, 0, Seq::empty())
    } else {
        let (cut, used, out) = clip_state(line.drop_last(), left, width);
        let c = line.last();
        let w = c.width as int;
        if cut < left {
            if cut + w <= left {
                (cut + w, used, out)
            } else {
                (left, used, out + filler('<', cut + w - left))
            }
        } else if used < width {
            if used + w <= width {
                (cut, used + w, out.push(c.char))
            } else {
                (cut, width, out + filler('>', width - used))
            }
        } else {
            (cut, used, out)
        }
    }
}

/// The text of a line as the viewport shows it.
pub open spec fn clip_line(line: Seq<Character>, left: int, width: int) -> Seq<char> {
    clip_state(line, left, width).2
}

/// The lines of `s` in view: `height` of them from line `top` on, fewer where
/// the text ends first.
pub open spec fn rows_in_view(s: Seq<char>, top: int, height: int) -> Seq<Seq<Character>> {
    let ls = line_groups(records(s));
    let from = if top < ls.len() { top } else { ls.len() as int };
    let to = if top + height < ls.len() { top + height } else { ls.len() as int };
    ls.subrange(from, to)
}

/// When the cursor stands past the viewport's right edge, centering moves the
/// view right by exactly half the viewport's width, never more or less.
pub proof fn lemma_recenter_jumps_half_width(
    s: Seq<char>,
    cur: Location,
    width: u32,
    height: u32,
    top: u32,
    left: u32,
)
    requires
        screen_cursor(s, cur, top, left).x > width,
    ensures
        recenter(s, cur, width, height, top, left).1 as int == left as int + width as int / 2,
{
}

struct ViewportSize {
    width: u32,
    height: u32,
}

/// An editing session on one document: the cursor, the viewport's size and
/// its scroll offsets.
pub struct Context {
    viewport_size: ViewportSize,
    cursor_location: Location,
    offset_top: u32,
    offset_left: u32,
    document: Document,
}

/// `c` repeated `n` times at the end of `s`.
fn push_filler(s: &mut String, c: char, n: u32)
    ensures
        final(s)@ == old(s)@ + filler(c, n as int),
{
    let mut k: u32 = 0;
    while k < n
        invariant
            0 <= k <= n,
            s@ == old(s)@ + filler(c, k as int),
        decreases n - k,
    {
        push_char(s, c);
        k += 1;
        assert(s@ =~= old(s)@ + filler(c, k as int));
    }
}

/// The text of `line` as a viewport scrolled `left` columns and `width`
/// columns wide shows it.
fn clip(line: &Vec<Character>, left: u32, width: u32) -> (r: String)
    requires
        line@.len() <= MAX_CHARS,
        forall|j: int| 0 <= j < line@.len() ==> #[trigger] line@[j].width <= 2,
    ensures
        r@ == clip_line(line@, left as int, width as int),
{
    let mut out = String::new();
    let mut cut_used: u32 = 0;
    let mut length_used: u32 = 0;
    let mut j: usize = 0;
    while j < line.len()
        invariant
            line@.len() <= MAX_CHARS,
            forall|j: int| 0 <= j < line@.len() ==> #[trigger] line@[j].width <= 2,
            0 <= j <= line@.len(),
            cut_used <= 2 * j,
            length_used <= 2 * j,
            clip_state(line@.take(j as int), left as int, width as int) == (
                cut_used as int,
                length_used as int,
                out@,
            ),
        decreases line@.len() - j,
    {
        let c = line[j];
        proof {
            assert(line@.take(j + 1).drop_last() =~= line@.take(j as int));
            assert(line@.take(j + 1).last() == c);
        }
        if cut_used < left {
            if cut_used + c.width <= left {
                cut_used += c.width;
            } else {
                push_filler(&mut out, '<', cut_used + c.width - left);
                cut_used = left;
            }
        } else if length_used < width {
            if length_used + c.width <= width {
                length_used += c.width;
                push_char(&mut out, c.char);
            } else {
                push_filler(&mut out, '>', width - length_used);
                length_used = width;
            }
        }
        j += 1;
    }
    assert(line@.take(line@.len() as int) =~= line@);
    out
}

impl Context {
    /// The document holds its invariant.
    pub closed spec fn wf(&self) -> bool {
        self.document.wf()
    }

    /// The text of the document.
    pub closed spec fn text(&self) -> Seq<char> {
        self.document@
    }

    /// The cursor's location.
    pub closed spec fn cursor(&self) -> Location {
        self.cursor_location
    }

    /// Rows scrolled past at the top.
    pub closed spec fn top(&self) -> u32 {
        self.offset_top
    }

    /// Columns scrolled past at the left.
    pub closed spec fn left(&self) -> u32 {
        self.offset_left
    }

    /// The viewport's width in columns.
    pub closed spec fn width(&self) -> u32 {
        self.viewport_size.width
    }

    /// The viewport's height in rows.
    pub closed spec fn height(&self) -> u32 {
        self.viewport_size.height
    }

    /// An empty document in a viewport of the given size, not scrolled, with
    /// the cursor at its start.
    pub fn with_size(width: u32, height: u32) -> (r: Context)
        ensures
            r.wf(),
            r.text() == Seq::<char>::empty(),
            r.cursor() == (Location { ln: 0, col: 0 }),
            r.top() == 0,
            r.left() == 0,
            r.width() == width,
            r.height() == height,
    {
        Context {
            viewport_size: ViewportSize { width, height },
            document: Document::new(),
            cursor_location: Location { ln: 0, col: 0 },
            offset_left: 0,
            offset_top: 0,
        }
    }

    /// The document.
    pub fn document(&self) -> (r: &Document)
        ensures
            r@ == self.text(),
            self.wf() ==> r.wf(),
    {
        &self.document
    }

    pub fn cursor_location(&self) -> (r: Location)
        ensures
            r == self.cursor(),
    {
        self.cursor_location
    }

    pub fn offset_top(&self) -> (r: u32)
        ensures
            r == self.top(),
    {
        self.offset_top
    }

    pub fn offset_left(&self) -> (r: u32)
        ensures
            r == self.left(),
    {
        self.offset_left
    }

    pub fn viewport_width(&self) -> (r: u32)
        ensures
            r == self.width(),
    {
        self.viewport_size.width
    }

    pub fn viewport_height(&self) -> (r: u32)
        ensures
            r == self.height(),
    {
        self.viewport_size.height
    }

    /// Rows scrolled: the view moves one row down the document.
    pub fn scroll_up(&mut self)
        requires
            old(self).top() < u32::MAX,
        ensures
            final(self).top() == old(self).top() + 1,
            final(self).left() == old(self).left(),
            final(self).text() == old(self).text(),
            final(self).cursor() == old(self).cursor(),
            final(self).width() == old(self).width(),
            final(self).height() == old(self).height(),
            old(self).wf() ==> final(self).wf(),
    {
        self.offset_top += 1;
    }

    /// The view moves one row back up the document, stopping at its first row.
    pub fn scroll_down(&mut self)
        ensures
            final(self).top() == sat_sub(old(self).top(), 1),
            final(self).left() == old(self).left(),
            final(self).text() == old(self).text(),
            final(self).cursor() == old(self).cursor(),
            final(self).width() == old(self).width(),
            final(self).height() == old(self).height(),
            old(self).wf() ==> final(self).wf(),
    {
        self.offset_top = self.offset_top.saturating_sub(1);
    }

    /// The view moves one column right along the lines.
    pub fn scroll_left(&mut self)
        requires
            old(self).left() < u32::MAX,
        ensures
            final(self).left() == old(self).left() + 1,
            final(self).top() == old(self).top(),
            final(self).text() == old(self).text(),
            final(self).cursor() == old(self).cursor(),
            final(self).width() == old(self).width(),
            final(self).height() == old(self).height(),
            old(self).wf() ==> final(self).wf(),
    {
        self.offset_left += 1;
    }

    /// The view moves one column back left, stopping at the first column.
    pub fn scroll_right(&mut self)
        ensures
            final(self).left() == sat_sub(old(self).left(), 1),
            final(self).top() == old(self).top(),
            final(self).text() == old(self).text(),
            final(self).cursor() == old(self).cursor(),
            final(self).width() == old(self).width(),
            final(self).height() == old(self).height(),
            old(self).wf() ==> final(self).wf(),
    {
        self.offset_left = self.offset_left.saturating_sub(1);
    }

    /// The cursor's rendered position, before scrolling.
    fn absolute_cursor_position(&self) -> (r: Position)
        requires
            self.wf(),
        ensures
            r == abs_cursor(self.text(), self.cursor()),
    {
        match self.document.get_character(self.cursor_location) {
            Some(c) => c.position,
            None => match self.document.last_character() {
                Some(lc) => {
                    proof {
                        let s = self.text();
                        self.document.lemma_records_match_text();
                        lemma_end_bounds(s.take(s.len() - 1));
                        crate::measure::lemma_glyph_width_bound(s[s.len() - 1]);
                    }
                    Position { x: lc.position.x + lc.width, y: lc.position.y }
                },
                None => Position { x: 0, y: 0 },
            },
        }
    }

    /// The cursor's position on screen: its rendered position less the scroll
    /// offsets, stopping at 0.
    pub fn cursor_position(&self) -> (r: Position)
        requires
            self.wf(),
        ensures
            r == screen_cursor(self.text(), self.cursor(), self.top(), self.left()),
    {
        let pos = self.absolute_cursor_position();
        Position {
            x: pos.x.saturating_sub(self.offset_left),
            y: pos.y.saturating_sub(self.offset_top),
        }
    }

    /// Scrolls so that the cursor comes back into view.
    fn auto_center_cursor(&mut self)
        requires
            old(self).wf(),
            old(self).top() < u32::MAX,
        ensures
            final(self).wf(),
            (final(self).top(), final(self).left()) == recenter(
                old(self).text(),
                old(self).cursor(),
                old(self).width(),
                old(self).height(),
                old(self).top(),
                old(self).left(),
            ),
            final(self).text() == old(self).text(),
            final(self).cursor() == old(self).cursor(),
            final(self).width() == old(self).width(),
            final(self).height() == old(self).height(),
    {
        let cursor_pos = self.cursor_position();
        let abs_pos = self.absolute_cursor_position();
        let width = self.viewport_size.width;
        if cursor_pos.x > width {
            self.offset_left = self.offset_left + width / 2;
        }
        if cursor_pos.y >= self.viewport_size.height {
            self.offset_top = self.offset_top + 1;
        }
        if abs_pos.x < self.offset_left {
            self.offset_left = self.offset_left.saturating_sub(width / 2);
        }
        if abs_pos.y < self.offset_top {
            self.offset_top = self.offset_top.saturating_sub(1);
        }
    }

    /// Inserts `content` at the cursor, moves the cursor one column past the
    /// last inserted character, then scrolls it into view. Empty content
    /// changes nothing.
    pub fn input(&mut self, content: &str)
        requires
            old(self).wf(),
            old(self).text().len() + content@.len() <= MAX_CHARS,
            old(self).top() < u32::MAX,
        ensures
            final(self).wf(),
            final(self).text() == insert_text(old(self).text(), old(self).cursor(), content@),
            final(self).width() == old(self).width(),
            final(self).height() == old(self).height(),
            content@.len() == 0 ==> final(self).cursor() == old(self).cursor()
                && final(self).top() == old(self).top() && final(self).left() == old(self).left(),
            content@.len() > 0 ==> ({
                let last = record(
                    final(self).text(),
                    index_at(old(self).text(), old(self).cursor()) + content@.len() - 1,
                ).location;
                let cur = Location { ln: last.ln, col: (last.col + 1) as u32 };
                &&& final(self).cursor() == cur
                &&& (final(self).top(), final(self).left()) == recenter(
                    final(self).text(),
                    cur,
                    old(self).width(),
                    old(self).height(),
                    old(self).top(),
                    old(self).left(),
                )
            }),
    {
        let ghost k = index_at(self.text(), self.cursor());
        let chars = self.document.insert(self.cursor_location, content);
        if chars.len() > 0 {
            let end_char = chars[chars.len() - 1];
            proof {
                let s = self.text();
                self.document.lemma_records_match_text();
                assert(end_char == record(s, k + content@.len() - 1));
                crate::parse::lemma_record_location(s, k + content@.len() - 1);
            }
            self.cursor_location = Location { ln: end_char.location.ln, col: end_char.location.col + 1 };
            self.auto_center_cursor();
        }
    }

    /// Removes the character before the cursor (the last one, where the
    /// cursor is past the end), moves the cursor to where it stood, then
    /// scrolls it into view. At the start of the document nothing changes.
    pub fn backspace(&mut self)
        requires
            old(self).wf(),
            old(self).top() < u32::MAX,
        ensures
            final(self).wf(),
            final(self).width() == old(self).width(),
            final(self).height() == old(self).height(),
            match before_char(old(self).text(), old(self).cursor()) {
                None => final(self).text() == old(self).text() && final(self).cursor() == old(self).cursor()
                    && final(self).top() == old(self).top() && final(self).left() == old(self).left(),
                Some(c) => {
                    &&& final(self).text() == remove_text(
                        old(self).text(),
                        Range { start: c.location, end: old(self).cursor() },
                    )
                    &&& final(self).cursor() == c.location
                    &&& (final(self).top(), final(self).left()) == recenter(
                        final(self).text(),
                        c.location,
                        old(self).width(),
                        old(self).height(),
                        old(self).top(),
                        old(self).left(),
                    )
                },
            },
    {
        if let Some(c) = self.document.before(self.cursor_location) {
            self.document.remove(Range::new(c.location, self.cursor_location));
            self.cursor_location = c.location;
            self.auto_center_cursor();
        }
    }

    /// Changes the viewport's size, then scrolls the cursor into view.
    pub fn set_size(&mut self, width: u32, height: u32)
        requires
            old(self).wf(),
            old(self).top() < u32::MAX,
        ensures
            final(self).wf(),
            final(self).width() == width,
            final(self).height() == height,
            final(self).text() == old(self).text(),
            final(self).cursor() == old(self).cursor(),
            (final(self).top(), final(self).left()) == recenter(
                old(self).text(),
                old(self).cursor(),
                width,
                height,
                old(self).top(),
                old(self).left(),
            ),
    {
        self.viewport_size = ViewportSize { width, height };
        self.auto_center_cursor();
    }

    /// The rows in view, each clipped to the viewport's columns.
    pub fn visual_area(&self) -> (r: Vec<String>)
        requires
            self.wf(),
        ensures
            r@.len() == rows_in_view(self.text(), self.top() as int, self.height() as int).len(),
            forall|i: int| 0 <= i < r@.len() ==> #[trigger] r@[i]@ == clip_line(
                rows_in_view(self.text(), self.top() as int, self.height() as int)[i],
                self.left() as int,
                self.width() as int,
            ),
    {
        let lines = self.document.lines();
        let ghost s = self.text();
        let ghost ls = line_groups(records(s));
        let ghost rows = rows_in_view(s, self.top() as int, self.height() as int);
        proof {
            self.document.lemma_records_match_text();
            lemma_line_bounds(s);
        }
        let n = lines.len();
        let top = self.offset_top as usize;
        let from = if top < n { top } else { n };
        let to = if self.viewport_size.height as usize <= n - from {
            from + self.viewport_size.height as usize
        } else {
            n
        };
        assert(rows =~= ls.subrange(from as int, to as int));
        let mut out: Vec<String> = Vec::new();
        let mut i: usize = from;
        while i < to
            invariant
                lines@.map_values(|l: Vec<Character>| l@) == ls,
                ls == line_groups(records(s)),
                s.len() <= MAX_CHARS,
                forall|k: int| 0 <= k < ls.len() ==> #[trigger] ls[k].len() <= s.len(),
                forall|k: int, j: int|
                    0 <= k < ls.len() && 0 <= j < ls[k].len() ==> #[trigger] ls[k][j].width <= 2,
                n == lines@.len(),
                from <= i <= to <= n,
                out@.len() == i - from,
                forall|k: int| 0 <= k < out@.len() ==> #[trigger] out@[k]@ == clip_line(
                    ls[from + k],
                    self.offset_left as int,
                    self.viewport_size.width as int,
                ),
            decreases to - i,
        {
            assert(lines@[i as int]@ == ls[i as int]);
            let row = clip(&lines[i], self.offset_left, self.viewport_size.width);
            out.push(row);
            i += 1;
        }
        out
    }
}

} // verus!
