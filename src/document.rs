use vstd::prelude::*;
use crate::character::Character;
use crate::location::{Location, Range, in_range, loc_lt};
use crate::parse::{
    MAX_CHARS, end_ln, record, records, has_loc, index_at, parse, lemma_end_bounds,
    lemma_end_step, lemma_locations_unique, lemma_records_ordered, lemma_record_location,
};
use crate::measure::lemma_glyph_width_bound;
use crate::text::{chars_of, string_of};

verus! {


/// The text after inserting `t` into `s` before the character at `loc`, or at
/// the end where no character stands at `loc`.
pub open spec fn insert_text(s: Seq<char>, loc: Location, t: Seq<char>) -> Seq<char> {
    let k = index_at(s, loc);
    s.take(k) + t + s.skip(k)
}

/// The characters among the first `n` of `s` whose location lies outside `r`.
pub open spec fn kept(s: Seq<char>, r: Range, n: int) -> Seq<char>
    decreases n,
{
    if n <= 0 {
        Seq::empty()
    } else if in_range(r, record(s, n - 1).location) {
        kept(s, r, n - 1)
    } else {
        kept(s, r, n - 1).push(s[n - 1])
    }
}

/// The text after removing from `s` every character whose location lies in `r`.
pub open spec fn remove_text(s: Seq<char>, r: Range) -> Seq<char> {
    kept(s, r, s.len() as int)
}

proof fn lemma_kept_len(s: Seq<char>, r: Range, n: int)
    requires
        0 <= n,
    ensures
        kept(s, r, n).len() <= n,
    decreases n,
{
    if n > 0 {
        lemma_kept_len(s, r, n - 1);
    }
}

/// The record just before the character at `loc`; where no character stands
/// at `loc`, the last record of `s`.
pub open spec fn before_char(s: Seq<char>, loc: Location) -> Option<Character> {
    if !has_loc(s, loc) {
        if s.len() == 0 {
            None
        } else {
            Some(record(s, s.len() - 1))
        }
    } else if index_at(s, loc) == 0 {
        None
    } else {
        Some(record(s, index_at(s, loc) - 1))
    }
}

/// Characters' records read left to right: the lines closed so far, and the
/// line being filled. A line feed closes a line; other zero-width characters
/// are left out.
pub open spec fn split_lines(recs: Seq<Character>) -> (Seq<Seq<Character>>, Seq<Character>)
    decreases recs.len(),
{
    if recs.len() == 0 {
        (Seq::empty(), Seq::empty())
    } else {
        let (ls, cur) = split_lines(recs.drop_last());
        let c = recs.last();
        if c.char == '\n' {
            (ls.push(cur), Seq::empty())
        } else if c.width == 0 {
            (ls, cur)
        } else {
            (ls, cur.push(c))
        }
    }
}

/// The lines of a sequence of records: the records of each line but those of
/// no width; a last line with nothing in it is left out.
pub open spec fn line_groups(recs: Seq<Character>) -> Seq<Seq<Character>> {
    let (ls, cur) = split_lines(recs);
    if cur.len() > 0 {
        ls.push(cur)
    } else {
        ls
    }
}

/// The records of non-zero width among `recs`, in order.
pub open spec fn visible(recs: Seq<Character>) -> Seq<Character> {
    recs.filter(|c: Character| c.width > 0)
}

proof fn lemma_split_content(recs: Seq<Character>)
    requires
        forall|i: int| 0 <= i < recs.len() && #[trigger] recs[i].char == '\n' ==> recs[i].width == 0,
    ensures
        split_lines(recs).0.flatten() + split_lines(recs).1 == visible(recs),
        forall|i: int, j: int|
            0 <= i < split_lines(recs).0.len() && 0 <= j < split_lines(recs).0[i].len()
                ==> #[trigger] split_lines(recs).0[i][j].width > 0,
        forall|j: int| 0 <= j < split_lines(recs).1.len() ==> #[trigger] split_lines(recs).1[j].width > 0,
    decreases recs.len(),
{
    if recs.len() > 0 {
        let p = recs.drop_last();
        assert forall|i: int| 0 <= i < p.len() && #[trigger] p[i].char == '\n' implies p[i].width == 0 by {
            assert(recs[i] == p[i]);
        }
        lemma_split_content(p);
        reveal(Seq::filter);
        let (ls, cur) = split_lines(p);
        let c = recs.last();
        assert(c == recs[recs.len() - 1]);
        if c.char == '\n' {
            ls.lemma_flatten_push(cur);
            assert(ls.push(cur).flatten() + Seq::<Character>::empty() =~= ls.flatten() + cur);
        } else if c.width > 0 {
            assert(ls.flatten() + cur.push(c) =~= (ls.flatten() + cur).push(c));
        }
    }
}

/// Lines hold no character of zero width, and read one after another they
/// give every character of non-zero width of the text, in order: all of its
/// content but line feeds and other zero-width characters.
pub proof fn lemma_lines_content(s: Seq<char>)
    ensures
        forall|i: int, j: int|
            0 <= i < line_groups(records(s)).len() && 0 <= j < line_groups(records(s))[i].len()
                ==> #[trigger] line_groups(records(s))[i][j].width > 0,
        line_groups(records(s)).flatten() == visible(records(s)),
{
    let recs = records(s);
    assert forall|i: int| 0 <= i < recs.len() && #[trigger] recs[i].char == '\n' implies recs[i].width == 0 by {
        assert(recs[i] == record(s, i));
    }
    lemma_split_content(recs);
    let (ls, cur) = split_lines(recs);
    if cur.len() > 0 {
        ls.lemma_flatten_push(cur);
    } else {
        assert(ls.flatten() + cur =~= ls.flatten());
    }
}

proof fn lemma_split_bounds(recs: Seq<Character>)
    requires
        forall|i: int| 0 <= i < recs.len() ==> #[trigger] recs[i].width <= 2,
    ensures
        forall|i: int| 0 <= i < split_lines(recs).0.len() ==> #[trigger] split_lines(recs).0[i].len() <= recs.len(),
        forall|i: int, j: int|
            0 <= i < split_lines(recs).0.len() && 0 <= j < split_lines(recs).0[i].len()
                ==> #[trigger] split_lines(recs).0[i][j].width <= 2,
        split_lines(recs).1.len() <= recs.len(),
        forall|j: int| 0 <= j < split_lines(recs).1.len() ==> #[trigger] split_lines(recs).1[j].width <= 2,
    decreases recs.len(),
{
    if recs.len() > 0 {
        let p = recs.drop_last();
        assert forall|i: int| 0 <= i < p.len() implies #[trigger] p[i].width <= 2 by {
            assert(recs[i] == p[i]);
        }
        lemma_split_bounds(p);
        assert(recs.last() == recs[recs.len() - 1]);
    }
}

/// Each line of a text is no longer than the text, and each of its records
/// is at most two columns wide.
pub proof fn lemma_line_bounds(s: Seq<char>)
    ensures
        forall|i: int| 0 <= i < line_groups(records(s)).len() ==> #[trigger] line_groups(records(s))[i].len() <= s.len(),
        forall|i: int, j: int|
            0 <= i < line_groups(records(s)).len() && 0 <= j < line_groups(records(s))[i].len()
                ==> #[trigger] line_groups(records(s))[i][j].width <= 2,
{
    let recs = records(s);
    assert forall|i: int| 0 <= i < recs.len() implies #[trigger] recs[i].width <= 2 by {
        lemma_glyph_width_bound(s[i]);
    }
    lemma_split_bounds(recs);
}

proof fn lemma_kept_split(s: Seq<char>, t: Seq<char>, r: Range, n: int)
    requires
        0 <= n <= s.len() + t.len(),
        s.len() + t.len() <= MAX_CHARS,
        forall|i: int| 0 <= i < s.len() ==> !in_range(r, #[trigger] record(s + t, i).location),
        forall|i: int| s.len() <= i < s.len() + t.len() ==> in_range(r, #[trigger] record(s + t, i).location),
    ensures
        kept(s + t, r, n) == s.take(if n < s.len() { n } else { s.len() as int }),
    decreases n,
{
    if n > 0 {
        lemma_kept_split(s, t, r, n - 1);
        if n <= s.len() {
            assert(s.take(n) =~= s.take(n - 1).push(s[n - 1]));
            assert(record(s + t, n - 1).location == record(s + t, n - 1).location);
        } else {
            assert(record(s + t, n - 1).location == record(s + t, n - 1).location);
        }
    } else {
        assert(s.take(0) =~= Seq::<char>::empty());
    }
}

/// Inserting a non-empty `t` where no character stands (at the end of the
/// text), then removing the range from the first inserted character to one
/// column past the last, gives back the text as it was.
pub proof fn lemma_append_then_remove(s: Seq<char>, loc: Location, t: Seq<char>)
    requires
        !has_loc(s, loc),
        t.len() > 0,
        s.len() + t.len() <= MAX_CHARS,
    ensures
        ({
            let n = insert_text(s, loc, t);
            let first = record(n, s.len() as int).location;
            let last = record(n, n.len() - 1).location;
            remove_text(n, Range { start: first, end: Location { ln: last.ln, col: (last.col + 1) as u32 } }) == s
        }),
{
    let n = insert_text(s, loc, t);
    assert(n =~= s + t);
    let first = record(n, s.len() as int).location;
    let last = record(n, n.len() - 1).location;
    let end = Location { ln: last.ln, col: (last.col + 1) as u32 };
    let r = Range { start: first, end };
    lemma_record_location(n, n.len() - 1);
    lemma_end_bounds(n.take(n.len() as int));
    assert forall|i: int| 0 <= i < s.len() implies !in_range(r, #[trigger] record(s + t, i).location) by {
        lemma_records_ordered(n, i, s.len() as int);
    }
    assert forall|i: int| s.len() <= i < s.len() + t.len() implies in_range(r, #[trigger] record(s + t, i).location) by {
        if i > s.len() {
            lemma_records_ordered(n, s.len() as int, i);
        }
        if i < n.len() - 1 {
            lemma_records_ordered(n, i, n.len() - 1);
        }
    }
    lemma_kept_split(s, t, r, n.len() as int);
    assert(s.take(s.len() as int) =~= s);
}

/// The text of a buffer, with a record for each of its characters.
pub struct Document {
    raw: Vec<char>,
    parsed: Vec<Character>,
}

impl View for Document {
    type V = Seq<char>;

    closed spec fn view(&self) -> Seq<char> {
        self.raw@
    }
}

impl Default for Document {
    fn default() -> (r: Document)
        ensures
            r.wf(),
            r@ == Seq::<char>::empty(),
    {
        Document::new()
    }
}

impl Document {
    /// The records match the text, and the text is short enough that every
    /// coordinate fits in a `u32`.
    pub closed spec fn wf(&self) -> bool {
        &&& self.raw@.len() <= MAX_CHARS
        &&& self.parsed@ == records(self.raw@)
    }

    /// The records of the document's characters, in buffer order.
    pub closed spec fn chars(&self) -> Seq<Character> {
        self.parsed@
    }

    /// A well-formed document holds one record per character, index-aligned,
    /// each as its text determines it.
    pub proof fn lemma_records_match_text(&self)
        requires
            self.wf(),
        ensures
            self.chars() == records(self@),
            self.chars().len() == self@.len(),
            self@.len() <= MAX_CHARS,
    {
    }

    /// An empty document.
    pub fn new() -> (r: Document)
        ensures
            r.wf(),
            r@ == Seq::<char>::empty(),
    {
        let raw: Vec<char> = Vec::new();
        let parsed = parse(&raw);
        Document { raw, parsed }
    }

    /// A document holding the characters of `value`.
    pub fn from(value: &str) -> (r: Document)
        requires
            value@.len() <= MAX_CHARS,
        ensures
            r.wf(),
            r@ == value@,
    {
        let raw = chars_of(value);
        let parsed = parse(&raw);
        Document { raw, parsed }
    }

    /// The text of the document.
    pub fn to_text(&self) -> (r: String)
        ensures
            r@ == self@,
    {
        string_of(&self.raw)
    }

    /// The text of the document, consuming it.
    pub fn into(self) -> (r: String)
        ensures
            r@ == self@,
    {
        string_of(&self.raw)
    }

    /// Inserts `str` before the character at `location`, or at the end of the
    /// document where no character stands there; returns the records of the
    /// inserted characters.
    pub fn insert(&mut self, location: Location, str: &str) -> (r: Vec<Character>)
        requires
            old(self).wf(),
            old(self)@.len() + str@.len() <= MAX_CHARS,
        ensures
            final(self).wf(),
            final(self)@ == insert_text(old(self)@, location, str@),
            r@ == records(final(self)@).subrange(
                index_at(old(self)@, location),
                index_at(old(self)@, location) + str@.len(),
            ),
    {
        let ghost old_text = self@;
        let k = self.find(location);
        let t = chars_of(str);
        let n = self.raw.len();
        let mut raw: Vec<char> = Vec::new();
        let mut i: usize = 0;
        while i < k
            invariant
                k <= n,
                n == self.raw@.len(),
                0 <= i <= k,
                raw@ == self.raw@.take(i as int),
            decreases k - i,
        {
            raw.push(self.raw[i]);
            i += 1;
            assert(raw@ =~= self.raw@.take(i as int));
        }
        let mut j: usize = 0;
        while j < t.len()
            invariant
                k <= n,
                n == self.raw@.len(),
                n + t@.len() <= MAX_CHARS,
                0 <= j <= t@.len(),
                raw@ == self.raw@.take(k as int) + t@.take(j as int),
            decreases t@.len() - j,
        {
            raw.push(t[j]);
            j += 1;
            assert(raw@ =~= self.raw@.take(k as int) + t@.take(j as int));
        }
        let mut i: usize = k;
        while i < n
            invariant
                k <= n,
                n == self.raw@.len(),
                n + t@.len() <= MAX_CHARS,
                k <= i <= n,
                raw@ == self.raw@.take(k as int) + t@ + self.raw@.subrange(k as int, i as int),
            decreases n - i,
        {
            raw.push(self.raw[i]);
            i += 1;
            assert(raw@ =~= self.raw@.take(k as int) + t@ + self.raw@.subrange(k as int, i as int));
        }
        assert(raw@ =~= insert_text(old_text, location, str@));
        let parsed = parse(&raw);
        self.raw = raw;
        self.parsed = parsed;
        let mut out: Vec<Character> = Vec::new();
        let mut j: usize = 0;
        while j < t.len()
            invariant
                self.wf(),
                self@.len() == n + t@.len(),
                k <= n,
                0 <= j <= t@.len(),
                out@ == records(self@).subrange(k as int, k + j),
            decreases t@.len() - j,
        {
            out.push(self.parsed[k + j]);
            j += 1;
            assert(out@ =~= records(self@).subrange(k as int, k + j));
        }
        out
    }

    /// Removes every character whose location lies in `range`.
    pub fn remove(&mut self, range: Range)
        requires
            old(self).wf(),
        ensures
            final(self).wf(),
            final(self)@ == remove_text(old(self)@, range),
    {
        let n = self.parsed.len();
        let mut raw: Vec<char> = Vec::new();
        let mut i: usize = 0;
        while i < n
            invariant
                self.wf(),
                n == self@.len(),
                0 <= i <= n,
                raw@ == kept(self@, range, i as int),
            decreases n - i,
        {
            if !range.contains(&self.parsed[i].location) {
                raw.push(self.raw[i]);
            }
            i += 1;
        }
        proof {
            lemma_kept_len(self@, range, n as int);
        }
        let parsed = parse(&raw);
        self.raw = raw;
        self.parsed = parsed;
    }

    /// The document's lines, each the records of its characters of non-zero
    /// width; a last line with nothing in it is left out.
    pub fn lines(&self) -> (r: Vec<Vec<Character>>)
        requires
            self.wf(),
        ensures
            r@.map_values(|l: Vec<Character>| l@) == line_groups(records(self@)),
    {
        let n = self.parsed.len();
        let ghost recs = records(self@);
        let mut lines: Vec<Vec<Character>> = Vec::new();
        let mut current_ln: u32 = 0;
        let mut current_line: Vec<Character> = Vec::new();
        let mut i: usize = 0;
        while i < n
            invariant
                self.wf(),
                recs == records(self@),
                n == self@.len(),
                0 <= i <= n,
                current_ln as int == end_ln(self@.take(i as int)),
                lines@.map_values(|l: Vec<Character>| l@) == split_lines(recs.take(i as int)).0,
                current_line@ == split_lines(recs.take(i as int)).1,
            decreases n - i,
        {
            let c = self.parsed[i];
            proof {
                lemma_end_bounds(self@.take(i as int));
                lemma_end_step(self@, i as int);
                assert(recs.take(i + 1).drop_last() =~= recs.take(i as int));
                lemma_glyph_width_bound(c.char);
            }
            let ghost old_lines = lines@;
            if c.char == '\n' {
                lines.push(current_line);
                current_ln += 1;
                current_line = Vec::new();
                assert(lines@.map_values(|l: Vec<Character>| l@) =~= old_lines.map_values(
                    |l: Vec<Character>| l@,
                ).push(split_lines(recs.take(i as int)).1));
            }
            if c.width > 0 {
                if c.location.ln == current_ln {
                    current_line.push(c);
                } else if c.location.ln > current_ln {
                    lines.push(current_line);
                    current_ln = c.location.ln;
                    current_line = Vec::new();
                    current_line.push(c);
                }
                // A record on an earlier line than the current one cannot
                // occur in a well-formed document; it would be skipped.
            }
            i += 1;
        }
        assert(recs.take(n as int) =~= recs);
        let ghost closed = lines@;
        if current_line.len() > 0 {
            lines.push(current_line);
            assert(lines@.map_values(|l: Vec<Character>| l@) =~= closed.map_values(
                |l: Vec<Character>| l@,
            ).push(split_lines(recs).1));
        }
        lines
    }

    /// Number of characters.
    pub fn len(&self) -> (r: usize)
        requires
            self.wf(),
        ensures
            r == self@.len(),
    {
        self.raw.len()
    }

    /// Index of the character at `location`, or the length where none is.
    fn find(&self, location: Location) -> (r: usize)
        requires
            self.wf(),
        ensures
            r == index_at(self@, location),
    {
        let n = self.parsed.len();
        let mut i: usize = 0;
        while i < n
            invariant
                self.wf(),
                n == self@.len(),
                0 <= i <= n,
                forall|k: int| 0 <= k < i ==> record(self@, k).location != location,
            decreases n - i,
        {
            if self.parsed[i].location == location {
                proof {
                    assert(record(self@, i as int).location == location);
                    let j = index_at(self@, location);
                    lemma_locations_unique(self@, i as int, j);
                }
                return i;
            }
            i += 1;
        }
        n
    }

    /// The record of the character at `location`, if there is one.
    pub fn get_character(&self, location: Location) -> (r: Option<Character>)
        requires
            self.wf(),
        ensures
            r is Some <==> has_loc(self@, location),
            r is Some ==> r == Some(record(self@, index_at(self@, location))),
    {
        let i = self.find(location);
        if i < self.parsed.len() {
            Some(self.parsed[i])
        } else {
            None
        }
    }

    /// The record of the last character, if the document is not empty.
    pub fn last_character(&self) -> (r: Option<Character>)
        requires
            self.wf(),
        ensures
            r == if self@.len() == 0 {
                None
            } else {
                Some(record(self@, self@.len() - 1))
            },
    {
        let n = self.parsed.len();
        if n == 0 {
            None
        } else {
            Some(self.parsed[n - 1])
        }
    }

    /// The record just before the character at `location`; where no character
    /// stands at `location`, the last record of the document.
    pub fn before(&self, location: Location) -> (r: Option<Character>)
        requires
            self.wf(),
        ensures
            r == before_char(self@, location),
    {
        let i = self.find(location);
        if i < self.parsed.len() {
            if i > 0 {
                Some(self.parsed[i - 1])
            } else {
                None
            }
        } else {
            self.last_character()
        }
    }

    /// The record just after the character at `location`; none where no
    /// character stands at `location` or it is the last one.
    pub fn after(&self, location: Location) -> (r: Option<Character>)
        requires
            self.wf(),
        ensures
            r == if has_loc(self@, location) && index_at(self@, location) + 1 < self@.len() {
                Some(record(self@, index_at(self@, location) + 1))
            } else {
                None
            },
    {
        let i = self.find(location);
        if i < self.parsed.len() && i + 1 < self.parsed.len() {
            Some(self.parsed[i + 1])
        } else {
            None
        }
    }

    /// Whether `location` lies past the last character (always, for an empty
    /// document).
    pub fn is_out_of_document(&self, location: Location) -> (r: bool)
        requires
            self.wf(),
        ensures
            r == (self@.len() == 0 || loc_lt(record(self@, self@.len() - 1).location, location)),
    {
        match self.last_character() {
            Some(c) => c.location.precedes(&location),
            None => true,
        }
    }
}

} // verus!
