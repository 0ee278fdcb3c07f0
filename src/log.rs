use vstd::prelude::*;
use crate::text::push_char;

verus! {

/// The pieces of `s` between line feeds, in order; there is always at least
/// one, and a line feed at either end leaves an empty piece there.
pub open spec fn split_on_newline(s: Seq<char>) -> Seq<Seq<char>>
    decreases s.len(),
{
    if s.len() == 0 {
        seq![Seq::empty()]
    } else {
        let p = split_on_newline(s.drop_last());
        if s.last() == '\n' {
            p.push(Seq::empty())
        } else {
            p.update(p.len() - 1, p.last().push(s.last()))
        }
    }
}

proof fn lemma_split_nonempty(s: Seq<char>)
    ensures
        split_on_newline(s).len() >= 1,
    decreases s.len(),
{
    if s.len() > 0 {
        lemma_split_nonempty(s.drop_last());
    }
}

/// An append-only log of diagnostic lines.
pub struct Log {
    entries: Vec<String>,
}

impl View for Log {
    type V = Seq<Seq<char>>;

    closed spec fn view(&self) -> Seq<Seq<char>> {
        self.entries@.map_values(|e: String| e@)
    }
}

impl Log {
    /// An empty log.
    pub fn new() -> (r: Log)
        ensures
            r@ == Seq::<Seq<char>>::empty(),
    {
        let r = Log { entries: Vec::new() };
        assert(r@ =~= Seq::<Seq<char>>::empty());
        r
    }
}

/// Appends `str` to the log, one entry per piece between line feeds.
pub fn info(log: &mut Log, str: &str)
    ensures
        final(log)@ == old(log)@ + split_on_newline(str@),
{
    let n = str.unicode_len();
    let mut current = String::new();
    let mut i: usize = 0;
    proof {
        assert(str@.take(0) =~= Seq::<char>::empty());
        assert(log@ =~= old(log)@ + split_on_newline(str@.take(0)).drop_last());
    }
    while i < n
        invariant
            n == str@.len(),
            0 <= i <= n,
            split_on_newline(str@.take(i as int)).len() >= 1,
            log@ == old(log)@ + split_on_newline(str@.take(i as int)).drop_last(),
            current@ == split_on_newline(str@.take(i as int)).last(),
        decreases n - i,
    {
        let c = str.get_char(i);
        let ghost p = split_on_newline(str@.take(i as int));
        let ghost before = log@;
        proof {
            assert(str@.take(i + 1).drop_last() =~= str@.take(i as int));
            assert(str@.take(i + 1).last() == c);
        }
        if c == '\n' {
            log.entries.push(current);
            current = String::new();
            proof {
                assert(log@ =~= before.push(p.last()));
                assert(p.push(Seq::empty()).drop_last() =~= p);
                assert(p.drop_last().push(p.last()) =~= p);
                assert(log@ =~= old(log)@ + p);
            }
        } else {
            push_char(&mut current, c);
            proof {
                assert(p.update(p.len() - 1, p.last().push(c)).drop_last() =~= p.drop_last());
            }
        }
        i += 1;
    }
    let ghost p = split_on_newline(str@.take(n as int));
    let ghost before = log@;
    log.entries.push(current);
    proof {
        assert(str@.take(n as int) =~= str@);
        assert(log@ =~= before.push(p.last()));
        assert(p.drop_last().push(p.last()) =~= p);
        assert(log@ =~= old(log)@ + p);
    }
}

/// Every entry of the log, oldest first.
pub fn lines(log: &Log) -> (r: Vec<String>)
    ensures
        r@.map_values(|e: String| e@) == log@,
{
    let mut r: Vec<String> = Vec::new();
    let mut i: usize = 0;
    while i < log.entries.len()
        invariant
            0 <= i <= log.entries@.len(),
            r@.map_values(|e: String| e@) == log@.take(i as int),
        decreases log.entries@.len() - i,
    {
        let e = log.entries[i].clone();
        assert(e@ == log@[i as int]);
        let ghost before = r@;
        r.push(e);
        assert(r@ =~= before.push(e));
        assert(r@.map_values(|e: String| e@) =~= before.map_values(|e: String| e@).push(e@));
        assert(log@.take(i + 1) =~= log@.take(i as int).push(log@[i as int]));
        i += 1;
        assert(r@.map_values(|e: String| e@) =~= log@.take(i as int));
    }
    assert(log@.take(i as int) =~= log@);
    r
}

} // verus!
