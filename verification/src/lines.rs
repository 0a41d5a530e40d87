//! The line source: a sequential reader over newline-delimited text with
//! skip, next-line and rewind. The text is split into lines once, and a
//! position tracks how many lines have been handed out.

use vstd::prelude::*;

verus! {

broadcast use vstd::std_specs::vec::axiom_spec_len;

/// ASCII code of the line feed that delimits records.
pub const NEWLINE: u8 = 10;

/// Folding `content` byte by byte into the finished lines and the trailing
/// partial line that no newline has closed yet.
pub open spec fn split_state(content: Seq<u8>) -> (Seq<Seq<u8>>, Seq<u8>)
    decreases content.len(),
{
    if content.len() == 0 {
        (Seq::empty(), Seq::empty())
    } else {
        let (lines, partial) = split_state(content.drop_last());
        if content.last() == NEWLINE {
            (lines.push(partial), Seq::empty())
        } else {
            (lines, partial.push(content.last()))
        }
    }
}

/// The lines of `content`: newline-delimited records with their terminators
/// stripped; a trailing run without a newline still counts as a line, and a
/// trailing newline does not open an empty one.
pub open spec fn line_seq(content: Seq<u8>) -> Seq<Seq<u8>> {
    let (lines, partial) = split_state(content);
    if partial.len() == 0 {
        lines
    } else {
        lines.push(partial)
    }
}

/// Splits text into its lines, newline terminators stripped.
pub fn split_lines(content: &[u8]) -> (r: Vec<Vec<u8>>)
    ensures
        r.deep_view() == line_seq(content@),
{
    let mut lines: Vec<Vec<u8>> = Vec::new();
    let mut partial: Vec<u8> = Vec::new();
    let mut i: usize = 0;
    proof {
        assert(content@.take(0) =~= Seq::<u8>::empty());
    }
    while i < content.len()
        invariant
            i <= content@.len(),
            lines.deep_view() == split_state(content@.take(i as int)).0,
            partial@ == split_state(content@.take(i as int)).1,
        decreases content@.len() - i,
    {
        let ghost prefix = content@.take(i as int);
        let ghost extended = content@.take(i + 1 as int);
        proof {
            assert(extended.drop_last() =~= prefix);
            assert(extended.last() == content@[i as int]);
        }
        let b = content[i];
        if b == NEWLINE {
            let ghost old_lines = lines.deep_view();
            let ghost finished = partial@;
            let ghost pushed = partial;
            lines.push(partial);
            partial = Vec::new();
            proof {
                assert(pushed.deep_view() =~= finished);
                assert(lines.deep_view() =~= old_lines.push(finished));
            }
        } else {
            partial.push(b);
        }
        i = i + 1;
    }
    proof {
        assert(content@.take(content@.len() as int) =~= content@);
    }
    if partial.len() > 0 {
        let ghost old_lines = lines.deep_view();
        let ghost finished = partial@;
        let ghost pushed = partial;
        lines.push(partial);
        proof {
            assert(pushed.deep_view() =~= finished);
            assert(lines.deep_view() =~= old_lines.push(finished));
        }
    }
    lines
}

/// One `next_line` call as a relation between the source states before and
/// after it and the line it handed out: while lines remain, the call returns
/// the line at the position and advances; at the end it returns nothing and
/// stays put.
pub open spec fn read_transition(pre: LineSource, post: LineSource, r: Option<Seq<u8>>) -> bool {
    &&& post.lines() == pre.lines()
    &&& (pre.pos() < pre.lines().len() ==> r == Some(pre.lines()[pre.pos()]) && post.pos()
        == pre.pos() + 1)
    &&& (pre.pos() >= pre.lines().len() ==> r is None && post.pos() == pre.pos())
}

/// A sequential line reader with a current position. Reads hand lines out in
/// order; `skip` discards lines best-effort; `rewind` repositions to the
/// start.
pub struct LineSource {
    lines: Vec<Vec<u8>>,
    pos: usize,
}

impl LineSource {
    /// The lines the source was built from.
    pub closed spec fn lines(&self) -> Seq<Seq<u8>> {
        self.lines.deep_view()
    }

    /// How many lines have been handed out since the start of the stream.
    pub closed spec fn pos(&self) -> int {
        self.pos as int
    }

    /// The position never runs past the end, and the line count fits the
    /// machine.
    pub open spec fn wf(&self) -> bool {
        0 <= self.pos() <= self.lines().len() <= usize::MAX
    }

    /// Opens a source over `content`, positioned at the first line.
    pub fn new(content: &[u8]) -> (s: Self)
        ensures
            s.wf(),
            s.lines() == line_seq(content@),
            s.pos() == 0,
    {
        let lines = split_lines(content);
        proof {
            assert(lines.deep_view().len() == lines@.len());
            assert(lines@.len() == vstd::std_specs::vec::spec_vec_len(&lines));
        }
        LineSource { lines, pos: 0 }
    }

    /// Reads and discards up to `n` lines; a short source simply yields fewer
    /// discards without error.
    pub fn skip(&mut self, n: u64)
        requires
            old(self).wf(),
        ensures
            final(self).wf(),
            final(self).lines() == old(self).lines(),
            final(self).pos() == if old(self).pos() + n <= old(self).lines().len() {
                old(self).pos() + n
            } else {
                old(self).lines().len() as int
            },
    {
        let remaining = self.lines.len() - self.pos;
        if n >= remaining as u64 {
            self.pos = self.lines.len();
        } else {
            self.pos = self.pos + n as usize;
        }
    }

    /// Hands out the next line, or `None` once the source is exhausted.
    pub fn next_line(&mut self) -> (r: Option<Vec<u8>>)
        requires
            old(self).wf(),
        ensures
            final(self).wf(),
            read_transition(*old(self), *final(self), r.deep_view()),
    {
        if self.pos < self.lines.len() {
            let line = &self.lines[self.pos];
            let mut out: Vec<u8> = Vec::new();
            let mut j: usize = 0;
            while j < line.len()
                invariant
                    j <= line@.len(),
                    out@ == line@.take(j as int),
                decreases line@.len() - j,
            {
                out.push(line[j]);
                proof {
                    assert(out@ =~= line@.take(j + 1 as int));
                }
                j = j + 1;
            }
            proof {
                assert(out@ =~= line@);
                assert(out.deep_view() =~= line@);
                assert(line@ == self.lines()[self.pos()]);
            }
            self.pos = self.pos + 1;
            Some(out)
        } else {
            None
        }
    }

    /// Repositions the source to the very start of the stream.
    pub fn rewind(&mut self)
        requires
            old(self).wf(),
        ensures
            final(self).wf(),
            final(self).lines() == old(self).lines(),
            final(self).pos() == 0,
    {
        self.pos = 0;
    }
}

/// LAW: after the source reports exhaustion, a rewind makes the next read
/// hand out the first line again. `s0` is the exhausted source whose read
/// returned `r0`, leaving `s1`; `s2` is `s1` rewound, as `rewind`'s contract
/// leaves it; `r1` is what the read after the rewind returned.
pub proof fn lemma_rewind_restarts(
    s0: LineSource,
    r0: Option<Seq<u8>>,
    s1: LineSource,
    s2: LineSource,
    s3: LineSource,
    r1: Option<Seq<u8>>,
)
    requires
        s0.wf(),
        s0.pos() >= s0.lines().len(),
        read_transition(s0, s1, r0),
        s2.lines() == s1.lines(),
        s2.pos() == 0,
        read_transition(s2, s3, r1),
        s0.lines().len() > 0,
    ensures
        r0 is None,
        r1 == Some(s0.lines()[0]),
{
}

/// Along a chain of reads, the lines never change and the position walks
/// forward one line per read until it parks at the end.
proof fn lemma_read_chain_positions(
    states: Seq<LineSource>,
    results: Seq<Option<Seq<u8>>>,
    j: int,
)
    requires
        states.len() == results.len() + 1,
        forall|i: int|
            0 <= i < results.len() ==> #[trigger] read_transition(
                states[i],
                states[i + 1],
                results[i],
            ),
        states[0].wf(),
        0 <= j < states.len(),
    ensures
        states[j].lines() == states[0].lines(),
        states[j].pos() == if states[0].pos() + j <= states[0].lines().len() {
            states[0].pos() + j
        } else {
            states[0].lines().len() as int
        },
    decreases j,
{
    if j > 0 {
        lemma_read_chain_positions(states, results, j - 1);
        assert(read_transition(states[j - 1], states[(j - 1) + 1], results[j - 1]));
    }
}

/// LAW: from a source positioned at line `k` of an `n`-line stream (after a
/// `skip(k)` from the start, say), successive reads hand out lines
/// `k+1 .. n` in their stored order, and every read past the end hands out
/// nothing. `states` holds the source before each read and after the last
/// one; `results[i]` is what the `i`-th read returned, as `next_line`'s
/// contract relates them.
pub proof fn lemma_reads_in_order(states: Seq<LineSource>, results: Seq<Option<Seq<u8>>>)
    requires
        states.len() == results.len() + 1,
        forall|i: int|
            0 <= i < results.len() ==> #[trigger] read_transition(
                states[i],
                states[i + 1],
                results[i],
            ),
        states[0].wf(),
    ensures
        forall|j: int|
            0 <= j < results.len() ==> #[trigger] results[j] == (
            if states[0].pos() + j < states[0].lines().len() {
                Some(states[0].lines()[states[0].pos() + j])
            } else {
                None
            }),
{
    assert forall|j: int| 0 <= j < results.len() implies #[trigger] results[j] == (
    if states[0].pos() + j < states[0].lines().len() {
        Some(states[0].lines()[states[0].pos() + j])
    } else {
        None
    }) by {
        lemma_read_chain_positions(states, results, j);
        assert(read_transition(states[j], states[j + 1], results[j]));
    }
}

} // verus!
