//! Reading and splitting process logs. `tail_last_lines` extracts the last
//! lines of a byte buffer exactly as splitting the whole file would; the
//! suffix lemma justifies reading a large file backward in chunks and
//! stopping early. `LineBuffer` turns an incoming byte stream into
//! complete lines without losing or duplicating a byte, for the follow
//! mode and for log sinks.
use crate::strutil::{lemma_map_values_push, lemma_take_snoc};
use vstd::prelude::*;

verus! {

/// The index of the first newline in a byte sequence, or -1 if none.
pub open spec fn first_nl(s: Seq<u8>) -> int
    decreases s.len(),
{
    if s.len() == 0 {
        -1
    } else if s[0] == 10 {
        0
    } else {
        let r = first_nl(s.drop_first());
        if r == -1 {
            -1
        } else {
            r + 1
        }
    }
}

pub proof fn lemma_first_nl_bounds(s: Seq<u8>)
    ensures
        -1 <= first_nl(s) < s.len(),
        first_nl(s) >= 0 ==> s[first_nl(s)] == 10,
        forall|j: int| 0 <= j < first_nl(s) ==> s[j] != 10,
        first_nl(s) == -1 ==> forall|j: int| 0 <= j < s.len() ==> s[j] != 10,
    decreases s.len(),
{
    if s.len() > 0 && s[0] != 10 {
        let d = s.drop_first();
        lemma_first_nl_bounds(d);
        assert forall|j: int| 0 <= j < first_nl(s) implies s[j] != 10 by {
            if j > 0 {
                assert(s[j] == d[j - 1]);
            }
        }
        if first_nl(s) == -1 {
            assert forall|j: int| 0 <= j < s.len() implies s[j] != 10 by {
                if j > 0 {
                    assert(s[j] == d[j - 1]);
                }
            }
        }
    }
}

#[via_fn]
proof fn split_nl_decreases(s: Seq<u8>)
{
    lemma_first_nl_bounds(s);
}

/// The segments of a byte sequence between newlines: always at least one
/// segment, with the newline bytes themselves dropped.
pub open spec fn split_nl(s: Seq<u8>) -> Seq<Seq<u8>>
    decreases s.len(),
        via split_nl_decreases
{
    let i = first_nl(s);
    if i == -1 {
        seq![s]
    } else {
        seq![s.take(i)] + split_nl(s.skip(i + 1))
    }
}

/// How often a byte occurs in a sequence.
pub open spec fn count_byte(s: Seq<u8>, b: u8) -> nat
    decreases s.len(),
{
    if s.len() == 0 {
        0
    } else {
        (if s[0] == b {
            1nat
        } else {
            0nat
        }) + count_byte(s.drop_first(), b)
    }
}

pub proof fn lemma_count_byte_concat(a: Seq<u8>, b: Seq<u8>, x: u8)
    ensures
        count_byte(a + b, x) == count_byte(a, x) + count_byte(b, x),
    decreases a.len(),
{
    if a.len() == 0 {
        assert(a + b =~= b);
    } else {
        assert((a + b).drop_first() =~= a.drop_first() + b);
        lemma_count_byte_concat(a.drop_first(), b, x);
    }
}

proof fn lemma_count_byte_none(s: Seq<u8>, x: u8)
    requires
        forall|j: int| 0 <= j < s.len() ==> s[j] != x,
    ensures
        count_byte(s, x) == 0,
    decreases s.len(),
{
    if s.len() > 0 {
        assert(forall|j: int| 0 <= j < s.drop_first().len() ==> s.drop_first()[j] != x);
        lemma_count_byte_none(s.drop_first(), x);
    }
}

/// There is one more segment than there are newlines.
pub proof fn lemma_split_nl_len(s: Seq<u8>)
    ensures
        split_nl(s).len() == count_byte(s, 10) + 1,
    decreases s.len(),
{
    lemma_first_nl_bounds(s);
    let i = first_nl(s);
    if i == -1 {
        lemma_count_byte_none(s, 10);
    } else {
        lemma_split_nl_len(s.skip(i + 1));
        assert(s =~= s.take(i) + (seq![10u8] + s.skip(i + 1)));
        lemma_count_byte_concat(s.take(i), seq![10u8] + s.skip(i + 1), 10);
        lemma_count_byte_concat(seq![10u8], s.skip(i + 1), 10);
        assert(forall|j: int| 0 <= j < s.take(i).len() ==> s.take(i)[j] != 10);
        lemma_count_byte_none(s.take(i), 10);
        assert(count_byte(seq![10u8], 10) == 1) by {
            assert(seq![10u8].drop_first() =~= Seq::<u8>::empty());
            assert(count_byte(Seq::<u8>::empty(), 10) == 0);
        }
    }
}

/// The index of the first newline in a concatenation.
proof fn lemma_first_nl_concat(a: Seq<u8>, b: Seq<u8>)
    ensures
        first_nl(a + b) == if first_nl(a) >= 0 {
            first_nl(a)
        } else if first_nl(b) >= 0 {
            a.len() + first_nl(b)
        } else {
            -1
        },
    decreases a.len(),
{
    lemma_first_nl_bounds(a);
    lemma_first_nl_bounds(b);
    lemma_first_nl_bounds(a + b);
    if a.len() == 0 {
        assert(a + b =~= b);
    } else if a[0] == 10 {
        assert((a + b)[0] == 10);
    } else {
        assert((a + b).drop_first() =~= a.drop_first() + b);
        lemma_first_nl_concat(a.drop_first(), b);
    }
}

/// Splitting a concatenation: the boundary segments merge, the rest stay.
pub proof fn lemma_split_nl_concat(a: Seq<u8>, b: Seq<u8>)
    ensures
        split_nl(a + b) == split_nl(a).drop_last() + seq![split_nl(a).last() + split_nl(b).first()]
            + split_nl(b).drop_first(),
    decreases a.len(),
{
    lemma_first_nl_bounds(a);
    lemma_first_nl_bounds(b);
    lemma_first_nl_concat(a, b);
    let ia = first_nl(a);
    let ib = first_nl(b);
    if ia == -1 {
        assert(split_nl(a) =~= seq![a]);
        if ib == -1 {
            assert(split_nl(a + b) =~= seq![a + b]);
            assert(split_nl(b) =~= seq![b]);
            assert(split_nl(a).drop_last() + seq![split_nl(a).last() + split_nl(b).first()]
                + split_nl(b).drop_first() =~= seq![a + b]);
        } else {
            let t = a + b;
            assert(first_nl(t) == a.len() + ib);
            assert(t.take(a.len() + ib) =~= a + b.take(ib));
            assert(t.skip(a.len() + ib + 1) =~= b.skip(ib + 1));
            assert(split_nl(t) == seq![a + b.take(ib)] + split_nl(b.skip(ib + 1)));
            assert(split_nl(b) == seq![b.take(ib)] + split_nl(b.skip(ib + 1)));
            assert(split_nl(b).first() == b.take(ib));
            assert(split_nl(b).drop_first() =~= split_nl(b.skip(ib + 1)));
            assert(split_nl(a).drop_last() + seq![split_nl(a).last() + split_nl(b).first()]
                + split_nl(b).drop_first() =~= seq![a + b.take(ib)] + split_nl(b.skip(ib + 1)));
        }
    } else {
        let t = a + b;
        assert(first_nl(t) == ia);
        assert(t.take(ia) =~= a.take(ia));
        assert(t.skip(ia + 1) =~= a.skip(ia + 1) + b);
        lemma_split_nl_concat(a.skip(ia + 1), b);
        assert(split_nl(t) == seq![a.take(ia)] + split_nl(a.skip(ia + 1) + b));
        assert(split_nl(a) == seq![a.take(ia)] + split_nl(a.skip(ia + 1)));
        let x = split_nl(a.skip(ia + 1));
        assert(x.len() >= 1) by {
            lemma_split_nl_len(a.skip(ia + 1));
        }
        assert(split_nl(a).drop_last() =~= seq![a.take(ia)] + x.drop_last());
        assert(split_nl(a).last() == x.last());
        assert(split_nl(t) =~= split_nl(a).drop_last() + seq![split_nl(a).last() + split_nl(
            b,
        ).first()] + split_nl(b).drop_first());
    }
}

/// The lines of a log file: its newline-separated segments, without a
/// final empty segment left by a trailing newline.
pub open spec fn file_lines(s: Seq<u8>) -> Seq<Seq<u8>> {
    let parts = split_nl(s);
    if parts.last().len() == 0 {
        parts.drop_last()
    } else {
        parts
    }
}

/// The last `n` elements, or all of them if there are no more than `n`.
pub open spec fn last_n(l: Seq<Seq<u8>>, n: int) -> Seq<Seq<u8>> {
    if l.len() > n {
        l.skip(l.len() - n)
    } else {
        l
    }
}

/// What tailing a file yields: the last `n` of its lines.
pub open spec fn tail_lines_spec(s: Seq<u8>, n: int) -> Seq<Seq<u8>> {
    last_n(file_lines(s), n)
}

/// Tailing needs only a suffix of the file: once a suffix holds more than
/// `n` newlines, its last `n` lines are the whole file's last `n` lines.
/// This is what lets a reader walk backward in chunks and stop early.
pub proof fn lemma_tail_of_suffix(s: Seq<u8>, k: int, n: int)
    requires
        0 <= k <= s.len(),
        0 <= n,
        count_byte(s.skip(k), 10) > n,
    ensures
        tail_lines_spec(s.skip(k), n) == tail_lines_spec(s, n),
{
    let a = s.take(k);
    let b = s.skip(k);
    assert(s =~= a + b);
    lemma_split_nl_concat(a, b);
    lemma_split_nl_len(b);
    lemma_split_nl_len(a);
    let pa = split_nl(a);
    let pb = split_nl(b);
    let ps = split_nl(s);
    assert(ps == pa.drop_last() + seq![pa.last() + pb.first()] + pb.drop_first());
    let head = pa.drop_last() + seq![pa.last() + pb.first()];
    assert(ps =~= head + pb.drop_first());
    let tail = pb.drop_first();
    assert(tail.len() == pb.len() - 1);
    assert(pb.len() > n + 1);
    assert(tail.len() >= n + 1);
    assert(ps.last() == tail.last());
    assert(pb.last() == tail.last()) by {
        assert(pb =~= seq![pb.first()] + tail);
    }
    // The lines of each, after handling a trailing empty segment, share a
    // suffix of at least n lines.
    let ls = file_lines(s);
    let lb = file_lines(b);
    if pb.last().len() == 0 {
        assert(ls =~= head + tail.drop_last());
        assert(lb =~= seq![pb.first()] + tail.drop_last());
        let common = tail.drop_last();
        assert(common.len() >= n);
        assert(last_n(ls, n) =~= last_n(lb, n)) by {
            assert(ls.len() >= n && lb.len() >= n);
            assert(ls.skip(ls.len() - n) =~= common.skip(common.len() - n));
            assert(lb.skip(lb.len() - n) =~= common.skip(common.len() - n));
        }
    } else {
        assert(ls =~= head + tail);
        assert(lb =~= seq![pb.first()] + tail);
        assert(tail.len() >= n);
        assert(last_n(ls, n) =~= last_n(lb, n)) by {
            assert(ls.len() >= n && lb.len() >= n);
            assert(ls.skip(ls.len() - n) =~= tail.skip(tail.len() - n));
            assert(lb.skip(lb.len() - n) =~= tail.skip(tail.len() - n));
        }
    }
}

/// Relies on `bytecount::count`: the number of occurrences of a byte in a
/// slice.
#[verifier::external_body]
fn byte_occurrences(haystack: &[u8], needle: u8) -> (r: usize)
    ensures
        r == count_byte(haystack@, needle),
{
    bytecount::count(haystack, needle)
}

/// Whether a buffer already holds more than `n` newlines, so that a
/// backward reader can stop: its tail is the whole file's tail.
pub fn tail_buffer_sufficient(buf: &[u8], n: usize) -> (r: bool)
    ensures
        r == (count_byte(buf@, 10) > n),
{
    byte_occurrences(buf, 10) > n
}

/// The last `n` lines of a buffer, exactly as splitting the whole buffer
/// on newlines (and dropping a final empty segment) would give them.
#[verifier::rlimit(50)]
pub fn tail_last_lines(buf: &[u8], n: usize) -> (r: Vec<Vec<u8>>)
    ensures
        r@.map_values(|l: Vec<u8>| l@) == tail_lines_spec(buf@, n as int),
{
    let mut segs: Vec<Vec<u8>> = Vec::new();
    let mut cur: Vec<u8> = Vec::new();
    let mut i: usize = 0;
    proof {
        assert(buf@.take(0) =~= Seq::<u8>::empty());
        assert(split_nl(buf@.take(0)) =~= seq![Seq::<u8>::empty()]);
        assert(segs@.map_values(|l: Vec<u8>| l@).push(cur@) =~= split_nl(buf@.take(0)));
    }
    while i < buf.len()
        invariant
            i <= buf@.len(),
            segs@.map_values(|l: Vec<u8>| l@).push(cur@) == split_nl(buf@.take(i as int)),
        decreases buf@.len() - i,
    {
        let c = buf[i];
        let ghost p = split_nl(buf@.take(i as int));
        proof {
            lemma_take_snoc(buf@, i as int);
            assert(buf@.take(i as int) + seq![c] =~= buf@.take(i + 1));
            lemma_split_nl_concat(buf@.take(i as int), seq![c]);
            lemma_first_nl_bounds(seq![c]);
        }
        if c == 10 {
            proof {
                assert(first_nl(seq![c]) == 0);
                assert(split_nl(seq![c]) =~= seq![Seq::<u8>::empty(), Seq::<u8>::empty()]) by {
                    assert(seq![c].take(0) =~= Seq::<u8>::empty());
                    assert(seq![c].skip(1) =~= Seq::<u8>::empty());
                    assert(split_nl(Seq::<u8>::empty()) =~= seq![Seq::<u8>::empty()]);
                }
                lemma_split_nl_len(buf@.take(i as int));
                let sb = split_nl(seq![c]);
                assert(sb.first() =~= Seq::<u8>::empty());
                assert(sb.drop_first() =~= seq![Seq::<u8>::empty()]);
                assert(split_nl(buf@.take(i + 1)) == p.drop_last() + seq![p.last() + sb.first()]
                    + sb.drop_first());
                assert(p.last() + sb.first() =~= p.last());
                assert(split_nl(buf@.take(i + 1)) =~= p.push(Seq::<u8>::empty()));
            }
            let ghost prior = segs@;
            let ghost curv = cur@;
            out_push_line(&mut segs, cur);
            cur = Vec::new();
            proof {
                assert(segs@ == prior.push(segs@[prior.len() as int]));
                assert(segs@[prior.len() as int]@ == curv);
                lemma_map_values_push(prior, |l: Vec<u8>| l@, segs@[prior.len() as int]);
                assert(segs@.map_values(|l: Vec<u8>| l@) =~= prior.map_values(|l: Vec<u8>| l@).push(curv));
                assert(segs@.map_values(|l: Vec<u8>| l@) == p);
                assert(cur@ =~= Seq::<u8>::empty());
                assert(segs@.map_values(|l: Vec<u8>| l@).push(cur@) == p.push(Seq::<u8>::empty()));
                assert(split_nl(buf@.take(i + 1)) == p.push(Seq::<u8>::empty()));
                assert(segs@.map_values(|l: Vec<u8>| l@).push(cur@) == split_nl(buf@.take(i + 1)));
            }
        } else {
            proof {
                assert(first_nl(seq![c]) == -1);
                let sb = split_nl(seq![c]);
                assert(sb =~= seq![seq![c]]);
                assert(sb.first() =~= seq![c]);
                assert(sb.drop_first() =~= Seq::<Seq<u8>>::empty());
                assert(split_nl(buf@.take(i + 1)) == p.drop_last() + seq![p.last() + sb.first()]
                    + sb.drop_first());
                assert(split_nl(buf@.take(i + 1)) =~= p.drop_last().push(p.last() + seq![c]));
                assert(p.drop_last() =~= segs@.map_values(|l: Vec<u8>| l@));
                assert(p.last() == cur@);
            }
            let ghost oldcur = cur@;
            cur.push(c);
            proof {
                assert(cur@ =~= oldcur + seq![c]);
                assert(segs@.map_values(|l: Vec<u8>| l@).push(cur@) == split_nl(buf@.take(i + 1)));
            }
        }
        i = i + 1;
    }
    proof {
        assert(buf@.take(buf@.len() as int) =~= buf@);
    }
    let ghost prior = segs@;
    out_push_line(&mut segs, cur);
    proof {
        lemma_map_values_push(prior, |l: Vec<u8>| l@, segs@[prior.len() as int]);
        assert(segs@.map_values(|l: Vec<u8>| l@) =~= split_nl(buf@));
    }
    // Drop the final empty segment left by a trailing newline.
    if segs[segs.len() - 1].len() == 0 {
        let ghost before = segs@;
        segs.pop();
        proof {
            assert(segs@.map_values(|l: Vec<u8>| l@) =~= before.map_values(|l: Vec<u8>| l@).drop_last());
            assert(before.map_values(|l: Vec<u8>| l@).last().len() == 0);
            assert(segs@.map_values(|l: Vec<u8>| l@) =~= file_lines(buf@));
        }
    } else {
        proof {
            assert(segs@.map_values(|l: Vec<u8>| l@) =~= file_lines(buf@));
        }
    }
    // Keep only the last n lines.
    if segs.len() > n {
        let start = segs.len() - n;
        let ghost before = segs@;
        let out = segs.split_off(start);
        proof {
            assert(out@.map_values(|l: Vec<u8>| l@) =~= before.map_values(|l: Vec<u8>| l@).skip(start as int));
            assert(out@.map_values(|l: Vec<u8>| l@) =~= tail_lines_spec(buf@, n as int));
        }
        out
    } else {
        proof {
            assert(segs@.map_values(|l: Vec<u8>| l@) =~= tail_lines_spec(buf@, n as int));
        }
        segs
    }
}

fn out_push_line(segs: &mut Vec<Vec<u8>>, line: Vec<u8>)
    ensures
        final(segs)@ == old(segs)@.push(line),
{
    segs.push(line);
}

/// All bytes joined back, one newline after each line.
pub open spec fn joined_lines(lines: Seq<Seq<u8>>) -> Seq<u8>
    decreases lines.len(),
{
    if lines.len() == 0 {
        Seq::<u8>::empty()
    } else {
        lines.first() + seq![10u8] + joined_lines(lines.drop_first())
    }
}

pub proof fn lemma_joined_lines_snoc(lines: Seq<Seq<u8>>, x: Seq<u8>)
    ensures
        joined_lines(lines.push(x)) == joined_lines(lines) + x + seq![10u8],
    decreases lines.len(),
{
    if lines.len() == 0 {
        assert(lines.push(x).first() == x);
        assert(lines.push(x).drop_first() =~= Seq::<Seq<u8>>::empty());
        assert(joined_lines(Seq::<Seq<u8>>::empty()) == Seq::<u8>::empty());
        assert(joined_lines(lines.push(x)) == x + seq![10u8] + Seq::<u8>::empty());
        assert(joined_lines(lines.push(x)) =~= joined_lines(lines) + x + seq![10u8]);
    } else {
        assert(lines.push(x).first() == lines.first());
        assert(lines.push(x).drop_first() =~= lines.drop_first().push(x));
        lemma_joined_lines_snoc(lines.drop_first(), x);
        assert(joined_lines(lines.push(x)) =~= joined_lines(lines) + x + seq![10u8]);
    }
}

/// Newline-free lines joined back and followed by a newline-free tail
/// decompose uniquely: they are exactly the byte stream's segments.
pub proof fn lemma_line_decomposition(lines: Seq<Seq<u8>>, tail: Seq<u8>)
    requires
        forall|i: int, j: int|
            0 <= i < lines.len() && 0 <= j < lines[i].len() ==> lines[i][j] != 10,
        forall|j: int| 0 <= j < tail.len() ==> tail[j] != 10,
    ensures
        split_nl(joined_lines(lines) + tail) == lines.push(tail),
    decreases lines.len(),
{
    if lines.len() == 0 {
        assert(joined_lines(lines) + tail =~= tail);
        lemma_first_nl_bounds(tail);
        assert(first_nl(tail) == -1);
        assert(split_nl(tail) =~= lines.push(tail));
    } else {
        let l0 = lines.first();
        let rest = lines.drop_first();
        let data = joined_lines(lines) + tail;
        let after = joined_lines(rest) + tail;
        assert(forall|i: int, j: int|
            0 <= i < rest.len() && 0 <= j < rest[i].len() ==> rest[i][j] != 10) by {
            assert(forall|i: int| 0 <= i < rest.len() ==> rest[i] == lines[i + 1]);
        }
        assert(data =~= l0 + (seq![10u8] + after));
        lemma_first_nl_bounds(l0);
        assert(first_nl(l0) == -1);
        lemma_first_nl_concat(l0, seq![10u8] + after);
        assert((seq![10u8] + after)[0] == 10);
        lemma_first_nl_bounds(seq![10u8] + after);
        assert(first_nl(seq![10u8] + after) == 0);
        assert(first_nl(data) == l0.len());
        assert(data.take(l0.len() as int) =~= l0);
        assert(data.skip(l0.len() as int + 1) =~= after);
        lemma_line_decomposition(rest, tail);
        assert(split_nl(data) == seq![l0] + split_nl(after));
        assert(split_nl(data) =~= lines.push(tail));
    }
}

/// A stream-to-lines splitter: bytes go in in arbitrary chunks, complete
/// lines come out, and the bytes of a line still missing its newline wait
/// in `partial`. Nothing is lost and nothing is emitted twice: the lines
/// handed out, each closed by its newline, followed by the new `partial`,
/// are exactly the old `partial` followed by the chunk.
#[derive(Debug)]
pub struct LineBuffer {
    pub partial: Vec<u8>,
}

impl LineBuffer {
    /// No byte of an incomplete line is a newline.
    pub open spec fn wf(self) -> bool {
        forall|i: int| 0 <= i < self.partial@.len() ==> self.partial@[i] != 10
    }

    pub fn new() -> (r: LineBuffer)
        ensures
            r.wf(),
            r.partial@ == Seq::<u8>::empty(),
    {
        LineBuffer { partial: Vec::new() }
    }

    /// Feed the next chunk of the stream; the completed lines come back in
    /// order, without their newlines.
    pub fn feed(&mut self, chunk: &[u8]) -> (out: Vec<Vec<u8>>)
        requires
            old(self).wf(),
        ensures
            final(self).wf(),
            joined_lines(out@.map_values(|l: Vec<u8>| l@)) + final(self).partial@ == old(
                self,
            ).partial@ + chunk@,
            forall|i: int, j: int|
                0 <= i < out@.len() && 0 <= j < out@[i]@.len() ==> out@[i]@[j] != 10,
            out@.map_values(|l: Vec<u8>| l@) == split_nl(
                old(self).partial@ + chunk@,
            ).drop_last(),
            final(self).partial@ == split_nl(old(self).partial@ + chunk@).last(),
    {
            let ghost start: Seq<u8> = self.partial@;
        let mut out: Vec<Vec<u8>> = Vec::new();
        let mut cur: Vec<u8> = self.partial.split_off(0);
        let mut i: usize = 0;
        proof {
            assert(chunk@.take(0) =~= Seq::<u8>::empty());
            assert(joined_lines(out@.map_values(|l: Vec<u8>| l@)) + cur@ =~= start + chunk@.take(0));
        }
        while i < chunk.len()
            invariant
                i <= chunk@.len(),
                joined_lines(out@.map_values(|l: Vec<u8>| l@)) + cur@ == start + chunk@.take(i as int),
                forall|j: int| 0 <= j < cur@.len() ==> cur@[j] != 10,
                forall|a: int, b: int|
                    0 <= a < out@.len() && 0 <= b < out@[a]@.len() ==> out@[a]@[b] != 10,
            decreases chunk@.len() - i,
        {
            let c = chunk[i];
            proof {
                lemma_take_snoc(chunk@, i as int);
            }
            if c == 10 {
                let ghost prior = out@;
                let ghost curv = cur@;
                out_push_line(&mut out, cur);
                cur = Vec::new();
                proof {
                    assert(out@ == prior.push(out@[prior.len() as int]));
                    assert(out@[prior.len() as int]@ == curv);
                    lemma_map_values_push(prior, |l: Vec<u8>| l@, out@[prior.len() as int]);
                    assert(out@.map_values(|l: Vec<u8>| l@) =~= prior.map_values(|l: Vec<u8>| l@).push(curv));
                    lemma_joined_lines_snoc(prior.map_values(|l: Vec<u8>| l@), curv);
                    assert(joined_lines(out@.map_values(|l: Vec<u8>| l@)) =~= (joined_lines(prior.map_values(|l: Vec<u8>| l@)) + curv) + seq![10u8]);
                    assert(joined_lines(out@.map_values(|l: Vec<u8>| l@)) + cur@ =~= start + chunk@.take(
                        i + 1,
                    ));
                }
            } else {
                let ghost prior_cur = cur@;
                cur.push(c);
                proof {
                    assert(joined_lines(out@.map_values(|l: Vec<u8>| l@)) + cur@ =~= (joined_lines(
                        out@.map_values(|l: Vec<u8>| l@),
                    ) + prior_cur) + seq![c]);
                    assert(joined_lines(out@.map_values(|l: Vec<u8>| l@)) + cur@ =~= start + chunk@.take(
                        i + 1,
                    ));
                }
            }
            i = i + 1;
        }
        proof {
            assert(chunk@.take(chunk@.len() as int) =~= chunk@);
            let lines = out@.map_values(|l: Vec<u8>| l@);
            assert(forall|a: int, j: int|
                0 <= a < lines.len() && 0 <= j < lines[a].len() ==> lines[a][j] != 10) by {
                assert(forall|a: int| 0 <= a < out@.len() ==> lines[a] == out@[a]@);
            }
            lemma_line_decomposition(lines, cur@);
            assert(split_nl(start + chunk@) == lines.push(cur@));
            assert(lines.push(cur@).drop_last() =~= lines);
        }
        self.partial = cur;
        out
    }
}

} // verus!
