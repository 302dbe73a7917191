//! Line framing: splitting the connection's byte stream into
//! newline-terminated lines. A line is the bytes since the previous
//! newline, stripped of one trailing carriage return; bytes after the last
//! newline are no line yet, and are dropped if the stream ends first.

use vstd::prelude::*;
use vstd::slice::{slice_index_get, slice_to_vec};

verus! {

/// `b'\n'`
pub const NL: u8 = 10;

/// `b'\r'`
pub const CR: u8 = 13;

/// `s` without one trailing carriage return, if it has one.
pub open spec fn strip_cr(s: Seq<u8>) -> Seq<u8> {
    if s.len() > 0 && s.last() == CR {
        s.drop_last()
    } else {
        s
    }
}

/// The bytes of `s` after its last newline: the partial line that no
/// newline has terminated yet.
pub open spec fn partial_rest(s: Seq<u8>) -> Seq<u8>
    decreases s.len(),
{
    if s.len() == 0 {
        Seq::empty()
    } else if s.last() == NL {
        Seq::empty()
    } else {
        partial_rest(s.drop_last()).push(s.last())
    }
}

/// The newline-terminated lines of `s`, in order, each without its newline
/// and without one trailing carriage return. Bytes after the last newline
/// contribute no line.
pub open spec fn complete_lines(s: Seq<u8>) -> Seq<Seq<u8>>
    decreases s.len(),
{
    if s.len() == 0 {
        Seq::empty()
    } else if s.last() == NL {
        complete_lines(s.drop_last()) + seq![strip_cr(partial_rest(s.drop_last()))]
    } else {
        complete_lines(s.drop_last())
    }
}

/// A stream without a newline holds no complete line: all of it is the
/// partial rest.
pub proof fn lemma_no_newline_no_line(s: Seq<u8>)
    requires
        forall|i: int| 0 <= i < s.len() ==> s[i] != NL,
    ensures
        complete_lines(s) == Seq::<Seq<u8>>::empty(),
        partial_rest(s) == s,
    decreases s.len(),
{
    if s.len() > 0 {
        lemma_no_newline_no_line(s.drop_last());
        assert(partial_rest(s.drop_last()).push(s.last()) =~= s);
    }
}

/// The partial rest of any stream contains no newline.
pub proof fn lemma_partial_rest_no_newline(s: Seq<u8>)
    ensures
        forall|i: int| 0 <= i < partial_rest(s).len() ==> partial_rest(s)[i] != NL,
    decreases s.len(),
{
    if s.len() > 0 && s.last() != NL {
        lemma_partial_rest_no_newline(s.drop_last());
        let p = partial_rest(s.drop_last());
        assert forall|i: int| 0 <= i < partial_rest(s).len() implies partial_rest(s)[i] != NL by {
            if i < p.len() {
                assert(partial_rest(s)[i] == p[i]);
            } else {
                assert(partial_rest(s)[i] == s.last());
            }
        }
    }
}

/// Framing is incremental: the lines of a stream extended by `s2` are the
/// lines already complete, then the lines that `s2` completes out of the
/// pending partial rest; and the new partial rest likewise depends only on
/// the old partial rest and `s2`.
pub proof fn lemma_framing_incremental(s1: Seq<u8>, s2: Seq<u8>)
    ensures
        complete_lines(s1 + s2) == complete_lines(s1) + complete_lines(partial_rest(s1) + s2),
        partial_rest(s1 + s2) == partial_rest(partial_rest(s1) + s2),
    decreases s2.len(),
{
    if s2.len() == 0 {
        assert(s1 + s2 =~= s1);
        lemma_partial_rest_no_newline(s1);
        assert(partial_rest(s1) + s2 =~= partial_rest(s1));
        lemma_no_newline_no_line(partial_rest(s1));
        assert(complete_lines(s1) + complete_lines(partial_rest(s1) + s2) =~= complete_lines(s1));
    } else {
        lemma_framing_incremental(s1, s2.drop_last());
        let b = s2.last();
        assert((s1 + s2).last() == b);
        assert((s1 + s2).drop_last() =~= s1 + s2.drop_last());
        assert((partial_rest(s1) + s2).last() == b);
        assert((partial_rest(s1) + s2).drop_last() =~= partial_rest(s1) + s2.drop_last());
        if b == NL {
            assert(complete_lines(s1) + complete_lines(partial_rest(s1) + s2) =~= complete_lines(
                s1 + s2,
            ));
        } else {
            assert(complete_lines(s1) + complete_lines(partial_rest(s1) + s2) =~= complete_lines(
                s1 + s2,
            ));
            assert(partial_rest(s1 + s2) =~= partial_rest(partial_rest(s1) + s2));
        }
    }
}

/// A stream that ends in a partial line (no newline after it) yields
/// exactly the lines of the stream without that tail: the partial line is
/// never acted on.
pub proof fn lemma_unterminated_tail_yields_no_line(s: Seq<u8>, tail: Seq<u8>)
    requires
        forall|i: int| 0 <= i < tail.len() ==> tail[i] != NL,
    ensures
        complete_lines(s + tail) == complete_lines(s),
{
    lemma_framing_incremental(s, tail);
    lemma_partial_rest_no_newline(s);
    assert(forall|i: int|
        0 <= i < (partial_rest(s) + tail).len() ==> (partial_rest(s) + tail)[i] != NL);
    lemma_no_newline_no_line(partial_rest(s) + tail);
    assert(complete_lines(s) + Seq::<Seq<u8>>::empty() =~= complete_lines(s));
}

/// Splits one connection's byte stream into lines as the chunks arrive,
/// buffering the bytes after the last newline seen so far.
pub struct LineFramer {
    pending: Vec<u8>,
}

impl View for LineFramer {
    type V = Seq<u8>;

    /// The buffered bytes: the partial line no newline has terminated yet.
    closed spec fn view(&self) -> Seq<u8> {
        self.pending@
    }
}

impl LineFramer {
    /// The buffer holds no newline; every method keeps this.
    pub open spec fn wf(&self) -> bool {
        forall|i: int| 0 <= i < self@.len() ==> self@[i] != NL
    }

    /// A framer with nothing buffered, for the start of a stream.
    pub fn new() -> (f: Self)
        ensures
            f@ == Seq::<u8>::empty(),
            f.wf(),
    {
        LineFramer { pending: Vec::new() }
    }

    /// Takes the next chunk of the stream and hands back the lines it
    /// completes, in order; the bytes after the chunk's last newline stay
    /// buffered. Dropping the framer drops a final partial line unacted on.
    pub fn push_chunk(&mut self, chunk: &[u8]) -> (lines: Vec<Vec<u8>>)
        requires
            old(self).wf(),
        ensures
            final(self).wf(),
            lines.deep_view() == complete_lines(old(self)@ + chunk@),
            final(self)@ == partial_rest(old(self)@ + chunk@),
    {
        let mut lines: Vec<Vec<u8>> = Vec::new();
        let mut i: usize = 0;
        proof {
            assert(old(self)@ + chunk@.take(0) =~= old(self)@);
            lemma_no_newline_no_line(old(self)@);
            assert(lines.deep_view() =~= complete_lines(old(self)@ + chunk@.take(0)));
        }
        while i < chunk.len()
            invariant
                0 <= i <= chunk@.len(),
                self.wf(),
                lines.deep_view() == complete_lines(old(self)@ + chunk@.take(i as int)),
                self@ == partial_rest(old(self)@ + chunk@.take(i as int)),
            decreases chunk@.len() - i,
        {
            let ghost stream = old(self)@ + chunk@.take(i as int);
            let b = *slice_index_get(chunk, i);
            proof {
                assert(old(self)@ + chunk@.take(i + 1) =~= stream.push(b));
                assert(stream.push(b).drop_last() =~= stream);
            }
            if b == NL {
                let ghost prev_lines = lines.deep_view();
                let mut line = slice_to_vec(self.pending.as_slice());
                if line.len() > 0 && *slice_index_get(line.as_slice(), line.len() - 1) == CR {
                    line.pop();
                }
                proof {
                    assert(line@ == strip_cr(self@));
                }
                let ghost line_view = line@;
                proof {
                    assert(line.deep_view() =~= line@);
                }
                lines.push(line);
                self.pending.clear();
                proof {
                    assert(lines.deep_view() =~= prev_lines + seq![line_view]);
                    assert(lines.deep_view() =~= complete_lines(stream.push(b)));
                }
            } else {
                self.pending.push(b);
                proof {
                    assert(self@ =~= partial_rest(stream.push(b)));
                }
            }
            i = i + 1;
        }
        proof {
            assert(chunk@.take(chunk@.len() as int) =~= chunk@);
        }
        lines
    }
}

} // verus!
