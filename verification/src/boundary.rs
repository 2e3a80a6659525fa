//! The delimiter scanner: a growable lookahead buffer over a [`ByteSource`]
//! that locates the next occurrence of the boundary marker, releases payload
//! bytes that provably lie before it, and consumes boundary delimiters.
//!
//! All contracts are stated over the underlying stream `data()` and the
//! reader position `rpos()`, never over how the source chunks its reads, so
//! a boundary split across two refills is found exactly like any other.

use vstd::prelude::*;

use crate::error::MpError;
use crate::pattern::{find_from, is_match, no_match_in, find_sub, lemma_find_from_spec,
    lemma_find_from_is, lemma_find_from_none, lemma_match_in_window, clone_bytes};
use crate::source::{ByteSource, TransportError};

verus! {

/// Carriage return, line feed.
pub open spec fn crlf() -> Seq<u8> {
    seq![13u8, 10u8]
}

/// The blank line that terminates a header block, together with the line
/// break of the last header line.
pub open spec fn crlf_crlf() -> Seq<u8> {
    seq![13u8, 10u8, 13u8, 10u8]
}

/// The boundary marker derived from a caller-supplied token: the token's
/// UTF-8 bytes prefixed with two hyphens.
pub open spec fn boundary_marker(token: Seq<char>) -> Seq<u8> {
    seq![45u8, 45u8] + vstd::utf8::encode_utf8(token)
}

/// What consuming the delimiter at or after `pos` means on the stream.
pub enum BoundaryOutcome {
    /// An ordinary boundary followed by CRLF: a part begins at the carried
    /// position.
    Part(int),
    /// The terminal marker (boundary followed by `--`): the stream of parts
    /// ends; the carried position is just after the two hyphens.
    Finish(int),
    /// No boundary, or the stream ends inside the delimiter: a truncated
    /// body.
    Missing,
    /// The boundary bytes occur but are followed by neither CRLF nor `--`.
    Malformed,
}

/// The meaning of `consume_boundary` at position `pos`: find the first
/// boundary occurrence, then classify what follows it.
pub open spec fn consume_spec(d: Seq<u8>, bnd: Seq<u8>, pos: int) -> BoundaryOutcome {
    match find_from(d, bnd, pos) {
        Option::None => BoundaryOutcome::Missing,
        Option::Some(b) => {
            let a = b + bnd.len();
            if a + 2 <= d.len() && d[a] == 45 && d[a + 1] == 45 {
                BoundaryOutcome::Finish(a + 2)
            } else if a + 2 <= d.len() && d[a] == 13 && d[a + 1] == 10 {
                BoundaryOutcome::Part(a + 2)
            } else if a + 2 > d.len() {
                BoundaryOutcome::Missing
            } else {
                BoundaryOutcome::Malformed
            }
        },
    }
}

/// Where the payload of the part starting at `pstart` ends: just before the
/// next boundary, with a CRLF immediately preceding that boundary belonging
/// to the delimiter, not the payload.
pub open spec fn strip_end(d: Seq<u8>, bnd: Seq<u8>, pstart: int) -> int
    recommends
        find_from(d, bnd, pstart) is Some,
{
    let b = find_from(d, bnd, pstart)->Some_0;
    if b - 2 >= pstart && d[b - 2] == 13 && d[b - 1] == 10 {
        b - 2
    } else {
        b
    }
}

/// The payload bytes of the part starting at `pstart`.
pub open spec fn payload_of(d: Seq<u8>, bnd: Seq<u8>, pstart: int) -> Seq<u8>
    recommends
        find_from(d, bnd, pstart) is Some,
{
    d.subrange(pstart, strip_end(d, bnd, pstart))
}

/// A valid reading position `rpos` inside the part starting at `pstart`:
/// everything before it has been released as payload, and it stays at least
/// two bytes short of the boundary (so a CRLF belonging to the delimiter is
/// never released), except right at the part's start.
pub open spec fn chunk_pos_ok(d: Seq<u8>, bnd: Seq<u8>, pstart: int, rpos: int) -> bool {
    &&& 0 <= pstart <= rpos <= d.len()
    &&& no_match_in(d, bnd, pstart, rpos)
    &&& (rpos == pstart || (match find_from(d, bnd, pstart) {
        Option::Some(b) => rpos + 2 <= b,
        Option::None => true,
    }))
}

/// Splitting a part into its header block and its body: `Some((block,
/// body))` where `block` is everything from `p` up to and including the last
/// header line's CRLF, and `body` is the position just after the blank
/// line.
pub open spec fn header_split(d: Seq<u8>, p: int) -> Option<(Seq<u8>, int)> {
    if p + 2 <= d.len() && d[p] == 13 && d[p + 1] == 10 {
        Option::Some((Seq::empty(), p + 2))
    } else {
        match find_from(d, crlf_crlf(), p) {
            Option::Some(h) => Option::Some((d.subrange(p, h + 2), h + 4)),
            Option::None => Option::None,
        }
    }
}

/// One step of the buffered search.
enum ScanStep {
    /// The pattern's first occurrence from `rpos` starts at this buffer
    /// offset, and the whole occurrence is buffered.
    Found(usize),
    /// No occurrence starts within the first so-many buffered bytes, and at
    /// least one more byte was read from the source.
    Partial(usize),
    /// The source is exhausted and no occurrence exists anywhere from
    /// `rpos` on.
    End,
}

/// The delimiter scanner: a byte source, a lookahead buffer holding bytes
/// already read but not yet released, and the boundary marker.
pub struct BoundaryReader<S: ByteSource> {
    source: S,
    buf: Vec<u8>,
    boundary: Vec<u8>,
}

impl<S: ByteSource> BoundaryReader<S> {
    /// The scanner buffer mirrors the stream just before the source's own
    /// position, and the boundary marker starts with the two hyphens.
    pub closed spec fn wf(&self) -> bool {
        &&& self.source.wf()
        &&& self.buf@.len() <= self.source.pos()
        &&& self.buf@ == self.source.data().subrange(
            self.source.pos() - self.buf@.len(),
            self.source.pos(),
        )
        &&& self.boundary@.len() >= 2
        &&& self.boundary@[0] == 45u8
        &&& self.boundary@[1] == 45u8
    }

    /// The whole underlying stream.
    pub closed spec fn data(&self) -> Seq<u8> {
        self.source.data()
    }

    /// The reader position: the first stream index not yet released.
    pub closed spec fn rpos(&self) -> int {
        self.source.pos() - self.buf@.len()
    }

    /// How far the source itself has been drained (reading never rewinds).
    pub closed spec fn spos(&self) -> int {
        self.source.pos()
    }

    /// The boundary marker bytes.
    pub closed spec fn bnd(&self) -> Seq<u8> {
        self.boundary@
    }

    /// Bounds that hold of every well-formed scanner.
    pub proof fn lemma_wf(&self)
        requires
            self.wf(),
        ensures
            0 <= self.rpos() <= self.spos() <= self.data().len(),
            self.bnd().len() >= 2,
    {
        self.source.wf_bounds();
    }

    /// Wrap `source`, deriving the boundary marker from `token` as the
    /// wire format prescribes: two hyphens prepended to the token's bytes.
    pub fn from_reader(source: S, token: &str) -> (r: Self)
        requires
            source.wf(),
        ensures
            r.wf(),
            r.data() == source.data(),
            r.rpos() == source.pos(),
            r.bnd() == boundary_marker(token@),
    {
        proof {
            source.wf_bounds();
        }
        let mut boundary: Vec<u8> = Vec::new();
        boundary.push(45u8);
        boundary.push(45u8);
        let mut tb = token.as_bytes_vec();
        boundary.append(&mut tb);
        proof {
            assert(boundary@ =~= boundary_marker(token@));
            assert(source.data().subrange(source.pos() - 0, source.pos()) =~= Seq::<
                u8,
            >::empty());
        }
        BoundaryReader { source, buf: Vec::new(), boundary }
    }

    /// Read one chunk from the source into the buffer. `Ok(true)` means the
    /// buffer grew; `Ok(false)` means the source is exhausted.
    fn fill_once(&mut self) -> (r: Result<bool, TransportError>)
        requires
            old(self).wf(),
        ensures
            final(self).wf(),
            final(self).data() == old(self).data(),
            final(self).bnd() == old(self).bnd(),
            final(self).rpos() == old(self).rpos(),
            match r {
                Ok(true) => final(self).spos() > old(self).spos(),
                Ok(false) => {
                    &&& final(self).spos() == old(self).spos()
                    &&& final(self).spos() == final(self).data().len()
                },
                Err(_) => final(self).spos() == old(self).spos(),
            },
    {
        proof {
            self.lemma_wf();
        }
        let ghost oldself = *self;
        let r = self.source.read_into(&mut self.buf);
        proof {
            self.source.wf_bounds();
            if let Ok(n) = r {
                assert(self.buf@ =~= self.source.data().subrange(
                    self.source.pos() - self.buf@.len(),
                    self.source.pos(),
                ));
            }
        }
        match r {
            Ok(n) => Ok(n > 0),
            Err(e) => Err(e),
        }
    }

    /// Grow the buffer until it holds at least `need` bytes, or the source
    /// is exhausted.
    fn ensure_lookahead(&mut self, need: usize) -> (r: Result<(), TransportError>)
        requires
            old(self).wf(),
        ensures
            final(self).wf(),
            final(self).data() == old(self).data(),
            final(self).bnd() == old(self).bnd(),
            final(self).rpos() == old(self).rpos(),
            final(self).spos() >= old(self).spos(),
            r is Ok ==> final(self).buffered() >= need
                || final(self).spos() == final(self).data().len(),
    {
        loop
            invariant
                self.wf(),
                self.data() == old(self).data(),
                self.bnd() == old(self).bnd(),
                self.rpos() == old(self).rpos(),
                self.spos() >= old(self).spos(),
            decreases self.data().len() - self.spos(),
        {
            proof {
                self.lemma_wf();
            }
            if self.buf.len() >= need {
                return Ok(());
            }
            match self.fill_once() {
                Ok(true) => {
                    proof {
                        self.lemma_wf();
                    }
                },
                Ok(false) => {
                    return Ok(());
                },
                Err(e) => {
                    return Err(e);
                },
            }
        }
    }

    /// How many bytes are currently buffered.
    pub closed spec fn buffered(&self) -> int {
        self.buf@.len() as int
    }

    /// Release the first `n` buffered bytes: the reader position advances
    /// over them.
    fn drop_front(&mut self, n: usize) -> (out: ())
        requires
            old(self).wf(),
            n <= old(self).buffered(),
        ensures
            final(self).wf(),
            final(self).data() == old(self).data(),
            final(self).bnd() == old(self).bnd(),
            final(self).spos() == old(self).spos(),
            final(self).rpos() == old(self).rpos() + n,
            final(self).buffered() == old(self).buffered() - n,
            final(self).buf_bytes() == old(self).buf_bytes().skip(n as int),
    {
        proof {
            self.lemma_wf();
        }
        let tail = self.buf.split_off(n);
        self.buf = tail;
        proof {
            assert(self.buf@ =~= self.source.data().subrange(
                self.source.pos() - self.buf@.len(),
                self.source.pos(),
            ));
        }
    }

    /// The buffered bytes themselves: the stream between `rpos` and `spos`.
    pub closed spec fn buf_bytes(&self) -> Seq<u8> {
        self.buf@
    }

    /// The buffer holds exactly the stream between the two positions.
    pub proof fn lemma_buf_bytes(&self)
        requires
            self.wf(),
        ensures
            self.buf_bytes() == self.data().subrange(self.rpos(), self.spos()),
            self.buf_bytes().len() == self.buffered(),
    {
    }

    /// Pre-allocate lookahead capacity; the buffer's contents and the
    /// reader's position do not change.
    pub fn reserve_lookahead(&mut self, n: usize)
        requires
            old(self).wf(),
        ensures
            final(self).wf(),
            final(self).data() == old(self).data(),
            final(self).bnd() == old(self).bnd(),
            final(self).rpos() == old(self).rpos(),
            final(self).spos() == old(self).spos(),
            final(self).buffered() == old(self).buffered(),
    {
        self.buf.reserve(n);
    }

    /// One search step for `pat` from the reader position: either the first
    /// occurrence is now buffered, or a prefix is known to be free of
    /// occurrences and the buffer grew, or the source is exhausted and no
    /// occurrence exists at all.
    fn scan_step(&mut self, pat: &Vec<u8>) -> (r: Result<ScanStep, TransportError>)
        requires
            old(self).wf(),
            pat@.len() >= 1,
        ensures
            final(self).wf(),
            final(self).data() == old(self).data(),
            final(self).bnd() == old(self).bnd(),
            final(self).rpos() == old(self).rpos(),
            final(self).spos() >= old(self).spos(),
            match r {
                Ok(ScanStep::Found(i)) => {
                    &&& is_match(final(self).data(), pat@, final(self).rpos() + i)
                    &&& no_match_in(
                        final(self).data(),
                        pat@,
                        final(self).rpos(),
                        final(self).rpos() + i,
                    )
                    &&& i + pat@.len() <= final(self).buffered()
                },
                Ok(ScanStep::Partial(s)) => {
                    &&& no_match_in(
                        final(self).data(),
                        pat@,
                        final(self).rpos(),
                        final(self).rpos() + s,
                    )
                    &&& s <= final(self).buffered()
                    &&& final(self).spos() > old(self).spos()
                },
                Ok(ScanStep::End) => {
                    &&& no_match_in(
                        final(self).data(),
                        pat@,
                        final(self).rpos(),
                        final(self).data().len() as int,
                    )
                    &&& final(self).spos() == final(self).data().len()
                },
                Err(_) => true,
            },
    {
        proof {
            self.lemma_wf();
            self.lemma_buf_bytes();
        }
        let ghost d = self.data();
        let ghost rp = self.rpos();
        let ghost sp = self.spos();
        let r = find_sub(&self.buf, pat);
        match r {
            Some(i) => {
                proof {
                    lemma_match_in_window(d, pat@, rp, sp, i as int);
                    assert forall|j: int| rp <= j < rp + i implies !is_match(d, pat@, j) by {
                        lemma_match_in_window(d, pat@, rp, sp, j - rp);
                    }
                }
                Ok(ScanStep::Found(i))
            },
            None => {
                let safe: usize = if self.buf.len() >= pat.len() {
                    self.buf.len() - pat.len() + 1
                } else {
                    0
                };
                proof {
                    assert forall|j: int| rp <= j < rp + safe implies !is_match(d, pat@, j) by {
                        lemma_match_in_window(d, pat@, rp, sp, j - rp);
                    }
                }
                match self.fill_once() {
                    Ok(true) => Ok(ScanStep::Partial(safe)),
                    Ok(false) => {
                        proof {
                            assert forall|j: int| rp <= j < d.len() implies !is_match(
                                d,
                                pat@,
                                j,
                            ) by {
                                if j + pat@.len() <= d.len() {
                                    lemma_match_in_window(d, pat@, rp, sp, j - rp);
                                }
                            }
                        }
                        Ok(ScanStep::End)
                    },
                    Err(e) => Err(e),
                }
            },
        }
    }

    /// Append the first `n` buffered bytes to `out` without consuming
    /// them.
    fn emit_front(&self, n: usize, out: &mut Vec<u8>)
        requires
            self.wf(),
            n <= self.buffered(),
        ensures
            final(out)@ == old(out)@ + self.data().subrange(self.rpos(), self.rpos() + n),
    {
        proof {
            self.lemma_wf();
            self.lemma_buf_bytes();
        }
        let mut k: usize = 0;
        while k < n
            invariant
                self.wf(),
                n <= self.buffered(),
                0 <= k <= n,
                out@ == old(out)@ + self.buf@.subrange(0, k as int),
            decreases n - k,
        {
            let b = self.buf[k];
            out.push(b);
            proof {
                assert(self.buf@.subrange(0, k + 1) =~= self.buf@.subrange(0, k as int).push(
                    b,
                ));
            }
            k = k + 1;
        }
        proof {
            assert(self.buf@.subrange(0, n as int) =~= self.data().subrange(
                self.rpos(),
                self.rpos() + n,
            ));
        }
    }

    /// Find the next boundary occurrence, consume it together with what
    /// terminates it, and report whether a part follows (`Ok(true)`) or the
    /// stream of parts is over (`Ok(false)`). Bytes before the boundary are
    /// discarded, which is what skipping a preamble or an abandoned payload
    /// needs.
    pub fn consume_boundary(&mut self) -> (r: Result<bool, MpError>)
        requires
            old(self).wf(),
        ensures
            final(self).wf(),
            final(self).data() == old(self).data(),
            final(self).bnd() == old(self).bnd(),
            final(self).spos() >= old(self).spos(),
            r is Ok ==> final(self).rpos() > old(self).rpos(),
            match r {
                Ok(true) => consume_spec(old(self).data(), old(self).bnd(), old(self).rpos())
                    == BoundaryOutcome::Part(final(self).rpos()),
                Ok(false) => consume_spec(old(self).data(), old(self).bnd(), old(self).rpos())
                    == BoundaryOutcome::Finish(final(self).rpos()),
                Err(MpError::Truncated) => consume_spec(
                    old(self).data(),
                    old(self).bnd(),
                    old(self).rpos(),
                ) == BoundaryOutcome::Missing,
                Err(MpError::MalformedBoundary) => consume_spec(
                    old(self).data(),
                    old(self).bnd(),
                    old(self).rpos(),
                ) == BoundaryOutcome::Malformed,
                Err(MpError::Transport(_)) => true,
                Err(_) => false,
            },
    {
        proof {
            self.lemma_wf();
        }
        let ghost d = self.data();
        let ghost bv = self.bnd();
        let ghost start = self.rpos();
        let pat = clone_bytes(&self.boundary);
        loop
            invariant
                self.wf(),
                self.data() == d,
                self.bnd() == bv,
                d == old(self).data(),
                bv == old(self).bnd(),
                start == old(self).rpos(),
                pat@ == bv,
                bv.len() >= 2,
                0 <= start <= self.rpos(),
                self.spos() >= old(self).spos(),
                no_match_in(d, bv, start, self.rpos()),
            decreases d.len() - self.spos(),
        {
            proof {
                self.lemma_wf();
            }
            let ghost rp = self.rpos();
            match self.scan_step(&pat) {
                Ok(ScanStep::Found(i)) => {
                    let ghost b = rp + i;
                    proof {
                        assert forall|j: int| start <= j < b implies !is_match(d, bv, j) by {}
                        lemma_find_from_is(d, bv, start, b);
                    }
                    self.drop_front(i);
                    self.drop_front(pat.len());
                    let ghost a = b + bv.len();
                    match self.ensure_lookahead(2) {
                        Ok(()) => (),
                        Err(e) => {
                            return Err(MpError::Transport(e.message));
                        },
                    }
                    proof {
                        self.lemma_wf();
                        self.lemma_buf_bytes();
                    }
                    if self.buf.len() < 2 {
                        return Err(MpError::Truncated);
                    }
                    let b0 = self.buf[0];
                    let b1 = self.buf[1];
                    proof {
                        assert(d[a] == b0 && d[a + 1] == b1);
                    }
                    if b0 == 45 && b1 == 45 {
                        self.drop_front(2);
                        return Ok(false);
                    } else if b0 == 13 && b1 == 10 {
                        self.drop_front(2);
                        return Ok(true);
                    } else {
                        return Err(MpError::MalformedBoundary);
                    }
                },
                Ok(ScanStep::Partial(sfe)) => {
                    self.drop_front(sfe);
                    proof {
                        self.lemma_wf();
                        assert forall|j: int| start <= j < self.rpos() implies !is_match(
                            d,
                            bv,
                            j,
                        ) by {}
                    }
                },
                Ok(ScanStep::End) => {
                    proof {
                        assert forall|j: int| start <= j < d.len() implies !is_match(
                            d,
                            bv,
                            j,
                        ) by {}
                        lemma_find_from_none(d, bv, start);
                    }
                    return Err(MpError::Truncated);
                },
                Err(e) => {
                    return Err(MpError::Transport(e.message));
                },
            }
        }
    }

    /// Release the next stretch of the current part's payload into `out`.
    /// `Ok(true)` means the payload is complete and the reader stands
    /// exactly at the next boundary; `Ok(false)` means some bytes may have
    /// been released and more remain. A CRLF that belongs to the delimiter
    /// is never released.
    pub fn read_payload_chunk(&mut self, Ghost(pstart): Ghost<int>, out: &mut Vec<u8>) -> (r:
        Result<bool, MpError>)
        requires
            old(self).wf(),
            chunk_pos_ok(old(self).data(), old(self).bnd(), pstart, old(self).rpos()),
        ensures
            final(self).wf(),
            final(self).data() == old(self).data(),
            final(self).bnd() == old(self).bnd(),
            final(self).spos() >= old(self).spos(),
            match r {
                Ok(true) => {
                    &&& find_from(old(self).data(), old(self).bnd(), pstart) == Some(
                        final(self).rpos(),
                    )
                    &&& old(self).rpos() <= strip_end(old(self).data(), old(self).bnd(), pstart)
                    &&& final(out)@ == old(out)@ + old(self).data().subrange(
                        old(self).rpos(),
                        strip_end(old(self).data(), old(self).bnd(), pstart),
                    )
                },
                Ok(false) => {
                    &&& chunk_pos_ok(
                        old(self).data(),
                        old(self).bnd(),
                        pstart,
                        final(self).rpos(),
                    )
                    &&& final(self).rpos() >= old(self).rpos()
                    &&& final(out)@ == old(out)@ + old(self).data().subrange(
                        old(self).rpos(),
                        final(self).rpos(),
                    )
                    &&& final(self).spos() > old(self).spos()
                },
                Err(MpError::Truncated) => find_from(old(self).data(), old(self).bnd(), pstart)
                    is None,
                Err(MpError::Transport(_)) => true,
                Err(_) => false,
            },
    {
        proof {
            self.lemma_wf();
        }
        let ghost d = self.data();
        let ghost bv = self.bnd();
        let ghost rp = self.rpos();
        let pat = clone_bytes(&self.boundary);
        match self.scan_step(&pat) {
            Ok(ScanStep::Found(i)) => {
                let ghost b = rp + i;
                proof {
                    self.lemma_buf_bytes();
                    assert forall|j: int| pstart <= j < b implies !is_match(d, bv, j) by {}
                    lemma_find_from_is(d, bv, pstart, b);
                }
                let cut: usize = if i >= 2 {
                    let c0 = self.buf[i - 2];
                    let c1 = self.buf[i - 1];
                    if c0 == 13 && c1 == 10 {
                        i - 2
                    } else {
                        i
                    }
                } else {
                    i
                };
                proof {
                    self.lemma_wf();
                    self.lemma_buf_bytes();
                    assert(self.rpos() == rp);
                    assert(self.buffered() == self.spos() - rp);
                    assert(self.buf_bytes() == d.subrange(rp, self.spos()));
                    if i < 2 {
                        assert(rp == pstart);
                    }
                    if i >= 2 {
                        assert(d.subrange(rp, self.spos())[i - 2] == d[rp + i - 2]);
                        assert(d.subrange(rp, self.spos())[i - 1] == d[rp + i - 1]);
                        assert(d[b - 2] == self.buf@[i - 2]);
                        assert(d[b - 1] == self.buf@[i - 1]);
                    }
                    assert(rp + cut == strip_end(d, bv, pstart));
                }
                self.emit_front(cut, out);
                self.drop_front(i);
                Ok(true)
            },
            Ok(ScanStep::Partial(sfe)) => {
                let e: usize = if sfe >= 2 {
                    sfe - 2
                } else {
                    0
                };
                self.emit_front(e, out);
                self.drop_front(e);
                proof {
                    self.lemma_wf();
                    assert forall|j: int| pstart <= j < rp + e implies !is_match(d, bv, j) by {}
                    if rp + e != pstart {
                        lemma_find_from_spec(d, bv, pstart);
                        if let Some(b2) = find_from(d, bv, pstart) {
                            if e > 0 && b2 < rp + sfe {
                                assert(!is_match(d, bv, b2));
                                assert(false);
                            }
                        }
                    }
                }
                Ok(false)
            },
            Ok(ScanStep::End) => {
                proof {
                    assert forall|j: int| pstart <= j < d.len() implies !is_match(d, bv, j) by {}
                    lemma_find_from_none(d, bv, pstart);
                }
                Err(MpError::Truncated)
            },
            Err(e) => Err(MpError::Transport(e.message)),
        }
    }

    /// Read the header block of the part that starts at the reader
    /// position: everything up to the blank line that ends it. The blank
    /// line itself is consumed but not returned; the reader is left at the
    /// first payload byte.
    pub fn read_header_block(&mut self) -> (r: Result<Vec<u8>, MpError>)
        requires
            old(self).wf(),
        ensures
            final(self).wf(),
            final(self).data() == old(self).data(),
            final(self).bnd() == old(self).bnd(),
            final(self).spos() >= old(self).spos(),
            match r {
                Ok(block) => header_split(old(self).data(), old(self).rpos()) == Some(
                    (block@, final(self).rpos()),
                ),
                Err(MpError::Truncated) => header_split(old(self).data(), old(self).rpos())
                    is None,
                Err(MpError::Transport(_)) => true,
                Err(_) => false,
            },
    {
        proof {
            self.lemma_wf();
        }
        let ghost d = self.data();
        let ghost p = self.rpos();
        match self.ensure_lookahead(2) {
            Ok(()) => (),
            Err(e) => {
                return Err(MpError::Transport(e.message));
            },
        }
        proof {
            self.lemma_wf();
            self.lemma_buf_bytes();
        }
        if self.buf.len() >= 2 {
            let b0 = self.buf[0];
            let b1 = self.buf[1];
            if b0 == 13 && b1 == 10 {
                self.drop_front(2);
                let blank: Vec<u8> = Vec::new();
                proof {
                    assert(blank@ =~= Seq::<u8>::empty());
                }
                return Ok(blank);
            }
        }
        let ghost not_blank = !(p + 2 <= d.len() && d[p] == 13 && d[p + 1] == 10);
        proof {
            assert(not_blank);
        }
        let mut pat4: Vec<u8> = Vec::new();
        pat4.push(13u8);
        pat4.push(10u8);
        pat4.push(13u8);
        pat4.push(10u8);
        proof {
            assert(pat4@ =~= crlf_crlf());
        }
        let mut acc: Vec<u8> = Vec::new();
        loop
            invariant
                self.wf(),
                self.data() == d,
                d == old(self).data(),
                self.bnd() == old(self).bnd(),
                p == old(self).rpos(),
                0 <= p <= self.rpos(),
                self.spos() >= old(self).spos(),
                pat4@ == crlf_crlf(),
                acc@ == d.subrange(p, self.rpos()),
                no_match_in(d, crlf_crlf(), p, self.rpos()),
                !(p + 2 <= d.len() && d[p] == 13 && d[p + 1] == 10),
            decreases d.len() - self.spos(),
        {
            proof {
                self.lemma_wf();
            }
            let ghost rp = self.rpos();
            match self.scan_step(&pat4) {
                Ok(ScanStep::Found(i)) => {
                    let ghost h = rp + i;
                    proof {
                        assert forall|j: int| p <= j < h implies !is_match(
                            d,
                            crlf_crlf(),
                            j,
                        ) by {}
                        lemma_find_from_is(d, crlf_crlf(), p, h);
                    }
                    self.emit_front(i, &mut acc);
                    self.drop_front(i);
                    self.emit_front(2, &mut acc);
                    self.drop_front(2);
                    self.drop_front(2);
                    proof {
                        assert(acc@ =~= d.subrange(p, h + 2));
                    }
                    return Ok(acc);
                },
                Ok(ScanStep::Partial(sfe)) => {
                    self.emit_front(sfe, &mut acc);
                    self.drop_front(sfe);
                    proof {
                        self.lemma_wf();
                        assert(acc@ =~= d.subrange(p, self.rpos()));
                        assert forall|j: int| p <= j < self.rpos() implies !is_match(
                            d,
                            crlf_crlf(),
                            j,
                        ) by {}
                    }
                },
                Ok(ScanStep::End) => {
                    proof {
                        assert forall|j: int| p <= j < d.len() implies !is_match(
                            d,
                            crlf_crlf(),
                            j,
                        ) by {}
                        lemma_find_from_none(d, crlf_crlf(), p);
                    }
                    return Err(MpError::Truncated);
                },
                Err(e) => {
                    return Err(MpError::Transport(e.message));
                },
            }
        }
    }
}

} // verus!
