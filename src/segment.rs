//! Splitting an encoded message into frames that fit a ceiling, and putting it back together.
use vstd::prelude::*;
use crate::wire::{WireError, WireFrame, FrameModel, frame_bytes, SEGMENT_START_HEADER};

verus! {

/// Largest message that a reassembly buffer accepts (1 MiB).
pub const MAX_REASSEMBLY_LEN: u32 = 1048576;

/// The concatenation of a sequence of chunks.
pub open spec fn concat(s: Seq<Seq<u8>>) -> Seq<u8>
    decreases s.len(),
{
    if s.len() == 0 {
        Seq::empty()
    } else {
        concat(s.drop_last()) + s.last()
    }
}

/// The chunks of `p`, each `n` long, the last one possibly shorter.
pub open spec fn chunks_of(p: Seq<u8>, n: nat) -> Seq<Seq<u8>>
    decreases p.len(),
{
    if n == 0 || p.len() == 0 {
        Seq::empty()
    } else if p.len() <= n {
        seq![p]
    } else {
        seq![p.take(n as int)] + chunks_of(p.skip(n as int), n)
    }
}

proof fn lemma_concat_push(s: Seq<Seq<u8>>, c: Seq<u8>)
    ensures
        concat(s.push(c)) == concat(s) + c,
{
    assert(s.push(c).drop_last() =~= s);
}

proof fn lemma_concat_prepend(c: Seq<u8>, s: Seq<Seq<u8>>)
    ensures
        concat(seq![c] + s) == c + concat(s),
    decreases s.len(),
{
    if s.len() == 0 {
        assert(seq![c] + s =~= seq![c]);
        assert(seq![c].drop_last() =~= Seq::<Seq<u8>>::empty());
        assert(c + Seq::<u8>::empty() =~= c);
        assert(Seq::<u8>::empty() + c =~= c);
        assert(concat(seq![c]) == concat(seq![c].drop_last()) + c);
    } else {
        lemma_concat_prepend(c, s.drop_last());
        assert((seq![c] + s).drop_last() =~= seq![c] + s.drop_last());
        assert((seq![c] + s).last() == s.last());
        assert(c + concat(s.drop_last()) + s.last() =~= c + (concat(s.drop_last()) + s.last()));
    }
}

/// The chunks of `p` put back together give `p`; none is empty or longer than `n`.
pub proof fn lemma_chunks_of(p: Seq<u8>, n: nat)
    requires
        n > 0,
    ensures
        concat(chunks_of(p, n)) == p,
        forall|i: int|
            0 <= i < chunks_of(p, n).len() ==> 0 < #[trigger] chunks_of(p, n)[i].len() <= n,
    decreases p.len(),
{
    if p.len() == 0 {
        assert(concat(Seq::<Seq<u8>>::empty()) =~= p);
    } else if p.len() <= n {
        lemma_concat_prepend(p, Seq::empty());
        assert(seq![p] + Seq::<Seq<u8>>::empty() =~= seq![p]);
        assert(p + Seq::<u8>::empty() =~= p);
    } else {
        let rest = p.skip(n as int);
        lemma_chunks_of(rest, n);
        lemma_concat_prepend(p.take(n as int), chunks_of(rest, n));
        assert(p.take(n as int) + rest =~= p);
        let c = chunks_of(p, n);
        assert forall|i: int| 0 <= i < c.len() implies 0 < #[trigger] c[i].len() <= n by {
            if i > 0 {
                assert(c[i] == chunks_of(rest, n)[i - 1]);
            }
        }
    }
}

/// Splits `p` into consecutive chunks of `n` bytes, the last one possibly shorter.
pub fn split_payload(p: &Vec<u8>, n: usize) -> (r: Vec<Vec<u8>>)
    requires
        n > 0,
    ensures
        r@.map_values(|c: Vec<u8>| c@) == chunks_of(p@, n as nat),
{
    let mut r: Vec<Vec<u8>> = Vec::new();
    let mut start: usize = 0;
    let len = p.len();
    assert(p@.skip(0) =~= p@);
    assert(r@.map_values(|c: Vec<u8>| c@) + chunks_of(p@, n as nat) =~= chunks_of(p@, n as nat));
    while start < len
        invariant
            n > 0,
            len == p@.len(),
            start <= len,
            r@.map_values(|c: Vec<u8>| c@) + chunks_of(p@.skip(start as int), n as nat)
                == chunks_of(p@, n as nat),
        decreases len - start,
    {
        let ghost rest = p@.skip(start as int);
        let end = if len - start <= n {
            len
        } else {
            start + n
        };
        let chunk = crate::wire::copy_range(p, start, end);
        let ghost old_r = r@.map_values(|c: Vec<u8>| c@);
        r.push(chunk);
        assert(r@.map_values(|c: Vec<u8>| c@) =~= old_r.push(chunk@));
        if len - start <= n {
            assert(chunk@ =~= rest);
            assert(p@.skip(end as int) =~= Seq::<u8>::empty());
            assert(chunks_of(rest, n as nat) == seq![rest]);
        } else {
            assert(chunk@ =~= rest.take(n as int));
            assert(p@.skip(end as int) =~= rest.skip(n as int));
        }
        assert(old_r.push(chunk@) + chunks_of(p@.skip(end as int), n as nat) =~= old_r + chunks_of(
            rest,
            n as nat,
        ));
        start = end;
    }
    assert(p@.skip(start as int) =~= Seq::<u8>::empty());
    assert(r@.map_values(|c: Vec<u8>| c@) + Seq::<Seq<u8>>::empty() =~= r@.map_values(
        |c: Vec<u8>| c@,
    ));
    r
}

/// The frames that carry an encoded message under a frame ceiling: the message itself
/// when it fits, else a `SegmentStart` with the first chunk and one `SegmentChunk` per
/// further chunk, numbered from 1.
pub open spec fn segment_frames(p: Seq<u8>, chunk_len: nat) -> Seq<FrameModel> {
    let cs = chunks_of(p, chunk_len);
    Seq::new(
        cs.len(),
        |i: int|
            if i == 0 {
                FrameModel::SegmentStart(p.len() as u32, cs[0])
            } else {
                FrameModel::SegmentChunk(i as u16, cs[i])
            },
    )
}

/// Splits an encoded message into a `SegmentStart` frame and `SegmentChunk` frames whose
/// bytes are each at most `ceiling` long.
pub fn segment_message(p: &Vec<u8>, ceiling: usize) -> (r: Vec<WireFrame>)
    requires
        ceiling > SEGMENT_START_HEADER,
        p@.len() <= u32::MAX,
        p@.len() <= (ceiling - SEGMENT_START_HEADER) * 65536,
    ensures
        r@.map_values(|f: WireFrame| f@) == segment_frames(
            p@,
            (ceiling - SEGMENT_START_HEADER) as nat,
        ),
        forall|i: int| 0 <= i < r@.len() ==> frame_bytes(#[trigger] r@[i]@).len() <= ceiling,
{
    let n = ceiling - SEGMENT_START_HEADER;
    let chunks = split_payload(p, n);
    proof {
        lemma_chunks_of(p@, n as nat);
        lemma_chunk_count(p@, n as nat);
    }
    let ghost cs = chunks_of(p@, n as nat);
    assert(cs.len() < 65537) by (nonlinear_arith)
        requires
            cs.len() * n < p@.len() + n,
            p@.len() <= n * 65536,
            n > 0,
    ;
    let mut r: Vec<WireFrame> = Vec::new();
    let mut i: usize = 0;
    while i < chunks.len()
        invariant
            i <= chunks@.len(),
            chunks@.map_values(|c: Vec<u8>| c@) == cs,
            cs == chunks_of(p@, n as nat),
            cs.len() <= 65536,
            p@.len() <= u32::MAX,
            n == ceiling - SEGMENT_START_HEADER,
            forall|j: int| 0 <= j < cs.len() ==> 0 < #[trigger] cs[j].len() <= n,
            r@.len() == i,
            forall|j: int|
                0 <= j < i ==> #[trigger] r@[j]@ == segment_frames(p@, n as nat)[j],
            forall|j: int| 0 <= j < i ==> frame_bytes(#[trigger] r@[j]@).len() <= ceiling,
        decreases chunks@.len() - i,
    {
        let c = chunks[i].clone();
        assert(c@ == cs[i as int]);
        if i == 0 {
            r.push(WireFrame::SegmentStart { total_len: p.len() as u32, first_chunk: c });
        } else {
            r.push(WireFrame::SegmentChunk { seq: i as u16, bytes: c });
        }
        let ghost fs = segment_frames(p@, n as nat);
        assert(fs.len() == cs.len());
        if i == 0 {
            assert(fs[0] == FrameModel::SegmentStart(p@.len() as u32, cs[0]));
            assert(r@[0]@ == FrameModel::SegmentStart(p@.len() as u32, c@));
        } else {
            assert(fs[i as int] == FrameModel::SegmentChunk(i as u16, cs[i as int]));
        }
        assert(r@[i as int]@ == fs[i as int]);
        assert(frame_bytes(r@[i as int]@).len() <= ceiling);
        i = i + 1;
    }
    assert(r@.map_values(|f: WireFrame| f@) =~= segment_frames(p@, n as nat));
    r
}

proof fn lemma_chunk_count(p: Seq<u8>, n: nat)
    requires
        n > 0,
    ensures
        chunks_of(p, n).len() * n < p.len() + n,
    decreases p.len(),
{
    if p.len() > n {
        lemma_chunk_count(p.skip(n as int), n);
        let k = chunks_of(p.skip(n as int), n).len();
        assert(chunks_of(p, n).len() == k + 1);
        assert((k + 1) * n == k * n + n) by (nonlinear_arith);
    } else if p.len() > 0 {
        assert(chunks_of(p, n).len() == 1);
    }
}

/// A buffer that collects the chunks of one segmented message.
pub struct Reassembly {
    pub total_len: u32,
    pub next_seq: u16,
    pub buf: Vec<u8>,
}

impl Reassembly {
    pub open spec fn wf(&self) -> bool {
        self.buf@.len() <= self.total_len && self.total_len <= MAX_REASSEMBLY_LEN
    }

    /// Opens a buffer on a `SegmentStart` frame.
    pub fn start(total_len: u32, first_chunk: Vec<u8>) -> (r: Result<Reassembly, WireError>)
        ensures
            total_len > MAX_REASSEMBLY_LEN ==> r == Err::<Reassembly, WireError>(
                WireError::SegmentTooLarge,
            ),
            total_len <= MAX_REASSEMBLY_LEN && first_chunk@.len() > total_len ==> r == Err::<
                Reassembly,
                WireError,
            >(WireError::SegmentOverflow),
            total_len <= MAX_REASSEMBLY_LEN && first_chunk@.len() <= total_len ==> (r matches Ok(
                b,
            ) && b.wf() && b.total_len == total_len && b.next_seq == 1 && b.buf@
                == first_chunk@),
    {
        if total_len > MAX_REASSEMBLY_LEN {
            Err(WireError::SegmentTooLarge)
        } else if first_chunk.len() > total_len as usize {
            Err(WireError::SegmentOverflow)
        } else {
            Ok(Reassembly { total_len, next_seq: 1, buf: first_chunk })
        }
    }

    pub open spec fn is_complete(&self) -> bool {
        self.buf@.len() == self.total_len
    }

    /// Whether every byte of the message has arrived.
    pub fn complete(&self) -> (r: bool)
        ensures
            r == self.is_complete(),
    {
        self.buf.len() == self.total_len as usize
    }

    /// Adds the chunk numbered `seq`. Chunks must come in order, from 1 on, and must not
    /// carry more bytes than the total announced. On an error the buffer is left as it was;
    /// the caller purges it.
    pub fn push_chunk(&mut self, seq: u16, bytes: &Vec<u8>) -> (r: Result<(), WireError>)
        requires
            old(self).wf(),
        ensures
            final(self).wf(),
            seq != old(self).next_seq ==> r == Err::<(), WireError>(WireError::SegmentOutOfOrder)
                && *final(self) == *old(self),
            seq == old(self).next_seq && old(self).buf@.len() + bytes@.len() > old(self).total_len
                ==> r == Err::<(), WireError>(WireError::SegmentOverflow) && *final(self) == *old(
                self,
            ),
            seq == old(self).next_seq && old(self).buf@.len() + bytes@.len() <= old(self).total_len
                && old(self).next_seq < u16::MAX ==> r == Ok::<(), WireError>(())
                && final(self).buf@ == old(self).buf@ + bytes@ && final(self).next_seq == old(
                self,
            ).next_seq + 1 && final(self).total_len == old(self).total_len,
            seq == old(self).next_seq && old(self).next_seq == u16::MAX ==> r == Err::<
                (),
                WireError,
            >(WireError::SegmentOverflow) && *final(self) == *old(self),
    {
        if seq != self.next_seq {
            return Err(WireError::SegmentOutOfOrder);
        }
        if bytes.len() > (self.total_len as usize) - self.buf.len() || self.next_seq == u16::MAX {
            return Err(WireError::SegmentOverflow);
        }
        crate::wire::append_bytes(&mut self.buf, bytes);
        self.next_seq = self.next_seq + 1;
        Ok(())
    }

    /// The reassembled message, once complete.
    pub fn finish(self) -> (r: Result<Vec<u8>, WireError>)
        ensures
            self.is_complete() ==> (r matches Ok(b) && b@ == self.buf@),
            !self.is_complete() ==> r == Err::<Vec<u8>, WireError>(WireError::SegmentIncomplete),
    {
        if self.buf.len() == self.total_len as usize {
            Ok(self.buf)
        } else {
            Err(WireError::SegmentIncomplete)
        }
    }
}

/// What feeding `frames`, from a `SegmentStart` on, into a reassembly buffer leaves in it:
/// `None` if some frame is refused.
pub open spec fn reassemble(frames: Seq<FrameModel>) -> Option<(Seq<u8>, nat, nat)>
    decreases frames.len(),
{
    if frames.len() == 0 {
        None
    } else if frames.len() == 1 {
        match frames[0] {
            FrameModel::SegmentStart(total, chunk) => if total <= MAX_REASSEMBLY_LEN
                && chunk.len() <= total {
                Some((chunk, total as nat, 1nat))
            } else {
                None
            },
            _ => None,
        }
    } else {
        match reassemble(frames.drop_last()) {
            Some((buf, total, next)) => match frames.last() {
                FrameModel::SegmentChunk(seq, chunk) => if seq == next && buf.len() + chunk.len()
                    <= total && next < u16::MAX {
                    Some((buf + chunk, total, next + 1))
                } else {
                    None
                },
                _ => None,
            },
            None => None,
        }
    }
}

/// Segmentation law: the frames that split an encoded message, fed in order to a
/// reassembly buffer, are all accepted and leave the message in it byte for byte.
pub proof fn lemma_segmentation_round_trip(p: Seq<u8>, chunk_len: nat)
    requires
        chunk_len > 0,
        0 < p.len() <= MAX_REASSEMBLY_LEN,
        p.len() <= chunk_len * 65535,
    ensures
        reassemble(segment_frames(p, chunk_len)) == Some((p, p.len(), chunks_of(p, chunk_len).len())),
{
    let cs = chunks_of(p, chunk_len);
    lemma_chunks_of(p, chunk_len);
    lemma_chunk_count(p, chunk_len);
    lemma_chunks_nonempty(p, chunk_len);
    assert(cs.len() * chunk_len < 65536 * chunk_len) by (nonlinear_arith)
        requires
            cs.len() * chunk_len < p.len() + chunk_len,
            p.len() <= chunk_len * 65535,
    ;
    assert(cs.len() < 65536) by (nonlinear_arith)
        requires
            cs.len() * chunk_len < 65536 * chunk_len,
            chunk_len > 0,
    ;
    lemma_reassemble_prefix(p, chunk_len, cs.len());
    assert(segment_frames(p, chunk_len).take(cs.len() as int) =~= segment_frames(p, chunk_len));
    assert(cs.take(cs.len() as int) =~= cs);
}

proof fn lemma_reassemble_prefix(p: Seq<u8>, chunk_len: nat, k: nat)
    requires
        chunk_len > 0,
        0 < p.len() <= MAX_REASSEMBLY_LEN,
        chunks_of(p, chunk_len).len() < 65536,
        concat(chunks_of(p, chunk_len)) == p,
        1 <= k <= chunks_of(p, chunk_len).len(),
    ensures
        reassemble(segment_frames(p, chunk_len).take(k as int)) == Some(
            (concat(chunks_of(p, chunk_len).take(k as int)), p.len(), k),
        ),
    decreases k,
{
    let cs = chunks_of(p, chunk_len);
    let fs = segment_frames(p, chunk_len);
    lemma_chunks_nonempty(p, chunk_len);
    if k == 1 {
        assert(cs.take(1) =~= seq![cs[0]]);
        lemma_concat_push(Seq::empty(), cs[0]);
        assert(Seq::<Seq<u8>>::empty().push(cs[0]) =~= seq![cs[0]]);
        assert(Seq::<u8>::empty() + cs[0] =~= cs[0]);
        lemma_concat_prefix_len(cs, 1);
    } else {
        lemma_reassemble_prefix(p, chunk_len, (k - 1) as nat);
        assert(fs.take(k as int).drop_last() =~= fs.take(k - 1));
        assert(cs.take(k as int) =~= cs.take(k - 1).push(cs[k - 1]));
        lemma_concat_push(cs.take(k - 1), cs[k - 1]);
        lemma_concat_prefix_len(cs, k);
    }
}

proof fn lemma_chunks_nonempty(p: Seq<u8>, n: nat)
    requires
        n > 0,
        p.len() > 0,
    ensures
        chunks_of(p, n).len() > 0,
        chunks_of(p, n)[0].len() <= p.len(),
{
}

proof fn lemma_concat_prefix_len(cs: Seq<Seq<u8>>, k: nat)
    requires
        k <= cs.len(),
    ensures
        concat(cs.take(k as int)).len() <= concat(cs).len(),
    decreases cs.len(),
{
    if k < cs.len() {
        assert(cs.drop_last().take(k as int) =~= cs.take(k as int));
        lemma_concat_prefix_len(cs.drop_last(), k);
    } else {
        assert(cs.take(k as int) =~= cs);
    }
}

} // verus!
