//! Frame reassembly: raw byte chunks from the upstream transport are
//! accumulated in a buffer and split into complete Server-Sent-Event frames
//! at each two-byte blank-line delimiter (LF LF). Bytes after the last
//! delimiter stay buffered for the next chunk; an unterminated trailing
//! remainder is never yielded as a frame.

use vstd::prelude::*;

verus! {

/// The line-feed byte; two in a row delimit SSE event frames.
pub const LF: u8 = 10;

/// A frame delimiter (LF LF) starts at position `i` of `s`.
pub open spec fn is_delim_at(s: Seq<u8>, i: int) -> bool {
    &&& 0 <= i
    &&& i + 2 <= s.len()
    &&& s[i] == LF
    &&& s[i + 1] == LF
}

/// The position of the first frame delimiter at or after `i`, if any.
pub open spec fn find_delim_from(s: Seq<u8>, i: int) -> Option<int>
    decreases s.len() - i,
{
    if i + 2 <= s.len() {
        if s[i] == LF && s[i + 1] == LF {
            Some(i)
        } else {
            find_delim_from(s, i + 1)
        }
    } else {
        None
    }
}

/// The position of the first frame delimiter of `s`, if any.
pub open spec fn find_delim(s: Seq<u8>) -> Option<int> {
    find_delim_from(s, 0)
}

/// The complete (delimiter-terminated) frames of `s`, in order, without
/// their delimiters and untrimmed.
pub open spec fn raw_frames(s: Seq<u8>) -> Seq<Seq<u8>>
    decreases s.len(),
    via raw_frames_decreases
{
    match find_delim(s) {
        Some(i) => seq![s.take(i)] + raw_frames(s.skip(i + 2)),
        None => Seq::empty(),
    }
}

#[via_fn]
proof fn raw_frames_decreases(s: Seq<u8>) {
    lemma_find_delim_from_spec(s, 0);
}

/// The bytes of `s` after its last frame delimiter: the unterminated
/// remainder that a reassembler must keep buffered.
pub open spec fn tail_bytes(s: Seq<u8>) -> Seq<u8>
    decreases s.len(),
    via tail_bytes_decreases
{
    match find_delim(s) {
        Some(i) => tail_bytes(s.skip(i + 2)),
        None => s,
    }
}

#[via_fn]
proof fn tail_bytes_decreases(s: Seq<u8>) {
    lemma_find_delim_from_spec(s, 0);
}

/// `find_delim_from` returns the first delimiter position at or after `i`,
/// and `None` exactly when there is none.
pub proof fn lemma_find_delim_from_spec(s: Seq<u8>, i: int)
    requires
        0 <= i,
    ensures
        match find_delim_from(s, i) {
            Some(j) => i <= j && is_delim_at(s, j) && (forall|k: int|
                i <= k < j ==> !is_delim_at(s, k)),
            None => forall|k: int| i <= k ==> !is_delim_at(s, k),
        },
    decreases s.len() - i,
{
    if i + 2 <= s.len() {
        if s[i] == LF && s[i + 1] == LF {
        } else {
            lemma_find_delim_from_spec(s, i + 1);
        }
    }
}

/// Extending `s` on the right does not change the first delimiter position,
/// as long as `s` has one.
proof fn lemma_find_delim_from_extend(a: Seq<u8>, b: Seq<u8>, i: int)
    requires
        0 <= i,
        find_delim_from(a, i) is Some,
    ensures
        find_delim_from(a + b, i) == find_delim_from(a, i),
    decreases a.len() - i,
{
    if i + 2 <= a.len() {
        assert((a + b)[i] == a[i]);
        assert((a + b)[i + 1] == a[i + 1]);
        if a[i] == LF && a[i + 1] == LF {
        } else {
            lemma_find_delim_from_extend(a, b, i + 1);
        }
    }
}

/// Frame reassembly is compositional: the frames of `a + b` are the frames
/// of `a` followed by the frames of `a`'s buffered remainder prepended to
/// `b`, and the remainders agree likewise. Chunk-boundary invariance of the
/// reassembler follows from this by induction over the chunk sequence.
pub proof fn lemma_frames_compose(a: Seq<u8>, b: Seq<u8>)
    ensures
        raw_frames(a + b) == raw_frames(a) + raw_frames(tail_bytes(a) + b),
        tail_bytes(a + b) == tail_bytes(tail_bytes(a) + b),
    decreases a.len(),
{
    match find_delim(a) {
        Some(i) => {
            lemma_find_delim_from_spec(a, 0);
            lemma_find_delim_from_extend(a, b, 0);
            assert((a + b).take(i) =~= a.take(i));
            assert((a + b).skip(i + 2) =~= a.skip(i + 2) + b);
            lemma_frames_compose(a.skip(i + 2), b);
            assert(seq![a.take(i)] + (raw_frames(a.skip(i + 2)) + raw_frames(
                tail_bytes(a.skip(i + 2)) + b,
            )) =~= (seq![a.take(i)] + raw_frames(a.skip(i + 2))) + raw_frames(
                tail_bytes(a.skip(i + 2)) + b,
            ));
        },
        None => {
            assert(tail_bytes(a) + b =~= a + b);
            assert(raw_frames(a) + raw_frames(a + b) =~= raw_frames(a + b));
        },
    }
}

/// The buffered remainder never contains a delimiter.
pub proof fn lemma_tail_bytes_no_delim(s: Seq<u8>)
    ensures
        find_delim(tail_bytes(s)) is None,
    decreases s.len(),
{
    match find_delim(s) {
        Some(i) => {
            lemma_find_delim_from_spec(s, 0);
            lemma_tail_bytes_no_delim(s.skip(i + 2));
        },
        None => {},
    }
}

/// The frames produced when a sequence of chunks is pushed one at a time
/// into a reassembler whose buffer starts as `rest`.
pub open spec fn reassembled_frames(rest: Seq<u8>, chunks: Seq<Seq<u8>>) -> Seq<Seq<u8>>
    decreases chunks.len(),
{
    if chunks.len() == 0 {
        Seq::empty()
    } else {
        raw_frames(rest + chunks[0]) + reassembled_frames(
            tail_bytes(rest + chunks[0]),
            chunks.skip(1),
        )
    }
}

/// The buffer contents after a sequence of chunks has been pushed one at a
/// time into a reassembler whose buffer starts as `rest`.
pub open spec fn reassembled_rest(rest: Seq<u8>, chunks: Seq<Seq<u8>>) -> Seq<u8>
    decreases chunks.len(),
{
    if chunks.len() == 0 {
        rest
    } else {
        reassembled_rest(tail_bytes(rest + chunks[0]), chunks.skip(1))
    }
}

/// Chunk-boundary invariance: pushing any sequence of chunks one at a time
/// yields exactly the frames of their concatenation, no matter where the
/// byte stream was split. In particular a delimiter falling across a chunk
/// boundary is still recognized intact.
pub proof fn lemma_chunk_boundary_invariance(rest: Seq<u8>, chunks: Seq<Seq<u8>>)
    requires
        find_delim(rest) is None,
    ensures
        reassembled_frames(rest, chunks) == raw_frames(rest + chunks.flatten()),
        reassembled_rest(rest, chunks) == tail_bytes(rest + chunks.flatten()),
    decreases chunks.len(),
{
    if chunks.len() == 0 {
        assert(chunks.flatten() =~= Seq::<u8>::empty());
        assert(rest + chunks.flatten() =~= rest);
        assert(reassembled_frames(rest, chunks) =~= raw_frames(rest));
    } else {
        assert(chunks.flatten() =~= chunks[0] + chunks.skip(1).flatten()) by {
            assert(chunks =~= seq![chunks[0]] + chunks.skip(1));
            vstd::seq_lib::lemma_flatten_concat(seq![chunks[0]], chunks.skip(1));
            assert(seq![chunks[0]].flatten() =~= chunks[0] + Seq::<u8>::empty());
        }
        assert(rest + chunks.flatten() =~= (rest + chunks[0]) + chunks.skip(1).flatten());
        lemma_frames_compose(rest + chunks[0], chunks.skip(1).flatten());
        lemma_tail_bytes_no_delim(rest + chunks[0]);
        lemma_chunk_boundary_invariance(tail_bytes(rest + chunks[0]), chunks.skip(1));
    }
}

/// Accumulates raw byte chunks and yields each complete frame exactly once.
pub struct FrameBuffer {
    buf: Vec<u8>,
}

impl View for FrameBuffer {
    type V = Seq<u8>;

    closed spec fn view(&self) -> Seq<u8> {
        self.buf@
    }
}

/// The position of the first delimiter of `buf`, as executable code.
fn find_delim_in(buf: &Vec<u8>) -> (r: Option<usize>)
    ensures
        match r {
            Some(i) => find_delim(buf@) == Some(i as int),
            None => find_delim(buf@) is None,
        },
{
    let n = buf.len();
    if n < 2 {
        return None;
    }
    let mut i: usize = 0;
    while i < n - 1
        invariant
            n == buf.len(),
            2 <= n,
            i <= n,
            find_delim(buf@) == find_delim_from(buf@, i as int),
        decreases n - i,
    {
        if buf[i] == LF && buf[i + 1] == LF {
            return Some(i);
        }
        i = i + 1;
    }
    None
}

impl FrameBuffer {
    /// A reassembler with nothing buffered.
    pub fn new() -> (b: FrameBuffer)
        ensures
            b@ == Seq::<u8>::empty(),
    {
        FrameBuffer { buf: Vec::new() }
    }

    /// Appends one transport chunk and returns every frame completed by it,
    /// in order; the unterminated remainder stays buffered.
    pub fn push_chunk(&mut self, chunk: &[u8]) -> (frames: Vec<Vec<u8>>)
        ensures
            frames@.map_values(|f: Vec<u8>| f@) == raw_frames(old(self)@ + chunk@),
            final(self)@ == tail_bytes(old(self)@ + chunk@),
    {
        let ghost total: Seq<u8> = self.buf@ + chunk@;
        let ghost base: int = self.buf@.len() as int;
        let mut k: usize = 0;
        assert(self.buf@ =~= total.take(base + 0));
        while k < chunk.len()
            invariant
                k <= chunk.len(),
                total == old(self)@ + chunk@,
                base == old(self)@.len(),
                self.buf@ == total.take(base + k),
            decreases chunk.len() - k,
        {
            self.buf.push(chunk[k]);
            k = k + 1;
            assert(self.buf@ =~= total.take(base + k));
        }
        assert(self.buf@ =~= total);

        let mut frames: Vec<Vec<u8>> = Vec::new();
        assert(frames@.map_values(|f: Vec<u8>| f@) + raw_frames(self.buf@) =~= raw_frames(total));
        loop
            invariant
                frames@.map_values(|f: Vec<u8>| f@) + raw_frames(self.buf@) == raw_frames(total),
                tail_bytes(self.buf@) == tail_bytes(total),
            ensures
                frames@.map_values(|f: Vec<u8>| f@) == raw_frames(total),
                self.buf@ == tail_bytes(total),
            decreases self.buf@.len(),
        {
            match find_delim_in(&self.buf) {
                Some(i) => {
                    proof {
                        lemma_find_delim_from_spec(self.buf@, 0);
                    }
                    let len = self.buf.len();
                    assert(i + 2 <= len);
                    let frame: Vec<u8> = vstd::slice::slice_to_vec(
                        vstd::slice::slice_subrange(self.buf.as_slice(), 0, i),
                    );
                    let rest: Vec<u8> = vstd::slice::slice_to_vec(
                        vstd::slice::slice_subrange(self.buf.as_slice(), i + 2, len),
                    );
                    let ghost prev: Seq<u8> = self.buf@;
                    self.buf = rest;
                    proof {
                        assert(frame@ =~= prev.take(i as int));
                        assert(self.buf@ =~= prev.skip(i + 2));
                        let f = |f: Vec<u8>| f@;
                        assert(frames@.push(frame).map_values(f) =~= frames@.map_values(f).push(
                            frame@,
                        ));
                        assert(frames@.map_values(f).push(frame@) + raw_frames(prev.skip(i + 2))
                            =~= frames@.map_values(f) + (seq![prev.take(i as int)] + raw_frames(
                            prev.skip(i + 2),
                        )));
                    }
                    frames.push(frame);
                },
                None => {
                    proof {
                        assert(frames@.map_values(|f: Vec<u8>| f@) + raw_frames(self.buf@)
                            =~= frames@.map_values(|f: Vec<u8>| f@));
                    }
                    break ;
                },
            }
        }
        frames
    }
}

} // verus!
