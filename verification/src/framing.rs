//! Per-connection byte buffers. The inbound `FrameBuffer` accumulates reads
//! and yields the newline-delimited frames that are complete, keeping the
//! bytes after the last delimiter for the next read. The `OutBuffer` queues
//! outbound bytes: writes append, acknowledged partial writes pop a prefix,
//! so bytes are never reordered or dropped while a connection is open.

use vstd::prelude::*;

verus! {

use crate::codec::push_bytes;

pub const DELIM: u8 = 0x0a;

/// The position of the first delimiter in `s`.
pub open spec fn find_delim(s: Seq<u8>) -> Option<int>
    decreases s.len(),
{
    if s.len() == 0 {
        None
    } else if s[0] == DELIM {
        Some(0)
    } else {
        match find_delim(s.skip(1)) {
            Some(i) => Some(i + 1),
            None => None,
        }
    }
}

pub proof fn lemma_find_delim_range(s: Seq<u8>)
    ensures
        match find_delim(s) {
            Some(i) => 0 <= i < s.len() && s[i] == DELIM && (forall|k: int|
                0 <= k < i ==> s[k] != DELIM),
            None => forall|k: int| 0 <= k < s.len() ==> s[k] != DELIM,
        },
    decreases s.len(),
{
    if s.len() > 0 && s[0] != DELIM {
        lemma_find_delim_range(s.skip(1));
        match find_delim(s.skip(1)) {
            Some(i) => {
                assert(s.skip(1)[i] == s[i + 1]);
                assert forall|k: int| 0 <= k < i + 1 implies s[k] != DELIM by {
                    if k > 0 {
                        assert(s.skip(1)[k - 1] == s[k]);
                    }
                }
            },
            None => {
                assert forall|k: int| 0 <= k < s.len() implies s[k] != DELIM by {
                    if k > 0 {
                        assert(s.skip(1)[k - 1] == s[k]);
                    }
                }
            },
        }
    }
}

/// Splits `s` into its complete delimiter-terminated frames (delimiters
/// stripped) and the bytes after the last delimiter.
pub open spec fn split_frames(s: Seq<u8>) -> (Seq<Seq<u8>>, Seq<u8>)
    decreases s.len(),
{
    match find_delim(s) {
        None => (Seq::empty(), s),
        Some(i) => if 0 <= i < s.len() {
            let rec = split_frames(s.skip(i + 1));
            (seq![s.take(i)] + rec.0, rec.1)
        } else {
            (Seq::empty(), s)
        },
    }
}

/// Until a delimiter arrives, no frame is extracted and every byte is kept.
pub proof fn lemma_split_frames_no_delim(s: Seq<u8>)
    requires
        forall|k: int| 0 <= k < s.len() ==> s[k] != DELIM,
    ensures
        split_frames(s).0 == Seq::<Seq<u8>>::empty(),
        split_frames(s).1 == s,
    decreases s.len(),
{
    lemma_find_delim_range(s);
    if find_delim(s) is Some {
        assert(false);
    }
}

/// The retained remainder never holds a delimiter.
pub proof fn lemma_split_frames_rest_no_delim(s: Seq<u8>)
    ensures
        forall|k: int|
            0 <= k < split_frames(s).1.len() ==> #[trigger] split_frames(s).1[k] != DELIM,
    decreases s.len(),
{
    lemma_find_delim_range(s);
    match find_delim(s) {
        None => {},
        Some(i) => {
            lemma_split_frames_rest_no_delim(s.skip(i + 1));
            assert(split_frames(s).1 == split_frames(s.skip(i + 1)).1);
        },
    }
}

/// No frame holds a delimiter: frames are exactly the gaps between them.
pub proof fn lemma_split_frames_frames_no_delim(s: Seq<u8>)
    ensures
        forall|f: int, k: int|
            0 <= f < split_frames(s).0.len() && 0 <= k < split_frames(s).0[f].len()
                ==> #[trigger] split_frames(s).0[f][k] != DELIM,
    decreases s.len(),
{
    lemma_find_delim_range(s);
    match find_delim(s) {
        None => {},
        Some(i) => {
            lemma_split_frames_frames_no_delim(s.skip(i + 1));
            let first = s.take(i);
            let rec = split_frames(s.skip(i + 1));
            assert(forall|k: int| 0 <= k < first.len() ==> first[k] == s[k]);
            assert(forall|f: int|
                0 <= f < rec.0.len() ==> (seq![first] + rec.0)[f + 1] == rec.0[f]);
            assert(forall|f: int, k: int|
                0 <= f < split_frames(s).0.len() && 0 <= k < split_frames(s).0[f].len() ==> {
                    let fr = #[trigger] split_frames(s).0[f][k];
                    fr != DELIM
                });
        },
    }
}

/// Every byte fed in comes back out, in order: the frames, each with its
/// delimiter restored, followed by the remainder, are the input.
pub open spec fn join_frames(fs: Seq<Seq<u8>>) -> Seq<u8>
    decreases fs.len(),
{
    if fs.len() == 0 {
        Seq::empty()
    } else {
        fs[0] + seq![DELIM] + join_frames(fs.skip(1))
    }
}

pub proof fn lemma_split_frames_join(s: Seq<u8>)
    ensures
        join_frames(split_frames(s).0) + split_frames(s).1 == s,
    decreases s.len(),
{
    lemma_find_delim_range(s);
    match find_delim(s) {
        None => {
            assert(join_frames(split_frames(s).0) + s =~= s);
        },
        Some(i) => {
            lemma_split_frames_join(s.skip(i + 1));
            let rec = split_frames(s.skip(i + 1));
            assert((seq![s.take(i)] + rec.0).skip(1) =~= rec.0);
            assert(join_frames(split_frames(s).0) + split_frames(s).1 =~= (s.take(i) + seq![DELIM]
                + join_frames(rec.0)) + rec.1);
            assert((s.take(i) + seq![DELIM] + join_frames(rec.0)) + rec.1 =~= s.take(i)
                + seq![DELIM] + (join_frames(rec.0) + rec.1));
            assert(s.take(i) + seq![DELIM] + s.skip(i + 1) =~= s);
        },
    }
}

pub open spec fn frames_view(fs: Seq<Vec<u8>>) -> Seq<Seq<u8>> {
    fs.map(|i: int, f: Vec<u8>| f@)
}

/// The position of the first delimiter, exactly as `find_delim`.
fn find_delim_at(data: &[u8]) -> (r: Option<usize>)
    ensures
        match r {
            Some(i) => i < data@.len() && find_delim(data@) == Some(i as int),
            None => find_delim(data@) is None,
        },
{
    let len = data.len();
    let mut k: usize = 0;
    proof {
        assert(data@.skip(0) =~= data@);
    }
    loop
        invariant
            k <= len,
            len == data@.len(),
            find_delim(data@) == (match find_delim(data@.skip(k as int)) {
                Some(i) => Some(i + k),
                None => None::<int>,
            }),
        decreases len - k,
    {
        if k == len {
            proof {
                assert(data@.skip(k as int).len() == 0);
            }
            return None;
        }
        proof {
            assert(data@.skip(k as int)[0] == data@[k as int]);
            assert(data@.skip(k as int).skip(1) =~= data@.skip(k as int + 1));
        }
        if data[k] == DELIM {
            return Some(k);
        }
        k = k + 1;
    }
}

/// Copies `data[i..j]` out as a vector.
fn take_range(data: &[u8], i: usize, j: usize) -> (r: Vec<u8>)
    requires
        i <= j <= data@.len(),
    ensures
        r@ == data@.subrange(i as int, j as int),
{
    let mut out: Vec<u8> = Vec::new();
    let mut k: usize = i;
    while k < j
        invariant
            i <= k <= j <= data@.len(),
            out@ == data@.subrange(i as int, k as int),
        decreases j - k,
    {
        out.push(data[k]);
        proof {
            assert(data@.subrange(i as int, k as int).push(data@[k as int]) =~= data@.subrange(
                i as int,
                k as int + 1,
            ));
        }
        k = k + 1;
    }
    out
}

/// The inbound accumulation buffer of one connection.
pub struct FrameBuffer {
    data: Vec<u8>,
}

impl View for FrameBuffer {
    type V = Seq<u8>;

    closed spec fn view(&self) -> Seq<u8> {
        self.data@
    }
}

impl FrameBuffer {
    pub fn new() -> (r: FrameBuffer)
        ensures
            r@ == Seq::<u8>::empty(),
    {
        FrameBuffer { data: Vec::new() }
    }

    /// Appends one read's bytes and extracts every complete frame: the
    /// frames of the accumulated bytes, in arrival order, with the bytes
    /// after the last delimiter retained for the next read.
    pub fn feed(&mut self, chunk: &[u8]) -> (frames: Vec<Vec<u8>>)
        ensures
            frames_view(frames@) == split_frames(old(self)@ + chunk@).0,
            final(self)@ == split_frames(old(self)@ + chunk@).1,
    {
        let ghost all = self.data@ + chunk@;
        push_bytes(&mut self.data, chunk);
        let mut frames: Vec<Vec<u8>> = Vec::new();
        proof {
            assert(frames_view(frames@) =~= Seq::<Seq<u8>>::empty());
        }
        loop
            invariant
                all == old(self)@ + chunk@,
                split_frames(all).0 == frames_view(frames@) + split_frames(self.data@).0,
                split_frames(all).1 == split_frames(self.data@).1,
            decreases self.data@.len(),
        {
            let i = match find_delim_at(self.data.as_slice()) {
                Some(i) => i,
                None => {
                    proof {
                        assert(frames_view(frames@) + split_frames(self.data@).0 =~= frames_view(
                            frames@,
                        ));
                    }
                    return frames;
                },
            };
            let n = self.data.len();
            let frame = take_range(self.data.as_slice(), 0, i);
            let rest = take_range(self.data.as_slice(), i + 1, n);
            let ghost pre = self.data@;
            let ghost fv = frames_view(frames@);
            proof {
                assert(pre.take(i as int) =~= pre.subrange(0, i as int));
                assert(pre.skip(i as int + 1) =~= pre.subrange(i as int + 1, pre.len() as int));
            }
            self.data = rest;
            frames.push(frame);
            proof {
                assert(frames_view(frames@) =~= fv.push(pre.take(i as int)));
                assert(split_frames(pre).0 == seq![pre.take(i as int)] + split_frames(
                    pre.skip(i as int + 1),
                ).0);
                assert(fv + (seq![pre.take(i as int)] + split_frames(self.data@).0) =~= fv.push(
                    pre.take(i as int),
                ) + split_frames(self.data@).0);
            }
        }
    }

    /// How many bytes wait for the next delimiter.
    pub fn pending_len(&self) -> (r: usize)
        ensures
            r == self@.len(),
    {
        self.data.len()
    }
}

/// The outbound byte queue of one connection.
pub struct OutBuffer {
    data: Vec<u8>,
}

impl View for OutBuffer {
    type V = Seq<u8>;

    closed spec fn view(&self) -> Seq<u8> {
        self.data@
    }
}

impl OutBuffer {
    pub fn new() -> (r: OutBuffer)
        ensures
            r@ == Seq::<u8>::empty(),
    {
        OutBuffer { data: Vec::new() }
    }

    /// Queues bytes behind everything already waiting: appends, never
    /// reorders.
    pub fn queue(&mut self, bytes: &[u8])
        ensures
            final(self)@ == old(self)@ + bytes@,
    {
        push_bytes(&mut self.data, bytes);
    }

    /// Acknowledges that the first `n` queued bytes reached the socket: the
    /// unwritten suffix stays, in order.
    pub fn mark_written(&mut self, n: usize)
        requires
            n <= old(self)@.len(),
        ensures
            final(self)@ == old(self)@.skip(n as int),
    {
        let rest = take_range(self.data.as_slice(), n, self.data.len());
        proof {
            assert(self.data@.subrange(n as int, self.data@.len() as int) =~= self.data@.skip(
                n as int,
            ));
        }
        self.data = rest;
    }

    pub fn is_empty(&self) -> (r: bool)
        ensures
            r == (self@.len() == 0),
    {
        self.data.len() == 0
    }

    /// The waiting bytes, oldest first, for the next write attempt.
    pub fn pending(&self) -> (r: &[u8])
        ensures
            r@ == self@,
    {
        self.data.as_slice()
    }
}

} // verus!
