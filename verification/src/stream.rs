//! The stream of handshake bytes that CRYPTO frames carry.
//!
//! Each frame brings a run of bytes at an offset of the stream.  The stream
//! hands on its bytes in order: what continues the bytes handed on so far
//! goes out at once, runs that arrive ahead of their turn are held until
//! the gap before them is filled, and what was handed on already is dropped.

use crate::crypto::EncryptionLevel;
use vstd::prelude::*;
use vstd::slice::slice_subrange;

verus! {

/// How many runs a stream holds at most.  A run that arrives ahead of its
/// turn while that many are held is dropped.
pub const MAX_HELD_SEGMENTS: usize = 16;

/// A run of bytes of the stream.
#[derive(Debug, Clone)]
pub struct Segment {
    pub offset: u64,
    pub data: Vec<u8>,
}

/// A run of bytes of the stream, as a byte sequence.
pub struct SegmentView {
    pub offset: u64,
    pub data: Seq<u8>,
}

impl View for Segment {
    type V = SegmentView;

    open spec fn view(&self) -> SegmentView {
        SegmentView { offset: self.offset, data: self.data@ }
    }
}

impl SegmentView {
    /// The offset after the last byte of the run.
    pub open spec fn end(self) -> int {
        self.offset + self.data.len()
    }

    /// Whether the run holds the byte at `pos` and ends within the offsets
    /// that a stream can have.
    pub open spec fn covers(self, pos: u64) -> bool {
        self.offset <= pos < self.end() <= u64::MAX
    }
}

/// The runs of a sequence, each as a byte sequence.
pub open spec fn segment_views(held: Seq<Segment>) -> Seq<SegmentView> {
    held.map_values(|s: Segment| s@)
}

/// Where the first run that covers `pos` stands in `held`, or -1 where no
/// run covers it.
pub open spec fn first_covering(held: Seq<SegmentView>, pos: u64) -> int
    decreases held.len(),
{
    if held.len() == 0 {
        -1
    } else {
        let before = first_covering(held.drop_last(), pos);
        if before >= 0 {
            before
        } else if held.last().covers(pos) {
            held.len() - 1
        } else {
            -1
        }
    }
}

/// The bytes that can be handed on from `pos` with the runs of `held`, and
/// the offset that is reached: the rest of the first run that covers `pos`,
/// then what can be handed on from the end of that run, for at most `steps`
/// runs.
pub open spec fn drain(held: Seq<SegmentView>, pos: u64, steps: nat) -> (u64, Seq<u8>)
    decreases steps,
{
    let i = first_covering(held, pos);
    if steps == 0 || i < 0 {
        (pos, Seq::empty())
    } else {
        let run = held[i];
        let rest = drain(held, run.end() as u64, (steps - 1) as nat);
        (rest.0, run.data.skip(pos - run.offset) + rest.1)
    }
}

/// The runs of `held` that reach beyond `pos`, in their order.
pub open spec fn reaching_beyond(held: Seq<SegmentView>, pos: u64) -> Seq<SegmentView>
    decreases held.len(),
{
    if held.len() == 0 {
        Seq::empty()
    } else {
        let before = reaching_beyond(held.drop_last(), pos);
        if held.last().end() > pos {
            before.push(held.last())
        } else {
            before
        }
    }
}

/// A stream: how far it has been handed on, and the runs that are held.
pub struct StreamView {
    pub delivered: u64,
    pub held: Seq<SegmentView>,
}

impl StreamView {
    /// A stream of which nothing has arrived.
    pub open spec fn empty() -> StreamView {
        StreamView { delivered: 0, held: Seq::empty() }
    }

    /// The stream after a run arrived, and the bytes that it hands on.
    ///
    /// A run that is empty, that ends where the stream has been handed on
    /// already, or that would end beyond the offsets a stream can have,
    /// changes nothing.  Any other run joins the runs held; the stream is
    /// handed on as far as the runs reach without a gap; the runs that do
    /// not reach beyond that point are let go, and of the others at most
    /// `MAX_HELD_SEGMENTS` are kept, the oldest first.
    pub open spec fn accept(self, offset: u64, data: Seq<u8>) -> (StreamView, Seq<u8>) {
        if data.len() == 0 || offset + data.len() <= self.delivered || offset + data.len()
            > u64::MAX {
            (self, Seq::empty())
        } else {
            let held = self.held.push(SegmentView { offset, data });
            let (delivered, bytes) = drain(held, self.delivered, held.len());
            let kept = reaching_beyond(held, delivered);
            (
                StreamView {
                    delivered,
                    held: if kept.len() > MAX_HELD_SEGMENTS {
                        kept.take(MAX_HELD_SEGMENTS as int)
                    } else {
                        kept
                    },
                },
                bytes,
            )
        }
    }
}

/// `first_covering` finds the first run that covers a position, and -1 only
/// where no run covers it.
proof fn lemma_first_covering(held: Seq<SegmentView>, pos: u64)
    ensures
        -1 <= first_covering(held, pos) < held.len(),
        first_covering(held, pos) >= 0 ==> held[first_covering(held, pos)].covers(pos),
        forall|i: int|
            0 <= i < held.len() && (first_covering(held, pos) < 0 || i < first_covering(held, pos))
                ==> !(#[trigger] held[i]).covers(pos),
    decreases held.len(),
{
    if held.len() > 0 {
        lemma_first_covering(held.drop_last(), pos);
        assert forall|i: int|
            0 <= i < held.len() && (first_covering(held, pos) < 0 || i < first_covering(
                held,
                pos,
            )) implies !(#[trigger] held[i]).covers(pos) by {
            if i < held.len() - 1 {
                assert(held.drop_last()[i] == held[i]);
            }
        }
    }
}

/// What a stream hands on is as long as the stream moves forward, and the
/// stream never moves back.
pub proof fn lemma_drain_is_contiguous(held: Seq<SegmentView>, pos: u64, steps: nat)
    ensures
        drain(held, pos, steps).0 >= pos,
        drain(held, pos, steps).1.len() == drain(held, pos, steps).0 - pos,
    decreases steps,
{
    let i = first_covering(held, pos);
    lemma_first_covering(held, pos);
    if steps > 0 && i >= 0 {
        lemma_drain_is_contiguous(held, held[i].end() as u64, (steps - 1) as nat);
    }
}

/// Every byte that a stream hands on is the byte that some run holds at
/// that offset of the stream.
pub proof fn lemma_drain_hands_on_what_arrived(
    held: Seq<SegmentView>,
    pos: u64,
    steps: nat,
    k: int,
)
    requires
        0 <= k < drain(held, pos, steps).1.len(),
    ensures
        exists|i: int|
            0 <= i < held.len() && (#[trigger] held[i]).covers((pos + k) as u64) && drain(
                held,
                pos,
                steps,
            ).1[k] == held[i].data[pos + k - held[i].offset],
    decreases steps,
{
    let i = first_covering(held, pos);
    lemma_first_covering(held, pos);
    lemma_drain_is_contiguous(held, pos, steps);
    if steps > 0 && i >= 0 {
        let run = held[i];
        let first = run.data.skip(pos - run.offset);
        lemma_drain_is_contiguous(held, run.end() as u64, (steps - 1) as nat);
        if k >= first.len() {
            lemma_drain_hands_on_what_arrived(
                held,
                run.end() as u64,
                (steps - 1) as nat,
                k - first.len(),
            );
        }
    }
}

/// A run that continues a stream which holds nothing is handed on whole.
pub proof fn lemma_in_order_run_is_handed_on(stream: StreamView, data: Seq<u8>)
    requires
        stream.held.len() == 0,
        data.len() > 0,
        stream.delivered + data.len() <= u64::MAX,
    ensures
        stream.accept(stream.delivered, data) == (
            StreamView { delivered: (stream.delivered + data.len()) as u64, held: Seq::empty() },
            data,
        ),
{
    let run = SegmentView { offset: stream.delivered, data };
    let held = stream.held.push(run);
    let end = (stream.delivered + data.len()) as u64;
    assert(first_covering(held.drop_last(), stream.delivered) == -1);
    assert(drain(held, end, 0) == (end, Seq::<u8>::empty()));
    assert(reaching_beyond(held.drop_last(), end) =~= Seq::<SegmentView>::empty());
}

/// The stream of handshake bytes of one encryption level.
#[derive(Debug)]
pub struct CryptoStream {
    delivered: u64,
    held: Vec<Segment>,
}

impl View for CryptoStream {
    type V = StreamView;

    closed spec fn view(&self) -> StreamView {
        StreamView { delivered: self.delivered, held: segment_views(self.held@) }
    }
}

/// Where the first run that covers `pos` stands.
fn find_covering(held: &Vec<Segment>, pos: u64) -> (found: Option<usize>)
    ensures
        match found {
            Some(i) => first_covering(segment_views(held@), pos) == i && i < held@.len(),
            None => first_covering(segment_views(held@), pos) < 0,
        },
{
    let ghost views = segment_views(held@);
    proof {
        lemma_first_covering(views, pos);
    }
    let mut i: usize = 0;
    while i < held.len()
        invariant
            i <= held@.len(),
            views == segment_views(held@),
            forall|j: int| 0 <= j < i ==> !(#[trigger] views[j]).covers(pos),
        decreases held@.len() - i,
    {
        let run = &held[i];
        assert(views[i as int] == run@);
        if run.offset <= pos {
            let reach = pos - run.offset;
            // The run covers `pos` where it is longer than the distance to
            // `pos` and ends within the offsets of a stream.
            if (run.data.len() as u64) > reach && (run.data.len() as u64) <= u64::MAX - run.offset {
                proof {
                    lemma_first_covering(views, pos);
                }
                return Some(i);
            }
        }
        i += 1;
    }
    proof {
        lemma_first_covering(views, pos);
    }
    None
}

/// Appends to `out` what can be handed on from `pos` and returns the offset
/// that is reached.
fn drain_into(held: &Vec<Segment>, pos: u64, steps: usize, out: &mut Vec<u8>) -> (end: u64)
    ensures
        end == drain(segment_views(held@), pos, steps as nat).0,
        final(out)@ == old(out)@ + drain(segment_views(held@), pos, steps as nat).1,
    decreases steps,
{
    if steps == 0 {
        return pos;
    }
    match find_covering(held, pos) {
        None => {
            pos
        },
        Some(i) => {
            let run = &held[i];
            let ghost views = segment_views(held@);
            proof {
                lemma_first_covering(views, pos);
            }
            let skip = (pos - run.offset) as usize;
            let rest = slice_subrange(run.data.as_slice(), skip, run.data.len());
            out.extend_from_slice(rest);
            let next = run.offset + run.data.len() as u64;
            let end = drain_into(held, next, steps - 1, out);
            end
        },
    }
}

impl CryptoStream {
    pub fn new() -> (stream: Self)
        ensures
            stream@ == StreamView::empty(),
    {
        let stream = CryptoStream { delivered: 0, held: Vec::new() };
        assert(segment_views(stream.held@) =~= Seq::<SegmentView>::empty());
        stream
    }

    /// How far the stream has been handed on.
    pub fn delivered(&self) -> (n: u64)
        ensures
            n == self@.delivered,
    {
        self.delivered
    }

    /// How many runs are held.
    pub fn held(&self) -> (n: usize)
        ensures
            n == self@.held.len(),
    {
        self.held.len()
    }

    /// Takes a run that arrived and returns the bytes that the stream hands
    /// on, which are none where the run is ahead of its turn or brings
    /// nothing new.
    pub fn accept(&mut self, offset: u64, data: &[u8]) -> (bytes: Vec<u8>)
        ensures
            (final(self)@, bytes@) == old(self)@.accept(offset, data@),
    {
        let mut bytes: Vec<u8> = Vec::new();
        let len = data.len();
        if len == 0 || len as u64 > u64::MAX - offset {
            return bytes;
        }
        if offset + len as u64 <= self.delivered {
            return bytes;
        }
        let ghost before = segment_views(self.held@);
        self.held.push(Segment { offset, data: vstd::slice::slice_to_vec(data) });
        let ghost held = segment_views(self.held@);
        assert(held =~= before.push(SegmentView { offset, data: data@ }));
        let steps = self.held.len();
        let delivered = drain_into(&self.held, self.delivered, steps, &mut bytes);
        let mut kept: Vec<Segment> = Vec::new();
        let mut i: usize = 0;
        while i < self.held.len()
            invariant
                i <= self.held@.len(),
                held == segment_views(self.held@),
                segment_views(kept@) == reaching_beyond(held.take(i as int), delivered),
            decreases self.held@.len() - i,
        {
            let run = &self.held[i];
            assert(held.take(i + 1).drop_last() =~= held.take(i as int));
            let reaches = if run.offset > delivered {
                true
            } else {
                run.data.len() as u64 > delivered - run.offset
            };
            if reaches {
                let copy = Segment { offset: run.offset, data: run.data.clone() };
                kept.push(copy);
            }
            i += 1;
        }
        assert(held.take(i as int) =~= held);
        if kept.len() > MAX_HELD_SEGMENTS {
            let ghost all = segment_views(kept@);
            kept.truncate(MAX_HELD_SEGMENTS);
            assert(segment_views(kept@) =~= all.take(MAX_HELD_SEGMENTS as int));
        }
        self.held = kept;
        self.delivered = delivered;
        bytes
    }
}

/// The streams of handshake bytes of a connection, one for each level.
#[derive(Debug)]
pub struct CryptoStreams {
    pub initial: CryptoStream,
    pub handshake: CryptoStream,
    pub application: CryptoStream,
}

/// The streams of a connection, each as what it holds.
pub struct StreamsView {
    pub initial: StreamView,
    pub handshake: StreamView,
    pub application: StreamView,
}

impl StreamsView {
    /// Streams of which nothing has arrived.
    pub open spec fn empty() -> StreamsView {
        StreamsView {
            initial: StreamView::empty(),
            handshake: StreamView::empty(),
            application: StreamView::empty(),
        }
    }

    /// The stream of one level.
    pub open spec fn at(self, level: EncryptionLevel) -> StreamView {
        match level {
            EncryptionLevel::Initial => self.initial,
            EncryptionLevel::Handshake => self.handshake,
            EncryptionLevel::Application => self.application,
        }
    }

    /// These streams with that of one level replaced.
    pub open spec fn with(self, level: EncryptionLevel, stream: StreamView) -> StreamsView {
        match level {
            EncryptionLevel::Initial => StreamsView { initial: stream, ..self },
            EncryptionLevel::Handshake => StreamsView { handshake: stream, ..self },
            EncryptionLevel::Application => StreamsView { application: stream, ..self },
        }
    }
}

impl View for CryptoStreams {
    type V = StreamsView;

    open spec fn view(&self) -> StreamsView {
        StreamsView {
            initial: self.initial@,
            handshake: self.handshake@,
            application: self.application@,
        }
    }
}

impl CryptoStreams {
    pub fn new() -> (streams: Self)
        ensures
            streams@ == StreamsView::empty(),
    {
        CryptoStreams {
            initial: CryptoStream::new(),
            handshake: CryptoStream::new(),
            application: CryptoStream::new(),
        }
    }

    /// Takes a run that arrived at `level` and returns the bytes that the
    /// stream of that level hands on.
    pub fn accept(&mut self, level: EncryptionLevel, offset: u64, data: &[u8]) -> (bytes: Vec<u8>)
        ensures
            final(self)@ == old(self)@.with(level, old(self)@.at(level).accept(offset, data@).0),
            bytes@ == old(self)@.at(level).accept(offset, data@).1,
    {
        match level {
            EncryptionLevel::Initial => self.initial.accept(offset, data),
            EncryptionLevel::Handshake => self.handshake.accept(offset, data),
            EncryptionLevel::Application => self.application.accept(offset, data),
        }
    }
}

} // verus!
