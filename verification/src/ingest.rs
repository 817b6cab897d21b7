//! Inbound datagrams: what a connection accepts, what it does with the
//! frames of a packet, and what it answers.
//!
//! A datagram is accepted where a header can be read from it, the level of
//! the header has keys, and the payload opens under them.  The frames of an
//! accepted packet are acted upon in wire order.  What is proved of every
//! datagram stands at the end of this module.

use crate::connection::{
    encode_frames, frame_views, frames_encodable, header_level, header_packet_number,
    lemma_packet_carries_its_number, lemma_state_never_goes_back, level_of_header, next_state,
    readable_by_peer, transition, Connection, ConnectionError, ConnectionEvent, ConnectionState,
    ConnectionView, MAX_DATAGRAM_SIZE,
};
use crate::crypto::{EncryptionLevel, LevelKeys};
use crate::frame::{decode_frame, Frame, FrameView, FRAME_TYPE_CRYPTO};
use crate::handshake::{answer_view, TlsOutcomeView, TLS_FAILURE_ERROR_CODE};
use crate::packet::{decode_header, ConnectionId, HeaderView, PacketHeader, LOCAL_CONNECTION_ID_LEN};
use vstd::prelude::*;
use vstd::slice::{slice_subrange, slice_to_vec};

verus! {

/// The frames of a payload in wire order, up to its end or to the first
/// frame that cannot be read: what stands before a frame that cannot be read
/// is kept, what stands after it is not.
pub open spec fn decode_frames(payload: Seq<u8>) -> Seq<FrameView>
    decreases payload.len(),
{
    match decode_frame(payload) {
        Ok((frame, used)) => if 0 < used <= payload.len() {
            seq![frame] + decode_frames(payload.skip(used as int))
        } else {
            Seq::empty()
        },
        Err(_) => Seq::empty(),
    }
}

/// Reads the frames of a payload.
pub fn read_frames(payload: &[u8]) -> (frames: Vec<Frame>)
    ensures
        frame_views(frames@) == decode_frames(payload@),
{
    let mut frames: Vec<Frame> = Vec::new();
    let len = payload.len();
    let mut pos: usize = 0;
    assert(payload@.skip(0) =~= payload@);
    while pos < len
        invariant
            pos <= len,
            len == payload@.len(),
            decode_frames(payload@) == frame_views(frames@) + decode_frames(
                payload@.skip(pos as int),
            ),
        decreases len - pos,
    {
        let rest = slice_subrange(payload, pos, len);
        match Frame::from_bytes(rest) {
            Ok((frame, used)) => {
                frames.push(frame);
                assert(payload@.skip(pos as int).skip(used as int) =~= payload@.skip(pos + used));
                pos += used;
            },
            Err(_) => {
                return frames;
            },
        }
    }
    frames
}

/// The identifier that the sender of a header names as its own, where the
/// header names one.
pub open spec fn header_source(header: HeaderView) -> Option<Seq<u8>> {
    match header {
        HeaderView::Long { src_conn_id, .. } => Some(src_conn_id),
        HeaderView::Short { .. } => None,
    }
}

/// A datagram that was accepted: the level of its packet, the identifier
/// that its sender names as its own, and what its payload opens to.
pub struct Accepted {
    pub level: EncryptionLevel,
    pub source: Option<Seq<u8>>,
    pub payload: Seq<u8>,
}

/// What a datagram is accepted as.  A datagram is discarded where it is
/// longer than 1500 bytes, where no header can be read from it, where its
/// header belongs to no level, where that level has no keys, and where its
/// payload does not open under the receive key of the level with the header
/// as associated data.
pub open spec fn accept_datagram(keys: LevelKeys, datagram: Seq<u8>) -> Option<Accepted> {
    if datagram.len() > MAX_DATAGRAM_SIZE {
        None
    } else {
        match decode_header(datagram) {
            None => None,
            Some((header, used)) => match header_level(header) {
                None => None,
                Some(level) => match keys.at(level) {
                    None => None,
                    Some(k) => match k.open(
                        header_packet_number(header),
                        datagram.take(used as int),
                        datagram.skip(used as int),
                    ) {
                        None => None,
                        Some(payload) => Some(
                            Accepted { level, source: header_source(header), payload },
                        ),
                    },
                },
            },
        }
    }
}

/// The frames to answer with at the end of a datagram, and whether the
/// datagram closed the connection.
pub struct Pending {
    pub connection: ConnectionView,
    /// Frames waiting to be sent in one packet.
    pub queued: Seq<FrameView>,
    /// Packets made so far.
    pub outputs: Seq<Seq<u8>>,
    /// Whether a CONNECTION_CLOSE frame arrived.
    pub close_received: bool,
    /// Whether the frames that follow are left unread.
    pub stopped: bool,
}

/// The CONNECTION_CLOSE frame that reports a failed handshake.
pub open spec fn tls_failure_frame() -> FrameView {
    FrameView::ConnectionClose {
        error_code: TLS_FAILURE_ERROR_CODE,
        trigger_frame_type: FRAME_TYPE_CRYPTO as u64,
        reason: "TLS handshake failed"@,
    }
}

/// The start of a datagram: nothing queued, nothing made.
pub open spec fn begin(connection: ConnectionView) -> Pending {
    Pending {
        connection,
        queued: Seq::empty(),
        outputs: Seq::empty(),
        close_received: false,
        stopped: false,
    }
}

/// What one frame of a packet of `level` does.
///
/// PADDING does nothing.  PING is answered with a PING by the responder.
/// CRYPTO goes to the TLS driver; what the driver wants sent leaves in a
/// packet of its own, and where the driver fails a CONNECTION_CLOSE with
/// the TLS failure code is queued, the state becomes Closing and the rest of
/// the packet is left unread.  CONNECTION_CLOSE makes the state Closing,
/// queues one CONNECTION_CLOSE in return unless the connection was closing
/// already, and leaves the rest of the packet unread.
pub open spec fn after_frame(
    p: Pending,
    level: EncryptionLevel,
    frame: FrameView,
    outcome: TlsOutcomeView,
) -> Pending {
    if p.stopped {
        p
    } else {
        match frame {
            FrameView::Padding { .. } => p,
            FrameView::Ping => if p.connection.is_client {
                p
            } else {
                Pending { queued: p.queued.push(FrameView::Ping), ..p }
            },
            FrameView::Crypto { .. } => {
                let (connection, answer) = p.connection.after_crypto_frame(level, frame, outcome);
                match answer {
                    Ok(Some(datagram)) => Pending {
                        connection,
                        outputs: p.outputs.push(datagram),
                        ..p
                    },
                    Ok(None) => Pending { connection, ..p },
                    Err(_) => Pending {
                        connection: connection.in_state(
                            next_state(connection.state, ConnectionEvent::CloseRequested),
                        ),
                        queued: p.queued.push(tls_failure_frame()),
                        stopped: true,
                        ..p
                    },
                }
            },
            FrameView::ConnectionClose { .. } => Pending {
                connection: p.connection.in_state(
                    next_state(p.connection.state, ConnectionEvent::CloseReceived),
                ),
                queued: if p.connection.state == ConnectionState::Closing || p.connection.state
                    == ConnectionState::Closed {
                    p.queued
                } else {
                    p.queued.push(ConnectionView::close_frame(Seq::empty()))
                },
                close_received: true,
                stopped: true,
                ..p
            },
        }
    }
}

/// What the frames of a packet of `level` do, one after the other in wire
/// order, where `outcomes` holds for each frame what the TLS driver did
/// with it.
pub open spec fn after_frames(
    p: Pending,
    level: EncryptionLevel,
    frames: Seq<FrameView>,
    outcomes: Seq<TlsOutcomeView>,
) -> Pending
    decreases frames.len(),
{
    if frames.len() == 0 {
        p
    } else {
        after_frame(
            after_frames(p, level, frames.drop_last(), outcomes.drop_last()),
            level,
            frames.last(),
            outcomes.last(),
        )
    }
}

/// The end of a datagram: the queued frames leave in one packet at the
/// highest level that has keys, and a connection that was closed by the
/// datagram becomes Closed once that packet is made.
pub open spec fn finish(p: Pending) -> (ConnectionView, Seq<Seq<u8>>) {
    let (connection, outputs) = if p.queued.len() == 0 {
        (p.connection, p.outputs)
    } else {
        match p.connection.keys.highest() {
            None => (p.connection, p.outputs),
            Some(level) => match p.connection.packet(level, p.queued) {
                Ok(datagram) => (p.connection.after_packet(level), p.outputs.push(datagram)),
                Err(_) => (p.connection, p.outputs),
            },
        }
    };
    if p.close_received {
        (
            connection.in_state(next_state(connection.state, ConnectionEvent::CloseSent)),
            outputs,
        )
    } else {
        (connection, outputs)
    }
}

impl ConnectionView {
    /// This connection once it has heard from a peer that names `source`
    /// as its own identifier: the first such identifier is kept as the
    /// remote identifier.
    pub open spec fn knowing(self, source: Option<Seq<u8>>) -> ConnectionView {
        match (self.remote_conn_id, source) {
            (None, Some(id)) => ConnectionView { remote_conn_id: Some(id), ..self },
            _ => self,
        }
    }

    /// This connection and the packets it answers with after the frames of
    /// a packet of `level` were handed to it.
    pub open spec fn after_packet_frames(
        self,
        level: EncryptionLevel,
        frames: Seq<FrameView>,
        outcomes: Seq<TlsOutcomeView>,
    ) -> (ConnectionView, Seq<Seq<u8>>) {
        finish(after_frames(begin(self), level, frames, outcomes))
    }

    /// This connection and the datagrams it answers with after a datagram
    /// was handed to it.  A datagram that is not accepted changes nothing
    /// and is answered with nothing.
    #[verifier::opaque]
    pub open spec fn after_datagram(self, datagram: Seq<u8>, outcomes: Seq<TlsOutcomeView>) -> (
        ConnectionView,
        Seq<Seq<u8>>,
    ) {
        match accept_datagram(self.keys, datagram) {
            None => (self, Seq::empty()),
            Some(accepted) => self.knowing(accepted.source).after_packet_frames(
                accepted.level,
                decode_frames(accepted.payload),
                outcomes,
            ),
        }
    }
}

/// The datagrams of a sequence, each as its bytes.
pub open spec fn datagram_views(datagrams: Seq<Vec<u8>>) -> Seq<Seq<u8>> {
    datagrams.map_values(|d: Vec<u8>| d@)
}

/// Whether `outcomes` can be what the TLS driver of a connection did with
/// each of `count` frames: a driver that is not set up is never reported
/// otherwise than as not set up, and one that is set up never as that.
pub open spec fn outcomes_fit(outcomes: Seq<TlsOutcomeView>, count: nat, has_tls: bool) -> bool {
    &&& outcomes.len() == count
    &&& forall|i: int|
        0 <= i < outcomes.len() ==> ((#[trigger] outcomes[i]) is NotSetUp <==> !has_tls)
}

impl Connection {
    /// Opens a datagram: the level of its packet, the identifier that its
    /// sender names as its own, and its payload in the clear.
    pub fn accept(&self, datagram: &[u8]) -> (res: Option<
        (EncryptionLevel, Option<ConnectionId>, Vec<u8>),
    >)
        ensures
            match res {
                Some((level, source, payload)) => accept_datagram(self@.keys, datagram@) == Some(
                    Accepted {
                        level,
                        source: match source {
                            Some(id) => Some(id@),
                            None => None,
                        },
                        payload: payload@,
                    },
                ),
                None => accept_datagram(self@.keys, datagram@) is None,
            },
    {
        let len = datagram.len();
        if len > MAX_DATAGRAM_SIZE {
            return None;
        }
        let (header, used) = match PacketHeader::from_bytes(datagram) {
            Ok(parsed) => parsed,
            Err(_) => {
                return None;
            },
        };
        let (level, packet_number) = level_of_header(&header);
        let level = match level {
            Some(level) => level,
            None => {
                return None;
            },
        };
        let header_bytes = slice_subrange(datagram, 0, used);
        let mut sealed = slice_to_vec(slice_subrange(datagram, used, len));
        match self.crypto.decrypt_packet(level, packet_number, header_bytes, sealed.as_mut_slice()) {
            Ok(n) => {
                sealed.truncate(n);
                let source = match header {
                    PacketHeader::Long(h) => Some(h.src_conn_id),
                    PacketHeader::Short(_) => None,
                };
                Some((level, source, sealed))
            },
            Err(_) => None,
        }
    }

    /// Keeps the identifier that a peer names as its own, where none is
    /// known yet.
    fn learn_remote(&mut self, source: Option<ConnectionId>)
        ensures
            final(self)@ == old(self)@.knowing(
                match source {
                    Some(id) => Some(id@),
                    None => None,
                },
            ),
    {
        if self.remote_conn_id.is_none() {
            match source {
                Some(id) => {
                    self.remote_conn_id = Some(id);
                },
                None => {},
            }
        }
    }

    /// Acts upon the frames of a packet of `level` in wire order and
    /// returns the packets to answer with.
    #[verifier::rlimit(30)]
    pub fn dispatch_frames(&mut self, level: EncryptionLevel, frames: Vec<Frame>) -> (outputs: Vec<
        Vec<u8>,
    >)
        ensures
            exists|outcomes: Seq<TlsOutcomeView>|
                {
                    &&& outcomes_fit(outcomes, frames@.len(), old(self)@.has_tls)
                    &&& #[trigger] old(self)@.after_packet_frames(
                        level,
                        frame_views(frames@),
                        outcomes,
                    ) == (final(self)@, datagram_views(outputs@))
                },
    {
        let ghost start = self@;
        let ghost views = frame_views(frames@);
        let ghost mut outcomes: Seq<TlsOutcomeView> = Seq::empty();
        let mut queued: Vec<Frame> = Vec::new();
        let mut outputs: Vec<Vec<u8>> = Vec::new();
        let mut close_received = false;
        let mut stopped = false;
        let mut i: usize = 0;
        assert(frame_views(queued@) =~= Seq::<FrameView>::empty());
        assert(datagram_views(outputs@) =~= Seq::<Seq<u8>>::empty());
        while i < frames.len()
            invariant
                i <= frames@.len(),
                views == frame_views(frames@),
                self@.has_tls == start.has_tls,
                outcomes_fit(outcomes, i as nat, start.has_tls),
                after_frames(begin(start), level, views.take(i as int), outcomes) == (Pending {
                    connection: self@,
                    queued: frame_views(queued@),
                    outputs: datagram_views(outputs@),
                    close_received,
                    stopped,
                }),
            decreases frames@.len() - i,
        {
            let ghost mut outcome = if start.has_tls {
                TlsOutcomeView::Failed
            } else {
                TlsOutcomeView::NotSetUp
            };
            let ghost queued_before = frame_views(queued@);
            let ghost outputs_before = datagram_views(outputs@);
            if !stopped {
                match &frames[i] {
                    Frame::Padding { .. } => {},
                    Frame::Ping => {
                        if !self.is_client {
                            queued.push(Frame::Ping);
                            assert(frame_views(queued@) =~= queued_before.push(FrameView::Ping));
                        }
                    },
                    Frame::Crypto { .. } => {
                        let ghost here = self@;
                        let answer = self.process_crypto_frame_at(level, &frames[i]);
                        proof {
                            outcome = choose|o: TlsOutcomeView|
                                {
                                    &&& (o is NotSetUp <==> !here.has_tls)
                                    &&& #[trigger] here.after_crypto_frame(
                                        level,
                                        frames@[i as int]@,
                                        o,
                                    ) == (self@, answer_view(answer))
                                };
                        }
                        match answer {
                            Ok(Some(datagram)) => {
                                outputs.push(datagram);
                                assert(datagram_views(outputs@) =~= outputs_before.push(
                                    datagram@,
                                ));
                            },
                            Ok(None) => {},
                            Err(_) => {
                                let next = transition(
                                    self.state,
                                    ConnectionEvent::CloseRequested,
                                );
                                self.handle_state_transition(next);
                                proof {
                                    reveal_strlit("TLS handshake failed");
                                }
                                let frame = Frame::ConnectionClose {
                                    error_code: TLS_FAILURE_ERROR_CODE,
                                    trigger_frame_type: FRAME_TYPE_CRYPTO as u64,
                                    reason: "TLS handshake failed".to_string(),
                                };
                                queued.push(frame);
                                assert(frame_views(queued@) =~= queued_before.push(
                                    tls_failure_frame(),
                                ));
                                stopped = true;
                            },
                        }
                    },
                    Frame::ConnectionClose { .. } => {
                        let closing = match self.state {
                            ConnectionState::Closing | ConnectionState::Closed => true,
                            _ => false,
                        };
                        if !closing {
                            let frame = Frame::ConnectionClose {
                                error_code: 0,
                                trigger_frame_type: 0,
                                reason: String::new(),
                            };
                            queued.push(frame);
                            assert(frame_views(queued@) =~= queued_before.push(
                                ConnectionView::close_frame(Seq::empty()),
                            ));
                        }
                        let next = transition(self.state, ConnectionEvent::CloseReceived);
                        self.handle_state_transition(next);
                        close_received = true;
                        stopped = true;
                    },
                }
            }
            proof {
                let longer = outcomes.push(outcome);
                assert(views.take(i + 1).drop_last() =~= views.take(i as int));
                assert(longer.drop_last() =~= outcomes);
                outcomes = longer;
            }
            i += 1;
        }
        assert(views.take(i as int) =~= views);
        if queued.len() > 0 {
            match self.crypto.highest_level() {
                Some(at) => {
                    match self.create_packet(at, queued) {
                        Ok(datagram) => {
                            outputs.push(datagram);
                        },
                        Err(_) => {},
                    }
                },
                None => {},
            }
        }
        if close_received {
            let next = transition(self.state, ConnectionEvent::CloseSent);
            self.handle_state_transition(next);
        }
        assert(start.after_packet_frames(level, views, outcomes) == (
            self@,
            datagram_views(outputs@),
        ));
        outputs
    }

    /// Takes one datagram from the peer and returns the datagrams to answer
    /// with.  A datagram that is not accepted changes nothing and is
    /// answered with nothing.  Of one that is accepted the frames are acted
    /// upon in wire order, up to the first that cannot be read.
    pub fn ingest_datagram(&mut self, datagram: &[u8]) -> (outputs: Vec<Vec<u8>>)
        ensures
            accept_datagram(old(self)@.keys, datagram@) is None ==> final(self)@ == old(self)@
                && outputs@.len() == 0,
            old(self)@.wf() ==> final(self)@.wf() && final(self)@.follows(old(self)@),
            exists|outcomes: Seq<TlsOutcomeView>|
                {
                    &&& accept_datagram(old(self)@.keys, datagram@) is Some ==> outcomes_fit(
                        outcomes,
                        decode_frames(
                            accept_datagram(old(self)@.keys, datagram@).unwrap().payload,
                        ).len(),
                        old(self)@.has_tls,
                    )
                    &&& #[trigger] old(self)@.after_datagram(datagram@, outcomes) == (
                        final(self)@,
                        datagram_views(outputs@),
                    )
                },
    {
        reveal(ConnectionView::after_datagram);
        let ghost start = self@;
        match self.accept(datagram) {
            None => {
                let outputs: Vec<Vec<u8>> = Vec::new();
                proof {
                    if start.wf() {
                        lemma_datagram_moves_forward(start, datagram@, Seq::empty());
                    }
                }
                outputs
            },
            Some((level, source, payload)) => {
                self.learn_remote(source);
                let frames = read_frames(payload.as_slice());
                let ghost known = self@;
                let outputs = self.dispatch_frames(level, frames);
                proof {
                    let outcomes = choose|outcomes: Seq<TlsOutcomeView>|
                        {
                            &&& outcomes_fit(outcomes, frames@.len(), known.has_tls)
                            &&& #[trigger] known.after_packet_frames(
                                level,
                                frame_views(frames@),
                                outcomes,
                            ) == (self@, datagram_views(outputs@))
                        };
                    assert(start.after_datagram(datagram@, outcomes) == (
                        self@,
                        datagram_views(outputs@),
                    ));
                    if start.wf() {
                        lemma_datagram_moves_forward(start, datagram@, outcomes);
                    }
                }
                outputs
            },
        }
    }
}

impl ConnectionView {
    /// Whether this connection can have come of `before`: it is the same
    /// end of the same connection, its state is no earlier, and at no level
    /// is its next packet number lower.
    pub open spec fn follows(self, before: ConnectionView) -> bool {
        &&& before.local_conn_id == self.local_conn_id
        &&& before.is_client == self.is_client
        &&& before.state.rank() <= self.state.rank()
        &&& before.packet_numbers.initial <= self.packet_numbers.initial
        &&& before.packet_numbers.handshake <= self.packet_numbers.handshake
        &&& before.packet_numbers.application <= self.packet_numbers.application
    }
}

/// A datagram that is shorter than the shortest header is discarded: it
/// changes nothing and is answered with nothing.
pub proof fn lemma_short_datagram_is_discarded(
    connection: ConnectionView,
    datagram: Seq<u8>,
    outcomes: Seq<TlsOutcomeView>,
)
    requires
        datagram.len() == 0 || datagram.len() < crate::packet::min_header_len(datagram[0]),
    ensures
        accept_datagram(connection.keys, datagram) is None,
        connection.after_datagram(datagram, outcomes) == (connection, Seq::<Seq<u8>>::empty()),
{
    reveal(ConnectionView::after_datagram);
    crate::packet::lemma_short_input_has_no_header(datagram);
}

/// Sending a packet keeps a connection well-formed and moves it forward.
proof fn lemma_packet_moves_forward(
    connection: ConnectionView,
    level: EncryptionLevel,
    frames: Seq<FrameView>,
)
    requires
        connection.wf(),
        connection.packet(level, frames) is Ok,
    ensures
        connection.after_packet(level).wf(),
        connection.after_packet(level).follows(connection),
        connection.after_packet(level).state == connection.state,
        connection.after_packet(level).keys == connection.keys,
{
}

/// Whatever the TLS driver did with a frame, the connection stays
/// well-formed and moves forward.
proof fn lemma_crypto_frame_moves_forward(
    connection: ConnectionView,
    level: EncryptionLevel,
    frame: FrameView,
    outcome: TlsOutcomeView,
)
    requires
        connection.wf(),
    ensures
        connection.after_crypto_frame(level, frame, outcome).0.wf(),
        connection.after_crypto_frame(level, frame, outcome).0.follows(connection),
{
    if let FrameView::Crypto { offset, data } = frame {
        if connection.has_tls {
            let (stream, bytes) = connection.crypto_streams.at(level).accept(offset, data);
            let heard = ConnectionView {
                crypto_streams: connection.crypto_streams.with(level, stream),
                ..connection
            };
            if let TlsOutcomeView::Progress { output, complete } = outcome {
                if bytes.len() > 0 && heard.handshake_packet(output) is Ok {
                    if output.len() > 0 {
                        let at = heard.keys.highest().unwrap();
                        lemma_packet_moves_forward(
                            heard,
                            at,
                            seq![heard.crypto_frame(at, output)],
                        );
                    }
                }
            }
        }
    }
}

/// Whatever one frame does, the connection stays well-formed and moves
/// forward.
proof fn lemma_frame_moves_forward(
    p: Pending,
    level: EncryptionLevel,
    frame: FrameView,
    outcome: TlsOutcomeView,
)
    requires
        p.connection.wf(),
    ensures
        after_frame(p, level, frame, outcome).connection.wf(),
        after_frame(p, level, frame, outcome).connection.follows(p.connection),
{
    lemma_crypto_frame_moves_forward(p.connection, level, frame, outcome);
    let after = p.connection.after_crypto_frame(level, frame, outcome).0;
    lemma_state_never_goes_back(after.state, ConnectionEvent::CloseRequested);
    lemma_state_never_goes_back(p.connection.state, ConnectionEvent::CloseReceived);
}

/// Whatever the frames of a packet do, the connection stays well-formed and
/// moves forward.
proof fn lemma_frames_move_forward(
    p: Pending,
    level: EncryptionLevel,
    frames: Seq<FrameView>,
    outcomes: Seq<TlsOutcomeView>,
)
    requires
        p.connection.wf(),
    ensures
        after_frames(p, level, frames, outcomes).connection.wf(),
        after_frames(p, level, frames, outcomes).connection.follows(p.connection),
    decreases frames.len(),
{
    if frames.len() > 0 {
        lemma_frames_move_forward(p, level, frames.drop_last(), outcomes.drop_last());
        lemma_frame_moves_forward(
            after_frames(p, level, frames.drop_last(), outcomes.drop_last()),
            level,
            frames.last(),
            outcomes.last(),
        );
    }
}

/// Whatever a datagram holds and whatever the TLS driver does with it, a
/// connection that takes the datagram stays well-formed: once it is Closed
/// it holds no keys.  It keeps its own identifier and its role, its state
/// never goes back, so that a Closed connection stays Closed, and at no
/// level does its next packet number go down.
pub proof fn lemma_datagram_moves_forward(
    connection: ConnectionView,
    datagram: Seq<u8>,
    outcomes: Seq<TlsOutcomeView>,
)
    requires
        connection.wf(),
    ensures
        connection.after_datagram(datagram, outcomes).0.wf(),
        connection.after_datagram(datagram, outcomes).0.follows(connection),
        connection.state == ConnectionState::Closed ==> connection.after_datagram(
            datagram,
            outcomes,
        ) == (connection, Seq::<Seq<u8>>::empty()),
{
    reveal(ConnectionView::after_datagram);
    match accept_datagram(connection.keys, datagram) {
        None => {},
        Some(accepted) => {
            let known = connection.knowing(accepted.source);
            let frames = decode_frames(accepted.payload);
            lemma_frames_move_forward(begin(known), accepted.level, frames, outcomes);
            let p = after_frames(begin(known), accepted.level, frames, outcomes);
            if p.queued.len() > 0 {
                if let Some(level) = p.connection.keys.highest() {
                    if p.connection.packet(level, p.queued) is Ok {
                        lemma_packet_moves_forward(p.connection, level, p.queued);
                        lemma_state_never_goes_back(
                            p.connection.after_packet(level).state,
                            ConnectionEvent::CloseSent,
                        );
                    }
                }
            }
            lemma_state_never_goes_back(p.connection.state, ConnectionEvent::CloseSent);
        },
    }
}

/// Frames that are no CRYPTO frames are acted upon in the same way whatever
/// the TLS driver would do: what PADDING, PING and CONNECTION_CLOSE do is a
/// function of the connection and the frames alone.
pub proof fn lemma_plain_frames_ignore_tls(
    p: Pending,
    level: EncryptionLevel,
    frames: Seq<FrameView>,
    first: Seq<TlsOutcomeView>,
    second: Seq<TlsOutcomeView>,
)
    requires
        forall|i: int| 0 <= i < frames.len() ==> !((#[trigger] frames[i]) is Crypto),
    ensures
        after_frames(p, level, frames, first) == after_frames(p, level, frames, second),
    decreases frames.len(),
{
    if frames.len() > 0 {
        assert forall|i: int| 0 <= i < frames.drop_last().len() implies !((
        #[trigger] frames.drop_last()[i]) is Crypto) by {}
        lemma_plain_frames_ignore_tls(
            p,
            level,
            frames.drop_last(),
            first.drop_last(),
            second.drop_last(),
        );
    }
}

/// The wire forms of a frame and of the frames that follow it.
proof fn lemma_encode_frames_first(first: FrameView, rest: Seq<FrameView>)
    ensures
        encode_frames(seq![first] + rest) == first.encode() + encode_frames(rest),
    decreases rest.len(),
{
    let all = seq![first] + rest;
    if rest.len() == 0 {
        assert(encode_frames(all.drop_last()) =~= Seq::<u8>::empty());
    } else {
        assert(all.drop_last() =~= seq![first] + rest.drop_last());
        lemma_encode_frames_first(first, rest.drop_last());
    }
}

/// The wire form of a sequence of frames starts with a zero byte only where
/// the sequence starts with padding.
proof fn lemma_encode_frames_start(frames: Seq<FrameView>)
    requires
        frames.len() > 0,
        !(frames[0] is Padding),
    ensures
        encode_frames(frames).len() > 0,
        encode_frames(frames)[0] != 0,
{
    let first = frames[0];
    let rest = frames.skip(1);
    assert(frames =~= seq![first] + rest);
    lemma_encode_frames_first(first, rest);
    match first {
        FrameView::Ping => {},
        FrameView::Crypto { .. } => {},
        FrameView::ConnectionClose { .. } => {},
        FrameView::Padding { .. } => {},
    }
}

/// Whether a sequence of frames reads back as it was written: every frame
/// has a wire form, every PADDING has at least one byte, and no PADDING is
/// followed by another, with which it would be read as one.
pub open spec fn frames_readable(frames: Seq<FrameView>) -> bool {
    &&& frames_encodable(frames)
    &&& forall|i: int|
        0 <= i < frames.len() ==> ((#[trigger] frames[i]) matches FrameView::Padding { length }
            ==> length >= 1 && (i + 1 < frames.len() ==> !(frames[i + 1] is Padding)))
}

/// The frames of a packet are read back in the order in which they were
/// written, each as it was.
#[verifier::rlimit(30)]
pub proof fn lemma_frames_round_trip(frames: Seq<FrameView>)
    requires
        frames_readable(frames),
    ensures
        decode_frames(encode_frames(frames)) == frames,
    decreases frames.len(),
{
    if frames.len() > 0 {
        let first = frames[0];
        let rest = frames.skip(1);
        let tail = encode_frames(rest);
        assert(frames =~= seq![first] + rest);
        lemma_encode_frames_first(first, rest);
        assert forall|i: int| 0 <= i < rest.len() implies (#[trigger] rest[i]).encodable() by {}
        assert forall|i: int| 0 <= i < rest.len() implies ((
        #[trigger] rest[i]) matches FrameView::Padding { length } ==> length >= 1 && (i + 1
            < rest.len() ==> !(rest[i + 1] is Padding))) by {}
        if first is Padding && rest.len() > 0 {
            lemma_encode_frames_start(rest);
        }
        crate::frame::lemma_frame_round_trip(first, tail);
        lemma_frames_round_trip(rest);
        let wire = first.encode() + tail;
        let used = first.encode().len();
        assert(used > 0) by {
            match first {
                FrameView::Padding { length } => {},
                FrameView::Ping => {},
                FrameView::Crypto { .. } => {},
                FrameView::ConnectionClose { .. } => {},
            }
        }
        assert(wire.skip(used as int) =~= tail);
    }
}

/// What one end sends, the other end reads: a packet that its maker's peer
/// can open is accepted by a connection that holds the peer's keys for the
/// packet's level, as a packet of that level with the frames that were put
/// in it as its payload.
pub proof fn lemma_peer_accepts_packet(
    sender: ConnectionView,
    receiver_keys: LevelKeys,
    level: EncryptionLevel,
    frames: Seq<FrameView>,
    datagram: Seq<u8>,
)
    requires
        sender.packet(level, frames) == Ok::<Seq<u8>, ConnectionError>(datagram),
        readable_by_peer(sender.keys.at(level), sender.header_for(level), frames, datagram),
        receiver_keys.at(level) == Some(sender.keys.at(level).unwrap().peer()),
        datagram.len() <= MAX_DATAGRAM_SIZE,
        level == EncryptionLevel::Application ==> sender.dest_conn_id().len()
            == LOCAL_CONNECTION_ID_LEN,
    ensures
        accept_datagram(receiver_keys, datagram) == Some(
            Accepted {
                level,
                source: header_source(sender.header_for(level)),
                payload: encode_frames(frames),
            },
        ),
{
    lemma_packet_carries_its_number(sender, level, frames);
    let header = sender.header_for(level);
    let used = header.encode().len() as int;
    let sealed = sender.keys.at(level).unwrap().seal(
        header_packet_number(header),
        header.encode(),
        encode_frames(frames),
    ).unwrap();
    match header {
        HeaderView::Long { packet_type, version, dest_conn_id, src_conn_id, packet_number } => {
            crate::packet::lemma_long_header_round_trip(
                packet_type,
                version,
                dest_conn_id,
                src_conn_id,
                packet_number,
                sealed,
            );
        },
        HeaderView::Short { dest_conn_id, packet_number } => {
            crate::packet::lemma_short_header_round_trip(dest_conn_id, packet_number, sealed);
        },
    }
    assert(datagram.take(used) =~= header.encode());
}

/// What one end sends, the other end acts upon: a connection that holds the
/// peer's keys for the level of a packet acts upon the frames that were put
/// in the packet, in their order, as long as they read back as they were
/// written.
pub proof fn lemma_peer_acts_on_the_frames_sent(
    sender: ConnectionView,
    receiver: ConnectionView,
    level: EncryptionLevel,
    frames: Seq<FrameView>,
    datagram: Seq<u8>,
    outcomes: Seq<TlsOutcomeView>,
)
    requires
        sender.packet(level, frames) == Ok::<Seq<u8>, ConnectionError>(datagram),
        readable_by_peer(sender.keys.at(level), sender.header_for(level), frames, datagram),
        receiver.keys.at(level) == Some(sender.keys.at(level).unwrap().peer()),
        datagram.len() <= MAX_DATAGRAM_SIZE,
        level == EncryptionLevel::Application ==> sender.dest_conn_id().len()
            == LOCAL_CONNECTION_ID_LEN,
        frames_readable(frames),
    ensures
        receiver.after_datagram(datagram, outcomes) == receiver.knowing(
            header_source(sender.header_for(level)),
        ).after_packet_frames(level, frames, outcomes),
{
    reveal(ConnectionView::after_datagram);
    lemma_peer_accepts_packet(sender, receiver.keys, level, frames, datagram);
    lemma_frames_round_trip(frames);
}

} // verus!
