//! One connection: its state, the packets it sends, and how it is closed.
//!
//! A connection moves through Initial, Handshake, Established, Closing and
//! Closed.  It keeps one packet number space and one stream of handshake
//! bytes for each encryption level.  Every packet it sends is a header
//! followed by the frames sealed under the send key of the packet's level.
//! What a connection does with the handshake is in the module `handshake`,
//! what it does with the datagrams it is given in the module `ingest`.

use crate::buffer::{bytes_content, chunk};
use crate::crypto::{
    initial_keys, CryptoError, EncryptionLevel, KeysView, LevelKeys, QuicCrypto,
};
use crate::frame::{Frame, FrameView};
pub use crate::manager::ConnectionManager;
use crate::packet::{
    decode_header, ConnectionId, HeaderView, LongHeader, PacketHeader, PacketType, ShortHeader,
    LOCAL_CONNECTION_ID_LEN,
};
use crate::stream::{CryptoStreams, StreamsView};
use crate::tls::{QuicClientTls, QuicServerTls, TlsConfig};
use std::sync::Arc;
use vstd::prelude::*;

verus! {


/// The protocol version that every long header carries.
pub const QUIC_VERSION: u32 = 1;

/// Largest datagram that is accepted from the peer.
pub const MAX_DATAGRAM_SIZE: usize = 1500;

#[derive(Debug, Clone, Copy, PartialEq, Eq, Structural)]
pub enum ConnectionState {
    Initial,
    Handshake,
    Established,
    Closing,
    Closed,
}

/// What can move a connection from one state to the next.
#[derive(Debug, Clone, Copy, PartialEq, Eq)]
pub enum ConnectionEvent {
    /// The first handshake flight was consumed and the Handshake keys are
    /// installed.
    KeysInstalled,
    /// The TLS driver reports that the handshake is complete.
    HandshakeComplete,
    /// The local side asked for the connection to be closed.
    CloseRequested,
    /// A CONNECTION_CLOSE frame arrived.
    CloseReceived,
    /// Every close frame that was pending has been handed out.
    CloseSent,
}

impl ConnectionState {
    /// How far along its life a connection in this state is.
    pub open spec fn rank(self) -> nat {
        match self {
            ConnectionState::Initial => 0,
            ConnectionState::Handshake => 1,
            ConnectionState::Established => 2,
            ConnectionState::Closing => 3,
            ConnectionState::Closed => 4,
        }
    }
}

/// The state that follows `state` on `event`.  An event that does not apply
/// to a state leaves it as it is.
pub open spec fn next_state(state: ConnectionState, event: ConnectionEvent) -> ConnectionState {
    match event {
        ConnectionEvent::KeysInstalled => if state == ConnectionState::Initial {
            ConnectionState::Handshake
        } else {
            state
        },
        ConnectionEvent::HandshakeComplete => if state == ConnectionState::Handshake {
            ConnectionState::Established
        } else {
            state
        },
        ConnectionEvent::CloseRequested | ConnectionEvent::CloseReceived => if state
            == ConnectionState::Closed {
            state
        } else {
            ConnectionState::Closing
        },
        ConnectionEvent::CloseSent => if state == ConnectionState::Closing {
            ConnectionState::Closed
        } else {
            state
        },
    }
}

/// The central transition function of the state machine.
pub fn transition(state: ConnectionState, event: ConnectionEvent) -> (next: ConnectionState)
    ensures
        next == next_state(state, event),
{
    match event {
        ConnectionEvent::KeysInstalled => match state {
            ConnectionState::Initial => ConnectionState::Handshake,
            other => other,
        },
        ConnectionEvent::HandshakeComplete => match state {
            ConnectionState::Handshake => ConnectionState::Established,
            other => other,
        },
        ConnectionEvent::CloseRequested | ConnectionEvent::CloseReceived => match state {
            ConnectionState::Closed => ConnectionState::Closed,
            _ => ConnectionState::Closing,
        },
        ConnectionEvent::CloseSent => match state {
            ConnectionState::Closing => ConnectionState::Closed,
            other => other,
        },
    }
}

/// No event moves a connection backwards, and none moves it out of Closed.
pub proof fn lemma_state_never_goes_back(state: ConnectionState, event: ConnectionEvent)
    ensures
        state.rank() <= next_state(state, event).rank(),
        state == ConnectionState::Closed ==> next_state(state, event) == ConnectionState::Closed,
{
}

/// The address of the peer, as the datagram transport reports it.
#[derive(Debug, Clone, Copy, PartialEq, Eq)]
pub enum PeerAddr {
    V4 { ip: [u8; 4], port: u16 },
    V6 { ip: [u8; 16], port: u16 },
}

#[derive(Debug)]
pub enum ConnectionError {
    PacketEncoding,
    FrameEncoding,
    InvalidState,
    TlsSetupFailed,
    TlsHandshakeFailed,
    TlsNotSetup,
}

impl ConnectionError {
    /// The message that describes this error.
    pub fn to_string(&self) -> (s: String)
        ensures
            s@ == match self {
                ConnectionError::PacketEncoding => "Packet encoding error"@,
                ConnectionError::FrameEncoding => "Frame encoding error"@,
                ConnectionError::InvalidState => "Invalid connection state"@,
                ConnectionError::TlsSetupFailed => "TLS setup failed"@,
                ConnectionError::TlsHandshakeFailed => "TLS handshake failed"@,
                ConnectionError::TlsNotSetup => "TLS not setup"@,
            },
    {
        match self {
            ConnectionError::PacketEncoding => "Packet encoding error".to_string(),
            ConnectionError::FrameEncoding => "Frame encoding error".to_string(),
            ConnectionError::InvalidState => "Invalid connection state".to_string(),
            ConnectionError::TlsSetupFailed => "TLS setup failed".to_string(),
            ConnectionError::TlsHandshakeFailed => "TLS handshake failed".to_string(),
            ConnectionError::TlsNotSetup => "TLS not setup".to_string(),
        }
    }
}

/// One number for each encryption level.
#[derive(Debug, Clone, Copy, PartialEq, Eq)]
pub struct LevelOffsets {
    pub initial: u64,
    pub handshake: u64,
    pub application: u64,
}

impl LevelOffsets {
    pub open spec fn spec_at(self, level: EncryptionLevel) -> u64 {
        match level {
            EncryptionLevel::Initial => self.initial,
            EncryptionLevel::Handshake => self.handshake,
            EncryptionLevel::Application => self.application,
        }
    }

    pub open spec fn spec_with(self, level: EncryptionLevel, value: u64) -> LevelOffsets {
        match level {
            EncryptionLevel::Initial => LevelOffsets { initial: value, ..self },
            EncryptionLevel::Handshake => LevelOffsets { handshake: value, ..self },
            EncryptionLevel::Application => LevelOffsets { application: value, ..self },
        }
    }

    pub fn zero() -> (offsets: Self)
        ensures
            offsets == (LevelOffsets { initial: 0, handshake: 0, application: 0 }),
    {
        LevelOffsets { initial: 0, handshake: 0, application: 0 }
    }

    pub fn at(&self, level: EncryptionLevel) -> (value: u64)
        ensures
            value == self.spec_at(level),
    {
        match level {
            EncryptionLevel::Initial => self.initial,
            EncryptionLevel::Handshake => self.handshake,
            EncryptionLevel::Application => self.application,
        }
    }

    pub fn with(&self, level: EncryptionLevel, value: u64) -> (offsets: Self)
        ensures
            offsets == self.spec_with(level, value),
    {
        match level {
            EncryptionLevel::Initial => LevelOffsets {
                initial: value,
                handshake: self.handshake,
                application: self.application,
            },
            EncryptionLevel::Handshake => LevelOffsets {
                initial: self.initial,
                handshake: value,
                application: self.application,
            },
            EncryptionLevel::Application => LevelOffsets {
                initial: self.initial,
                handshake: self.handshake,
                application: value,
            },
        }
    }
}

/// The frames of a sequence, each as what it says.
pub open spec fn frame_views(frames: Seq<Frame>) -> Seq<FrameView> {
    frames.map_values(|f: Frame| f@)
}

/// Whether every frame of a sequence has a wire form.
pub open spec fn frames_encodable(frames: Seq<FrameView>) -> bool {
    forall|i: int| 0 <= i < frames.len() ==> (#[trigger] frames[i]).encodable()
}

/// The wire forms of the frames of a sequence, one after the other.
pub open spec fn encode_frames(frames: Seq<FrameView>) -> Seq<u8>
    decreases frames.len(),
{
    if frames.len() == 0 {
        Seq::empty()
    } else {
        encode_frames(frames.drop_last()) + frames.last().encode()
    }
}

/// The encryption level that a header belongs to: Initial and Handshake for
/// the long headers of those types, Application for a short header.  The
/// other long header types belong to no level that is implemented.
pub open spec fn header_level(header: HeaderView) -> Option<EncryptionLevel> {
    match header {
        HeaderView::Long { packet_type, .. } => match packet_type {
            PacketType::Initial => Some(EncryptionLevel::Initial),
            PacketType::Handshake => Some(EncryptionLevel::Handshake),
            _ => None,
        },
        HeaderView::Short { .. } => Some(EncryptionLevel::Application),
    }
}

/// The packet number that a header carries.
pub open spec fn header_packet_number(header: HeaderView) -> u64 {
    match header {
        HeaderView::Long { packet_number, .. } => packet_number,
        HeaderView::Short { packet_number, .. } => packet_number,
    }
}

/// The level and packet number of a header.
pub fn level_of_header(header: &PacketHeader) -> (res: (Option<EncryptionLevel>, u64))
    ensures
        res.0 == header_level(header@),
        res.1 == header_packet_number(header@),
{
    match header {
        PacketHeader::Long(h) => {
            let level = match h.packet_type {
                PacketType::Initial => Some(EncryptionLevel::Initial),
                PacketType::Handshake => Some(EncryptionLevel::Handshake),
                _ => None,
            };
            (level, h.packet_number)
        },
        PacketHeader::Short(h) => (Some(EncryptionLevel::Application), h.packet_number),
    }
}

/// A packet on the wire: the encoded header, then the frames sealed under
/// `keys` with the header as associated data.  Each way in which a packet
/// cannot be made has its error.
pub open spec fn packet_bytes(keys: Option<KeysView>, header: HeaderView, frames: Seq<FrameView>)
    -> Result<Seq<u8>, ConnectionError> {
    if !header.encodable() {
        Err(ConnectionError::PacketEncoding)
    } else if !frames_encodable(frames) {
        Err(ConnectionError::FrameEncoding)
    } else {
        match keys {
            None => Err(ConnectionError::InvalidState),
            Some(k) => match k.seal(
                header_packet_number(header),
                header.encode(),
                encode_frames(frames),
            ) {
                None => Err(ConnectionError::PacketEncoding),
                Some(sealed) => Ok(header.encode() + sealed),
            },
        }
    }
}

/// Whether the other end of `keys` opens the payload of `datagram`, a packet
/// with the given header, to the wire forms of `frames`.
pub open spec fn readable_by_peer(
    keys: Option<KeysView>,
    header: HeaderView,
    frames: Seq<FrameView>,
    datagram: Seq<u8>,
) -> bool {
    keys is Some && keys.unwrap().peer().open(
        header_packet_number(header),
        header.encode(),
        datagram.skip(header.encode().len() as int),
    ) == Some(encode_frames(frames))
}

/// One connection to one peer.
#[derive(Debug)]
pub struct Connection {
    pub local_conn_id: ConnectionId,
    pub remote_conn_id: Option<ConnectionId>,
    pub state: ConnectionState,
    pub remote_addr: PeerAddr,
    /// The next packet number of the Initial level.
    pub packet_number: u64,
    /// The next packet number of the Handshake level.
    pub handshake_packet_number: u64,
    /// The next packet number of the Application level.
    pub application_packet_number: u64,
    pub version: u32,
    pub is_client: bool,
    pub crypto: QuicCrypto,
    /// How many handshake bytes have been sent at each level.
    pub crypto_sent: LevelOffsets,
    /// The handshake bytes that arrived at each level.
    pub crypto_streams: CryptoStreams,
    pub tls_config: Option<Arc<TlsConfig>>,
    pub client_tls: Option<QuicClientTls>,
    pub server_tls: Option<QuicServerTls>,
}

/// What a connection holds, apart from the state of its TLS driver.
pub struct ConnectionView {
    pub local_conn_id: Seq<u8>,
    pub remote_conn_id: Option<Seq<u8>>,
    pub state: ConnectionState,
    pub remote_addr: PeerAddr,
    pub packet_numbers: LevelOffsets,
    pub version: u32,
    pub is_client: bool,
    pub keys: LevelKeys,
    pub crypto_sent: LevelOffsets,
    pub crypto_streams: StreamsView,
    /// Whether the TLS driver of this connection's role is set up.
    pub has_tls: bool,
}

impl View for Connection {
    type V = ConnectionView;

    open spec fn view(&self) -> ConnectionView {
        ConnectionView {
            local_conn_id: self.local_conn_id@,
            remote_conn_id: match self.remote_conn_id {
                Some(id) => Some(id@),
                None => None,
            },
            state: self.state,
            remote_addr: self.remote_addr,
            packet_numbers: LevelOffsets {
                initial: self.packet_number,
                handshake: self.handshake_packet_number,
                application: self.application_packet_number,
            },
            version: self.version,
            is_client: self.is_client,
            keys: self.crypto@,
            crypto_sent: self.crypto_sent,
            crypto_streams: self.crypto_streams@,
            has_tls: if self.is_client {
                self.client_tls is Some
            } else {
                self.server_tls is Some
            },
        }
    }
}

impl ConnectionView {
    /// What a closed connection must not hold: a connection in state Closed
    /// has no keys at any level.
    pub open spec fn wf(self) -> bool {
        self.state == ConnectionState::Closed ==> self.keys == LevelKeys::none()
    }

    /// The identifier that outbound packets are addressed to: the peer's,
    /// or the empty one until the peer's is known.
    pub open spec fn dest_conn_id(self) -> Seq<u8> {
        match self.remote_conn_id {
            Some(id) => id,
            None => Seq::empty(),
        }
    }

    /// The header of the next packet at `level`.
    pub open spec fn header_for(self, level: EncryptionLevel) -> HeaderView {
        match level {
            EncryptionLevel::Initial => HeaderView::Long {
                packet_type: PacketType::Initial,
                version: self.version,
                dest_conn_id: self.dest_conn_id(),
                src_conn_id: self.local_conn_id,
                packet_number: self.packet_numbers.initial,
            },
            EncryptionLevel::Handshake => HeaderView::Long {
                packet_type: PacketType::Handshake,
                version: self.version,
                dest_conn_id: self.dest_conn_id(),
                src_conn_id: self.local_conn_id,
                packet_number: self.packet_numbers.handshake,
            },
            EncryptionLevel::Application => HeaderView::Short {
                dest_conn_id: self.dest_conn_id(),
                packet_number: self.packet_numbers.application,
            },
        }
    }

    /// The next packet at `level` that carries `frames`, or why there is
    /// none.  A closed connection sends nothing.
    pub open spec fn packet(self, level: EncryptionLevel, frames: Seq<FrameView>) -> Result<
        Seq<u8>,
        ConnectionError,
    > {
        if self.state == ConnectionState::Closed {
            Err(ConnectionError::InvalidState)
        } else {
            packet_bytes(self.keys.at(level), self.header_for(level), frames)
        }
    }

    /// This connection after it has sent a packet at `level`: the packet
    /// number of that level is one higher.
    pub open spec fn after_packet(self, level: EncryptionLevel) -> ConnectionView {
        ConnectionView {
            packet_numbers: self.packet_numbers.spec_with(
                level,
                (self.packet_numbers.spec_at(level) + 1) as u64,
            ),
            ..self
        }
    }

    /// This connection in another state.  A connection that enters Closed
    /// gives up its keys.
    pub open spec fn in_state(self, state: ConnectionState) -> ConnectionView {
        ConnectionView {
            state,
            keys: if state == ConnectionState::Closed {
                LevelKeys::none()
            } else {
                self.keys
            },
            ..self
        }
    }

    /// The frame that a local close sends.
    pub open spec fn close_frame(reason: Seq<char>) -> FrameView {
        FrameView::ConnectionClose { error_code: 0, trigger_frame_type: 0, reason }
    }

    /// The packet that a local close sends, or why there is none: one
    /// CONNECTION_CLOSE frame at the highest level that has keys.
    pub open spec fn close_packet(self, reason: Seq<char>) -> Result<Seq<u8>, ConnectionError> {
        match self.keys.highest() {
            None => Err(ConnectionError::InvalidState),
            Some(level) => self.packet(level, seq![Self::close_frame(reason)]),
        }
    }

    /// This connection after a local close that sent its packet.
    pub open spec fn after_close(self) -> ConnectionView {
        match self.keys.highest() {
            None => self,
            Some(level) => self.after_packet(level).in_state(
                next_state(self.state, ConnectionEvent::CloseRequested),
            ),
        }
    }
}

/// A new connection in state Initial, with Initial keys and nothing sent.
pub open spec fn fresh_connection(
    local_conn_id: Seq<u8>,
    remote_conn_id: Option<Seq<u8>>,
    remote_addr: PeerAddr,
    is_client: bool,
) -> ConnectionView {
    ConnectionView {
        local_conn_id,
        remote_conn_id,
        state: ConnectionState::Initial,
        remote_addr,
        packet_numbers: LevelOffsets { initial: 0, handshake: 0, application: 0 },
        version: QUIC_VERSION,
        is_client,
        keys: LevelKeys::none().with(EncryptionLevel::Initial, Some(initial_keys())),
        crypto_sent: LevelOffsets { initial: 0, handshake: 0, application: 0 },
        crypto_streams: StreamsView::empty(),
        has_tls: false,
    }
}

/// The packet number of a packet that was just made is the one that its
/// level had next, and the packet reads back as the header it was made with.
pub proof fn lemma_packet_carries_its_number(
    connection: ConnectionView,
    level: EncryptionLevel,
    frames: Seq<FrameView>,
)
    requires
        connection.packet(level, frames) is Ok,
        level == EncryptionLevel::Application ==> connection.dest_conn_id().len()
            == LOCAL_CONNECTION_ID_LEN,
    ensures
        decode_header(connection.packet(level, frames).unwrap()) is Some,
        decode_header(connection.packet(level, frames).unwrap()).unwrap().0
            == connection.header_for(level),
        header_packet_number(connection.header_for(level)) == connection.packet_numbers.spec_at(
            level,
        ),
        header_level(connection.header_for(level)) == Some(level),
        connection.after_packet(level).packet_numbers.spec_at(level)
            == connection.packet_numbers.spec_at(level) + 1,
{
    let header = connection.header_for(level);
    let keys = connection.keys.at(level).unwrap();
    let sealed = keys.seal(header_packet_number(header), header.encode(), encode_frames(frames))
        .unwrap();
    match header {
        HeaderView::Long { packet_type, version, dest_conn_id, src_conn_id, packet_number } => {
            crate::packet::lemma_long_header_round_trip(
                packet_type,
                version,
                dest_conn_id,
                src_conn_id,
                packet_number,
                sealed,
            );
        },
        HeaderView::Short { dest_conn_id, packet_number } => {
            crate::packet::lemma_short_header_round_trip(dest_conn_id, packet_number, sealed);
        },
    }
}

/// Two packets that a connection sends one after the other at one level
/// carry packet numbers that differ by exactly one, whatever it sent at
/// other levels before, between or after them.
pub proof fn lemma_successive_packets_differ_by_one(
    connection: ConnectionView,
    level: EncryptionLevel,
    first: Seq<FrameView>,
    second: Seq<FrameView>,
)
    requires
        connection.packet(level, first) is Ok,
        connection.after_packet(level).packet(level, second) is Ok,
        level == EncryptionLevel::Application ==> connection.dest_conn_id().len()
            == LOCAL_CONNECTION_ID_LEN,
    ensures
        ({
            let one = decode_header(connection.packet(level, first).unwrap());
            let two = decode_header(connection.after_packet(level).packet(level, second).unwrap());
            &&& one is Some
            &&& two is Some
            &&& header_level(one.unwrap().0) == Some(level)
            &&& header_level(two.unwrap().0) == Some(level)
            &&& header_packet_number(two.unwrap().0) == header_packet_number(one.unwrap().0) + 1
        }),
        forall|other: EncryptionLevel|
            other != level ==> connection.after_packet(other).packet_numbers.spec_at(level)
                == connection.packet_numbers.spec_at(level),
{
    lemma_packet_carries_its_number(connection, level, first);
    lemma_packet_carries_its_number(connection.after_packet(level), level, second);
}

impl Connection {
    /// A connection that this end initiates: a fresh random local
    /// identifier of 8 bytes, no remote identifier yet, Initial keys.
    pub fn new_client(remote_addr: PeerAddr) -> (connection: Self)
        ensures
            connection@.local_conn_id.len() == LOCAL_CONNECTION_ID_LEN,
            connection@ == fresh_connection(connection@.local_conn_id, None, remote_addr, true),
            connection.tls_config is None,
            connection.client_tls is None,
            connection.server_tls is None,
    {
        let mut crypto = QuicCrypto::new();
        let local_conn_id = ConnectionId::random(LOCAL_CONNECTION_ID_LEN);
        let _ = crypto.setup_initial_keys(local_conn_id.data.as_slice(), true);
        Self {
            local_conn_id,
            remote_conn_id: None,
            state: ConnectionState::Initial,
            remote_addr,
            packet_number: 0,
            handshake_packet_number: 0,
            application_packet_number: 0,
            version: QUIC_VERSION,
            is_client: true,
            crypto,
            crypto_sent: LevelOffsets::zero(),
            crypto_streams: CryptoStreams::new(),
            tls_config: None,
            client_tls: None,
            server_tls: None,
        }
    }

    /// A connection that answers a peer: a fresh random local identifier of
    /// 8 bytes, the peer's identifier as remote identifier, Initial keys.
    pub fn new_server(remote_addr: PeerAddr, remote_conn_id: ConnectionId) -> (connection: Self)
        ensures
            connection@.local_conn_id.len() == LOCAL_CONNECTION_ID_LEN,
            connection@ == fresh_connection(
                connection@.local_conn_id,
                Some(remote_conn_id@),
                remote_addr,
                false,
            ),
            connection.tls_config is None,
            connection.client_tls is None,
            connection.server_tls is None,
    {
        let mut crypto = QuicCrypto::new();
        let local_conn_id = ConnectionId::random(LOCAL_CONNECTION_ID_LEN);
        let _ = crypto.setup_initial_keys(remote_conn_id.data.as_slice(), false);
        Self {
            local_conn_id,
            remote_conn_id: Some(remote_conn_id),
            state: ConnectionState::Initial,
            remote_addr,
            packet_number: 0,
            handshake_packet_number: 0,
            application_packet_number: 0,
            version: QUIC_VERSION,
            is_client: false,
            crypto,
            crypto_sent: LevelOffsets::zero(),
            crypto_streams: CryptoStreams::new(),
            tls_config: None,
            client_tls: None,
            server_tls: None,
        }
    }

    /// Hands out the next packet number of the Initial level.
    pub fn next_packet_number(&mut self) -> (pn: u64)
        requires
            old(self).packet_number < u64::MAX,
        ensures
            pn == old(self).packet_number,
            final(self)@ == old(self)@.after_packet(EncryptionLevel::Initial),
            final(self).tls_config == old(self).tls_config,
            final(self).client_tls == old(self).client_tls,
            final(self).server_tls == old(self).server_tls,
    {
        let pn = self.packet_number;
        self.packet_number = pn + 1;
        pn
    }

    /// The next packet number of `level`.
    pub fn packet_number_at(&self, level: EncryptionLevel) -> (pn: u64)
        ensures
            pn == self@.packet_numbers.spec_at(level),
    {
        match level {
            EncryptionLevel::Initial => self.packet_number,
            EncryptionLevel::Handshake => self.handshake_packet_number,
            EncryptionLevel::Application => self.application_packet_number,
        }
    }

    fn dest_conn_id(&self) -> (id: ConnectionId)
        ensures
            id@ == self@.dest_conn_id(),
    {
        match &self.remote_conn_id {
            Some(id) => id.duplicate(),
            None => ConnectionId::new(Vec::new()),
        }
    }

    fn header_for(&self, level: EncryptionLevel) -> (header: PacketHeader)
        ensures
            header@ == self@.header_for(level),
    {
        match level {
            EncryptionLevel::Initial => PacketHeader::Long(
                LongHeader {
                    packet_type: PacketType::Initial,
                    version: self.version,
                    dest_conn_id: self.dest_conn_id(),
                    src_conn_id: self.local_conn_id.duplicate(),
                    packet_number: self.packet_number,
                },
            ),
            EncryptionLevel::Handshake => PacketHeader::Long(
                LongHeader {
                    packet_type: PacketType::Handshake,
                    version: self.version,
                    dest_conn_id: self.dest_conn_id(),
                    src_conn_id: self.local_conn_id.duplicate(),
                    packet_number: self.handshake_packet_number,
                },
            ),
            EncryptionLevel::Application => PacketHeader::Short(
                ShortHeader {
                    dest_conn_id: self.dest_conn_id(),
                    packet_number: self.application_packet_number,
                },
            ),
        }
    }

    /// Encodes the header, encodes the frames one after the other, seals
    /// them under the keys of the header's level, and joins the two.
    fn encode_packet(&self, header: PacketHeader, frames: Vec<Frame>) -> (res: Result<
        Vec<u8>,
        ConnectionError,
    >)
        ensures
            match res {
                Ok(datagram) => {
                    &&& packet_bytes(
                        match header_level(header@) {
                            Some(level) => self@.keys.at(level),
                            None => None,
                        },
                        header@,
                        frame_views(frames@),
                    ) == Ok::<Seq<u8>, ConnectionError>(datagram@)
                    &&& readable_by_peer(
                        match header_level(header@) {
                            Some(level) => self@.keys.at(level),
                            None => None,
                        },
                        header@,
                        frame_views(frames@),
                        datagram@,
                    )
                },
                Err(e) => packet_bytes(
                    match header_level(header@) {
                        Some(level) => self@.keys.at(level),
                        None => None,
                    },
                    header@,
                    frame_views(frames@),
                ) == Err::<Seq<u8>, ConnectionError>(e),
            },
    {
        let mut buf = match header.to_bytes() {
            Ok(bytes) => bytes,
            Err(_) => {
                return Err(ConnectionError::PacketEncoding);
            },
        };
        let ghost views = frame_views(frames@);
        let mut payload: Vec<u8> = Vec::new();
        let mut i: usize = 0;
        while i < frames.len()
            invariant
                i <= frames@.len(),
                views == frame_views(frames@),
                header@.encodable(),
                buf@ == header@.encode(),
                frames_encodable(views.take(i as int)),
                payload@ == encode_frames(views.take(i as int)),
            decreases frames@.len() - i,
        {
            let encoded = match frames[i].to_bytes() {
                Ok(bytes) => bytes,
                Err(_) => {
                    return Err(ConnectionError::FrameEncoding);
                },
            };
            payload.extend_from_slice(encoded.as_slice());
            assert(views.take(i + 1).drop_last() =~= views.take(i as int));
            i += 1;
        }
        assert(views.take(i as int) =~= views);
        let (level, packet_number) = level_of_header(&header);
        let level = match level {
            Some(level) => level,
            None => {
                return Err(ConnectionError::InvalidState);
            },
        };
        match self.crypto.encrypt_packet(level, packet_number, buf.as_slice(), payload.as_slice()) {
            Ok(sealed) => {
                buf.extend_from_slice(chunk(&sealed));
                assert(buf@ == header@.encode() + bytes_content(sealed));
                assert(buf@.skip(header@.encode().len() as int) =~= bytes_content(sealed));
                Ok(buf)
            },
            Err(CryptoError::NoKeys) => {
                Err(ConnectionError::InvalidState)
            },
            Err(_) => {
                Err(ConnectionError::PacketEncoding)
            },
        }
    }

    /// Makes the next packet at `level` with `frames` in it and uses up the
    /// packet number.  Where no packet can be made, the connection is left
    /// as it was.
    pub fn create_packet(&mut self, level: EncryptionLevel, frames: Vec<Frame>) -> (res: Result<
        Vec<u8>,
        ConnectionError,
    >)
        ensures
            match res {
                Ok(datagram) => {
                    &&& old(self)@.packet(level, frame_views(frames@)) == Ok::<
                        Seq<u8>,
                        ConnectionError,
                    >(datagram@)
                    &&& readable_by_peer(
                        old(self)@.keys.at(level),
                        old(self)@.header_for(level),
                        frame_views(frames@),
                        datagram@,
                    )
                    &&& final(self)@ == old(self)@.after_packet(level)
                    &&& final(self)@.packet_numbers.spec_at(level) == old(
                        self,
                    )@.packet_numbers.spec_at(level) + 1
                },
                Err(e) => {
                    &&& old(self)@.packet(level, frame_views(frames@)) == Err::<
                        Seq<u8>,
                        ConnectionError,
                    >(e)
                    &&& final(self)@ == old(self)@
                },
            },
            final(self).tls_config == old(self).tls_config,
            final(self).client_tls == old(self).client_tls,
            final(self).server_tls == old(self).server_tls,
    {
        if self.is_closed() {
            return Err(ConnectionError::InvalidState);
        }
        let header = self.header_for(level);
        let packet_number = self.packet_number_at(level);
        match self.encode_packet(header, frames) {
            Ok(datagram) => {
                match level {
                    EncryptionLevel::Initial => {
                        self.packet_number = packet_number + 1;
                    },
                    EncryptionLevel::Handshake => {
                        self.handshake_packet_number = packet_number + 1;
                    },
                    EncryptionLevel::Application => {
                        self.application_packet_number = packet_number + 1;
                    },
                }
                Ok(datagram)
            },
            Err(e) => Err(e),
        }
    }

    /// Makes the next Initial packet with `frames` in it.
    pub fn create_initial_packet(&mut self, frames: Vec<Frame>) -> (res: Result<
        Vec<u8>,
        ConnectionError,
    >)
        ensures
            match res {
                Ok(datagram) => {
                    &&& old(self)@.packet(EncryptionLevel::Initial, frame_views(frames@)) == Ok::<
                        Seq<u8>,
                        ConnectionError,
                    >(datagram@)
                    &&& readable_by_peer(
                        old(self)@.keys.at(EncryptionLevel::Initial),
                        old(self)@.header_for(EncryptionLevel::Initial),
                        frame_views(frames@),
                        datagram@,
                    )
                    &&& final(self)@ == old(self)@.after_packet(EncryptionLevel::Initial)
                    &&& final(self).packet_number == old(self).packet_number + 1
                },
                Err(e) => {
                    &&& old(self)@.packet(EncryptionLevel::Initial, frame_views(frames@)) == Err::<
                        Seq<u8>,
                        ConnectionError,
                    >(e)
                    &&& final(self)@ == old(self)@
                },
            },
            final(self).tls_config == old(self).tls_config,
            final(self).client_tls == old(self).client_tls,
            final(self).server_tls == old(self).server_tls,
    {
        self.create_packet(EncryptionLevel::Initial, frames)
    }

    /// Makes the next Handshake packet with `frames` in it.
    pub fn create_handshake_packet(&mut self, frames: Vec<Frame>) -> (res: Result<
        Vec<u8>,
        ConnectionError,
    >)
        ensures
            match res {
                Ok(datagram) => {
                    &&& old(self)@.packet(EncryptionLevel::Handshake, frame_views(frames@))
                        == Ok::<Seq<u8>, ConnectionError>(datagram@)
                    &&& readable_by_peer(
                        old(self)@.keys.at(EncryptionLevel::Handshake),
                        old(self)@.header_for(EncryptionLevel::Handshake),
                        frame_views(frames@),
                        datagram@,
                    )
                    &&& final(self)@ == old(self)@.after_packet(EncryptionLevel::Handshake)
                    &&& final(self).handshake_packet_number == old(self).handshake_packet_number
                        + 1
                },
                Err(e) => {
                    &&& old(self)@.packet(EncryptionLevel::Handshake, frame_views(frames@))
                        == Err::<Seq<u8>, ConnectionError>(e)
                    &&& final(self)@ == old(self)@
                },
            },
            final(self).tls_config == old(self).tls_config,
            final(self).client_tls == old(self).client_tls,
            final(self).server_tls == old(self).server_tls,
    {
        self.create_packet(EncryptionLevel::Handshake, frames)
    }

    /// Puts the connection in `new_state`.  A connection that is put in
    /// Closed gives up its keys.
    pub fn handle_state_transition(&mut self, new_state: ConnectionState)
        ensures
            final(self)@ == old(self)@.in_state(new_state),
            final(self)@.wf(),
            final(self).tls_config == old(self).tls_config,
            final(self).client_tls == old(self).client_tls,
            final(self).server_tls == old(self).server_tls,
    {
        self.state = new_state;
        if self.is_closed() {
            self.crypto.discard_keys();
        }
    }

    pub fn is_closed(&self) -> (b: bool)
        ensures
            b == (self@.state == ConnectionState::Closed),
    {
        match self.state {
            ConnectionState::Closed => true,
            _ => false,
        }
    }

    /// Closes the connection from this end: one packet with a
    /// CONNECTION_CLOSE frame of error code 0 and the given reason, at the
    /// highest level that has keys, and the state becomes Closing.  Where no
    /// packet can be made, the connection is left as it was.
    pub fn close(&mut self, reason: String) -> (res: Result<Vec<u8>, ConnectionError>)
        ensures
            match res {
                Ok(datagram) => {
                    &&& old(self)@.close_packet(reason@) == Ok::<Seq<u8>, ConnectionError>(
                        datagram@,
                    )
                    &&& final(self)@ == old(self)@.after_close()
                    &&& final(self)@.state == ConnectionState::Closing
                },
                Err(e) => {
                    &&& old(self)@.close_packet(reason@) == Err::<Seq<u8>, ConnectionError>(e)
                    &&& final(self)@ == old(self)@
                },
            },
            old(self)@.wf() ==> final(self)@.wf(),
            final(self).tls_config == old(self).tls_config,
            final(self).client_tls == old(self).client_tls,
            final(self).server_tls == old(self).server_tls,
    {
        let level = match self.crypto.highest_level() {
            Some(level) => level,
            None => {
                return Err(ConnectionError::InvalidState);
            },
        };
        let frame = Frame::ConnectionClose { error_code: 0, trigger_frame_type: 0, reason };
        let mut frames: Vec<Frame> = Vec::new();
        frames.push(frame);
        assert(frame_views(frames@) =~= seq![ConnectionView::close_frame(reason@)]);
        match self.create_packet(level, frames) {
            Ok(datagram) => {
                let next = transition(self.state, ConnectionEvent::CloseRequested);
                self.handle_state_transition(next);
                Ok(datagram)
            },
            Err(e) => Err(e),
        }
    }
}

} // verus!
