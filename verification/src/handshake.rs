//! The handshake: how a connection drives its TLS driver and acts upon what
//! the driver does.
//!
//! The data of CRYPTO frames joins the stream of its level; what the stream
//! hands on is fed to the driver; what the driver wants sent leaves in a
//! CRYPTO frame at the highest level that has keys; and the milestones of the
//! handshake install the keys of the next level and move the state on.  What
//! the driver does is not known in advance, so every function here says what
//! it does for each thing that the driver may do.

use crate::buffer::{chunk, copy_from_slice};
use crate::connection::{
    frame_views, next_state, transition, Connection, ConnectionError,
    ConnectionEvent, ConnectionState, ConnectionView,
};
use crate::crypto::{application_keys, handshake_keys, EncryptionLevel, SECRET_LEN};
use crate::frame::{Frame, FrameView};
use crate::tls::{exported_material, QuicClientTls, QuicServerTls, TlsConfig};
use crate::varint::VARINT_LIMIT;
use std::sync::Arc;
use vstd::prelude::*;

verus! {

/// What the TLS driver did with the handshake bytes it was fed.
#[derive(Debug)]
pub enum TlsOutcome {
    /// The connection has no TLS driver for its role.
    NotSetUp,
    /// The driver refused the bytes, or could not say what to send next.
    Failed,
    /// The driver took the bytes.  It wants `output` sent, which may be
    /// empty, and `complete` says whether the handshake is now complete.
    Progress { output: Vec<u8>, complete: bool },
}

/// What the TLS driver did, with its output as a byte sequence.
pub enum TlsOutcomeView {
    NotSetUp,
    Failed,
    Progress { output: Seq<u8>, complete: bool },
}

impl View for TlsOutcome {
    type V = TlsOutcomeView;

    open spec fn view(&self) -> TlsOutcomeView {
        match self {
            TlsOutcome::NotSetUp => TlsOutcomeView::NotSetUp,
            TlsOutcome::Failed => TlsOutcomeView::Failed,
            TlsOutcome::Progress { output, complete } => TlsOutcomeView::Progress {
                output: output@,
                complete: *complete,
            },
        }
    }
}

/// The label under which the handshake secret is exported.
pub open spec fn handshake_secret_label() -> Seq<u8> {
    "quic hs secret"@.map_values(|c: char| c as u8)
}

/// The label under which the application secret is exported.
pub open spec fn application_secret_label() -> Seq<u8> {
    "quic ap secret"@.map_values(|c: char| c as u8)
}

/// The error code of the CONNECTION_CLOSE that reports a failed handshake:
/// 0x01 in the high byte and the TLS alert `handshake_failure` in the low.
pub const TLS_FAILURE_ERROR_CODE: u64 = 0x0128;

impl ConnectionView {
    /// The CRYPTO frame that carries `output` at `level`: it starts where
    /// the bytes sent so far at that level end.
    pub open spec fn crypto_frame(self, level: EncryptionLevel, output: Seq<u8>) -> FrameView {
        FrameView::Crypto { offset: self.crypto_sent.spec_at(level), data: output }
    }

    /// The packet that carries handshake bytes, at the highest level that
    /// has keys; no packet for no bytes.
    pub open spec fn handshake_packet(self, output: Seq<u8>) -> Result<
        Option<Seq<u8>>,
        ConnectionError,
    > {
        if output.len() == 0 {
            Ok(None)
        } else {
            match self.keys.highest() {
                None => Err(ConnectionError::InvalidState),
                Some(level) => match self.packet(level, seq![self.crypto_frame(level, output)]) {
                    Ok(datagram) => Ok(Some(datagram)),
                    Err(e) => Err(e),
                },
            }
        }
    }

    /// This connection after it has sent handshake bytes.
    pub open spec fn after_handshake_packet(self, output: Seq<u8>) -> ConnectionView {
        if output.len() == 0 {
            self
        } else {
            match self.keys.highest() {
                None => self,
                Some(level) => ConnectionView {
                    crypto_sent: self.crypto_sent.spec_with(
                        level,
                        (self.crypto_sent.spec_at(level) + output.len()) as u64,
                    ),
                    ..self.after_packet(level)
                },
            }
        }
    }

    /// This connection after the handshake milestones that it has reached
    /// are acted upon.  In state Initial the Handshake keys are derived from
    /// the exported handshake secret and installed, and the state becomes
    /// Handshake.  In state Handshake, once the handshake is complete, the
    /// Application keys are installed likewise and the state becomes
    /// Established.  Both may happen at once.  Without a TLS driver there is
    /// no secret to export and nothing happens.
    pub open spec fn after_milestones(self, complete: bool) -> ConnectionView {
        let first = if self.state == ConnectionState::Initial && self.has_tls {
            match handshake_keys(
                exported_material(handshake_secret_label(), SECRET_LEN as nat),
                self.is_client,
            ) {
                Some(keys) => ConnectionView {
                    state: next_state(self.state, ConnectionEvent::KeysInstalled),
                    keys: self.keys.with(EncryptionLevel::Handshake, Some(keys)),
                    ..self
                },
                None => self,
            }
        } else {
            self
        };
        if complete && first.state == ConnectionState::Handshake && first.has_tls {
            match application_keys(
                exported_material(application_secret_label(), SECRET_LEN as nat),
                first.is_client,
            ) {
                Some(keys) => ConnectionView {
                    state: next_state(first.state, ConnectionEvent::HandshakeComplete),
                    keys: first.keys.with(EncryptionLevel::Application, Some(keys)),
                    ..first
                },
                None => first,
            }
        } else {
            first
        }
    }

    /// This connection and what it answers after the TLS driver was fed.
    pub open spec fn after_tls(self, outcome: TlsOutcomeView) -> (
        ConnectionView,
        Result<Option<Seq<u8>>, ConnectionError>,
    ) {
        match outcome {
            TlsOutcomeView::NotSetUp => (self, Ok(None)),
            TlsOutcomeView::Failed => (self, Err(ConnectionError::TlsHandshakeFailed)),
            TlsOutcomeView::Progress { output, complete } => match self.handshake_packet(output) {
                Err(e) => (self, Err(e)),
                Ok(packet) => (
                    self.after_handshake_packet(output).after_milestones(complete),
                    Ok(packet),
                ),
            },
        }
    }

    /// This connection and what it answers after a frame was handed to it
    /// as handshake data of `level`.  A connection without a TLS driver
    /// passes the frame by.  Otherwise the data of a CRYPTO frame joins the
    /// stream of the level, and what the stream then hands on, if anything,
    /// is fed to the TLS driver.
    pub open spec fn after_crypto_frame(
        self,
        level: EncryptionLevel,
        frame: FrameView,
        outcome: TlsOutcomeView,
    ) -> (ConnectionView, Result<Option<Seq<u8>>, ConnectionError>) {
        match frame {
            FrameView::Crypto { offset, data } => if !self.has_tls {
                (self, Ok(None))
            } else {
                let (stream, bytes) = self.crypto_streams.at(level).accept(offset, data);
                let heard = ConnectionView {
                    crypto_streams: self.crypto_streams.with(level, stream),
                    ..self
                };
                if bytes.len() == 0 {
                    (heard, Ok(None))
                } else {
                    heard.after_tls(outcome)
                }
            },
            _ => (self, Ok(None)),
        }
    }
}

/// What a function that may answer with one packet returned, with the
/// packet as a byte sequence.
pub open spec fn answer_view(res: Result<Option<Vec<u8>>, ConnectionError>) -> Result<
    Option<Seq<u8>>,
    ConnectionError,
> {
    match res {
        Ok(Some(datagram)) => Ok(Some(datagram@)),
        Ok(None) => Ok(None),
        Err(e) => Err(e),
    }
}

/// `Arc::clone`: a second handle on the same value.
#[verifier::external_body]
fn share<T>(handle: &Arc<T>) -> (other: Arc<T>)
    ensures
        other == *handle,
{
    Arc::clone(handle)
}

impl Connection {
    /// Sets up the TLS driver of this connection's role from `tls_config`.
    /// The client side names its peer `localhost`.
    pub fn setup_tls(&mut self, tls_config: Arc<TlsConfig>) -> (res: Result<(), ConnectionError>)
        ensures
            match res {
                Ok(()) => final(self)@ == (ConnectionView { has_tls: true, ..old(self)@ }),
                Err(e) => e == ConnectionError::TlsSetupFailed && final(self)@ == old(self)@,
            },
            final(self).tls_config == Some(tls_config),
    {
        if self.is_client {
            match QuicClientTls::new(share(&tls_config.client_config), "localhost") {
                Ok(client_tls) => {
                    self.client_tls = Some(client_tls);
                    self.tls_config = Some(tls_config);
                    Ok(())
                },
                Err(_) => {
                    self.tls_config = Some(tls_config);
                    Err(ConnectionError::TlsSetupFailed)
                },
            }
        } else {
            match QuicServerTls::new(share(&tls_config.server_config)) {
                Ok(server_tls) => {
                    self.server_tls = Some(server_tls);
                    self.tls_config = Some(tls_config);
                    Ok(())
                },
                Err(_) => {
                    self.tls_config = Some(tls_config);
                    Err(ConnectionError::TlsSetupFailed)
                },
            }
        }
    }

    /// Whether the TLS driver of this connection's role is set up.
    pub fn has_tls(&self) -> (b: bool)
        ensures
            b == self@.has_tls,
    {
        if self.is_client {
            self.client_tls.is_some()
        } else {
            self.server_tls.is_some()
        }
    }

    /// Whether the TLS driver of this connection's role reports that the
    /// handshake is complete.  Without a driver it is not.
    pub fn is_tls_handshake_complete(&self) -> (complete: bool)
        ensures
            complete ==> self@.has_tls,
    {
        if self.is_client {
            match &self.client_tls {
                Some(tls) => tls.is_handshake_complete(),
                None => false,
            }
        } else {
            match &self.server_tls {
                Some(tls) => tls.is_handshake_complete(),
                None => false,
            }
        }
    }

    /// Drains what the TLS driver wants to send.
    fn tls_output(&mut self) -> (res: Option<Result<Vec<u8>, ()>>)
        ensures
            final(self)@ == old(self)@,
            res is Some <==> old(self)@.has_tls,
    {
        if self.is_client {
            match &mut self.client_tls {
                Some(tls) => match tls.get_handshake_data() {
                    Ok(output) => Some(Ok(output)),
                    Err(_) => Some(Err(())),
                },
                None => None,
            }
        } else {
            match &mut self.server_tls {
                Some(tls) => match tls.get_handshake_data() {
                    Ok(output) => Some(Ok(output)),
                    Err(_) => Some(Err(())),
                },
                None => None,
            }
        }
    }

    /// Feeds the TLS driver.
    fn tls_input(&mut self, data: &[u8]) -> (res: Option<bool>)
        ensures
            final(self)@ == old(self)@,
            res is Some <==> old(self)@.has_tls,
    {
        if self.is_client {
            match &mut self.client_tls {
                Some(tls) => Some(tls.process_handshake_data(data).is_ok()),
                None => None,
            }
        } else {
            match &mut self.server_tls {
                Some(tls) => Some(tls.process_handshake_data(data).is_ok()),
                None => None,
            }
        }
    }

    /// Feeds the TLS driver, asks whether the handshake is complete, and
    /// drains what it wants to send: once, in that order.
    fn drive_tls(&mut self, data: &[u8]) -> (outcome: TlsOutcome)
        ensures
            final(self)@ == old(self)@,
            outcome is NotSetUp <==> !old(self)@.has_tls,
    {
        match self.tls_input(data) {
            None => TlsOutcome::NotSetUp,
            Some(false) => TlsOutcome::Failed,
            Some(true) => {
                let complete = self.is_tls_handshake_complete();
                match self.tls_output() {
                    Some(Ok(output)) => TlsOutcome::Progress { output, complete },
                    _ => TlsOutcome::Failed,
                }
            },
        }
    }

    /// The keying material that the TLS driver exports under `label`.
    fn export_secret(&self, label: &[u8]) -> (secret: Option<Vec<u8>>)
        requires
            label@.len() > 0,
        ensures
            secret is Some <==> self@.has_tls,
            secret is Some ==> secret.unwrap()@ == exported_material(label@, SECRET_LEN as nat),
    {
        let mut out: Vec<u8> = Vec::new();
        while out.len() < SECRET_LEN
            invariant
                out@.len() <= SECRET_LEN,
            decreases SECRET_LEN - out@.len(),
        {
            out.push(0);
        }
        if self.is_client {
            match &self.client_tls {
                Some(tls) => {
                    let _ = tls.export_keying_material(out.as_mut_slice(), label, None);
                    Some(out)
                },
                None => None,
            }
        } else {
            match &self.server_tls {
                Some(tls) => {
                    let _ = tls.export_keying_material(out.as_mut_slice(), label, None);
                    Some(out)
                },
                None => None,
            }
        }
    }

    /// Sends handshake bytes: one packet at the highest level that has keys,
    /// with one CRYPTO frame that carries `output` at the offset that the
    /// level has reached.  Nothing is sent for no bytes.  Where no packet
    /// can be made, the connection is left as it was.
    pub fn send_handshake_data(&mut self, output: Vec<u8>) -> (res: Result<
        Option<Vec<u8>>,
        ConnectionError,
    >)
        ensures
            answer_view(res) == old(self)@.handshake_packet(output@),
            res is Ok ==> final(self)@ == old(self)@.after_handshake_packet(output@),
            res is Err ==> final(self)@ == old(self)@,
            final(self).tls_config == old(self).tls_config,
            final(self).client_tls == old(self).client_tls,
            final(self).server_tls == old(self).server_tls,
    {
        let length = output.len();
        if length == 0 {
            return Ok(None);
        }
        let level = match self.crypto.highest_level() {
            Some(level) => level,
            None => {
                return Err(ConnectionError::InvalidState);
            },
        };
        let offset = self.crypto_sent.at(level);
        let frame = Frame::Crypto { offset, data: copy_from_slice(output.as_slice()) };
        let mut frames: Vec<Frame> = Vec::new();
        frames.push(frame);
        assert(frame_views(frames@) =~= seq![old(self)@.crypto_frame(level, output@)]);
        match self.create_packet(level, frames) {
            Ok(datagram) => {
                assert(offset < VARINT_LIMIT && length < VARINT_LIMIT);
                self.crypto_sent = self.crypto_sent.with(level, offset + length as u64);
                Ok(Some(datagram))
            },
            Err(e) => Err(e),
        }
    }

    /// Acts upon the handshake milestones that were reached.
    fn advance_handshake(&mut self, complete: bool)
        ensures
            final(self)@ == old(self)@.after_milestones(complete),
    {
        if self.state == ConnectionState::Initial {
            let label = handshake_label();
            match self.export_secret(label.as_slice()) {
                Some(secret) => {
                    match self.crypto.setup_handshake_keys(secret.as_slice(), self.is_client) {
                        Ok(()) => {
                            self.state = transition(self.state, ConnectionEvent::KeysInstalled);
                        },
                        Err(_) => {},
                    }
                },
                None => {},
            }
        }
        if complete && self.state == ConnectionState::Handshake {
            let label = application_label();
            match self.export_secret(label.as_slice()) {
                Some(secret) => {
                    match self.crypto.setup_application_keys(secret.as_slice(), self.is_client) {
                        Ok(()) => {
                            self.state = transition(
                                self.state,
                                ConnectionEvent::HandshakeComplete,
                            );
                        },
                        Err(_) => {},
                    }
                },
                None => {},
            }
        }
    }

    /// Acts upon what the TLS driver did with what it was fed: sends what
    /// it wants sent and acts upon the milestones reached.
    pub fn apply_tls_outcome(&mut self, outcome: TlsOutcome) -> (res: Result<
        Option<Vec<u8>>,
        ConnectionError,
    >)
        ensures
            (final(self)@, answer_view(res)) == old(self)@.after_tls(outcome@),
    {
        match outcome {
            TlsOutcome::NotSetUp => Ok(None),
            TlsOutcome::Failed => Err(ConnectionError::TlsHandshakeFailed),
            TlsOutcome::Progress { output, complete } => {
                match self.send_handshake_data(output) {
                    Err(e) => Err(e),
                    Ok(packet) => {
                        self.advance_handshake(complete);
                        Ok(packet)
                    },
                }
            },
        }
    }
}

fn handshake_label() -> (label: Vec<u8>)
    ensures
        label@ == handshake_secret_label(),
        label@.len() > 0,
{
    proof {
        reveal_strlit("quic hs secret");
    }
    ascii_bytes("quic hs secret")
}

fn application_label() -> (label: Vec<u8>)
    ensures
        label@ == application_secret_label(),
        label@.len() > 0,
{
    proof {
        reveal_strlit("quic ap secret");
    }
    ascii_bytes("quic ap secret")
}

/// The bytes of a text, one for each of its characters.
fn ascii_bytes(text: &str) -> (bytes: Vec<u8>)
    requires
        text.is_ascii(),
    ensures
        bytes@ == text@.map_values(|c: char| c as u8),
{
    let mut bytes: Vec<u8> = Vec::new();
    let n = text.unicode_len();
    let mut i: usize = 0;
    while i < n
        invariant
            i <= n,
            n == text@.len(),
            text.is_ascii(),
            bytes@ == text@.take(i as int).map_values(|c: char| c as u8),
        decreases n - i,
    {
        bytes.push(text.get_ascii(i));
        i += 1;
    }
    bytes
}

impl Connection {
    /// Starts the handshake: sends what the TLS driver wants sent first.
    /// Without a driver, or where the driver has nothing to send, there is
    /// nothing to start.
    pub fn start_tls_handshake(&mut self) -> (res: Result<Vec<u8>, ConnectionError>)
        ensures
            !old(self)@.has_tls ==> res is Err && res.unwrap_err() == ConnectionError::TlsNotSetup
                && final(self)@ == old(self)@,
            old(self)@.has_tls ==> exists|output: Option<Seq<u8>>|
                {
                    &&& #[trigger] first_flight(old(self)@, output) == match res {
                        Ok(datagram) => Ok::<Seq<u8>, ConnectionError>(datagram@),
                        Err(e) => Err::<Seq<u8>, ConnectionError>(e),
                    }
                    &&& final(self)@ == (if res is Ok {
                        old(self)@.after_handshake_packet(output.unwrap())
                    } else {
                        old(self)@
                    })
                },
    {
        let ghost start = self@;
        match self.tls_output() {
            None => Err(ConnectionError::TlsNotSetup),
            Some(Err(_)) => {
                assert(first_flight(start, None) == Err::<Seq<u8>, ConnectionError>(
                    ConnectionError::TlsHandshakeFailed,
                ));
                Err(ConnectionError::TlsHandshakeFailed)
            },
            Some(Ok(output)) => {
                let ghost bytes = output@;
                let res = match self.send_handshake_data(output) {
                    Ok(Some(datagram)) => Ok(datagram),
                    Ok(None) => Err(ConnectionError::TlsNotSetup),
                    Err(e) => Err(e),
                };
                assert(first_flight(start, Some(bytes)) == match res {
                    Ok(datagram) => Ok::<Seq<u8>, ConnectionError>(datagram@),
                    Err(e) => Err::<Seq<u8>, ConnectionError>(e),
                });
                res
            },
        }
    }

    /// Hands the data of a CRYPTO frame of a packet of `level` to the stream
    /// of that level, feeds the TLS driver what the stream hands on, and acts
    /// upon what the driver does.  Any other frame is passed by, and so is
    /// every frame where there is no TLS driver.
    pub fn process_crypto_frame_at(&mut self, level: EncryptionLevel, crypto_frame: &Frame) -> (res:
        Result<Option<Vec<u8>>, ConnectionError>)
        ensures
            exists|outcome: TlsOutcomeView|
                {
                    &&& (outcome is NotSetUp <==> !old(self)@.has_tls)
                    &&& #[trigger] old(self)@.after_crypto_frame(level, crypto_frame@, outcome)
                        == (final(self)@, answer_view(res))
                },
    {
        let ghost start = self@;
        let ghost idle = if start.has_tls {
            TlsOutcomeView::Failed
        } else {
            TlsOutcomeView::NotSetUp
        };
        match crypto_frame {
            Frame::Crypto { offset, data } => {
                if !self.has_tls() {
                    assert(start.after_crypto_frame(level, crypto_frame@, idle) == (
                        start,
                        Ok::<Option<Seq<u8>>, ConnectionError>(None),
                    ));
                    return Ok(None);
                }
                let bytes = self.crypto_streams.accept(level, *offset, chunk(data));
                if bytes.len() == 0 {
                    assert(start.after_crypto_frame(level, crypto_frame@, idle) == (
                        self@,
                        Ok::<Option<Seq<u8>>, ConnectionError>(None),
                    ));
                    return Ok(None);
                }
                let outcome = self.drive_tls(bytes.as_slice());
                let ghost seen = outcome@;
                let res = self.apply_tls_outcome(outcome);
                assert(start.after_crypto_frame(level, crypto_frame@, seen) == (
                    self@,
                    answer_view(res),
                ));
                res
            },
            _ => {
                assert(start.after_crypto_frame(level, crypto_frame@, idle) == (
                    start,
                    Ok::<Option<Seq<u8>>, ConnectionError>(None),
                ));
                Ok(None)
            },
        }
    }

    /// Hands a CRYPTO frame to the TLS driver as handshake data of the
    /// highest level that has keys.  A connection without keys passes every
    /// frame by.
    pub fn process_crypto_frame(&mut self, crypto_frame: &Frame) -> (res: Result<
        Option<Vec<u8>>,
        ConnectionError,
    >)
        ensures
            old(self)@.keys.highest() is None ==> res is Ok && res.unwrap() is None && final(self)@
                == old(self)@,
            old(self)@.keys.highest() is Some ==> exists|outcome: TlsOutcomeView|
                {
                    &&& (outcome is NotSetUp <==> !old(self)@.has_tls)
                    &&& #[trigger] old(self)@.after_crypto_frame(
                        old(self)@.keys.highest().unwrap(),
                        crypto_frame@,
                        outcome,
                    ) == (final(self)@, answer_view(res))
                },
    {
        match self.crypto.highest_level() {
            None => Ok(None),
            Some(level) => self.process_crypto_frame_at(level, crypto_frame),
        }
    }
}

/// The packet that starts the handshake, for what the TLS driver wants sent
/// first: `None` where the driver could not say.
pub open spec fn first_flight(connection: ConnectionView, output: Option<Seq<u8>>) -> Result<
    Seq<u8>,
    ConnectionError,
> {
    match output {
        None => Err(ConnectionError::TlsHandshakeFailed),
        Some(bytes) => match connection.handshake_packet(bytes) {
            Ok(Some(datagram)) => Ok(datagram),
            Ok(None) => Err(ConnectionError::TlsNotSetup),
            Err(e) => Err(e),
        },
    }
}

} // verus!
