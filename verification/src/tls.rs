//! The TLS 1.3 driver behind the handshake.
//!
//! The handshake itself is the `rustls` crate's.  The connection engine
//! sees it through four operations: drain what the handshake wants to send,
//! feed it what the peer sent, ask whether it is complete, and export keying
//! material.  What the first three return depends on everything that was fed
//! before, so nothing is stated of their results: the engine is verified for
//! whatever they return.

use rustls::{ClientConfig, ClientConnection, ServerConfig, ServerConnection};
use std::sync::Arc;
use vstd::prelude::*;

verus! {

#[verifier::external_type_specification]
#[verifier::external_body]
pub struct ExClientConfig(ClientConfig);

#[verifier::external_type_specification]
#[verifier::external_body]
pub struct ExServerConfig(ServerConfig);

#[verifier::external_type_specification]
#[verifier::external_body]
pub struct ExClientConnection(ClientConnection);

#[verifier::external_type_specification]
#[verifier::external_body]
pub struct ExServerConnection(ServerConnection);

#[verifier::external_type_specification]
#[verifier::external_body]
pub struct ExTlsLibraryError(rustls::Error);

#[verifier::external_type_specification]
#[verifier::external_body]
pub struct ExIoError(std::io::Error);

#[verifier::external_type_specification]
#[verifier::external_body]
pub struct ExServerName(rustls::ServerName);

/// Why the TLS side of a connection could not be set up.
#[derive(Debug, Clone, Copy, PartialEq, Eq)]
pub enum TlsError {
    /// No self-signed certificate could be generated.
    CertificateGeneration,
    /// The certificate or its key was refused.
    Configuration,
    /// The server name is neither a DNS name nor an IP address.
    InvalidServerName,
    /// The handshake state could not be created.
    ConnectionSetup,
}

/// `rcgen::generate_simple_self_signed`, then `Certificate::serialize_der`
/// and `Certificate::serialize_private_key_der`: a fresh certificate for the
/// given names and the private key that signed it, both in DER.
#[verifier::external_body]
fn self_signed_certificate(names: Vec<String>) -> Option<(Vec<u8>, Vec<u8>)> {
    let cert = rcgen::generate_simple_self_signed(names).ok()?;
    let cert_der = cert.serialize_der().ok()?;
    Some((cert_der, cert.serialize_private_key_der()))
}

/// `ClientConfig::builder` with safe defaults, no client authentication and
/// one trusted certificate; the configuration advertises `alpn`.
#[verifier::external_body]
fn client_config_trusting(certificate: Vec<u8>, alpn: Vec<Vec<u8>>) -> Option<ClientConfig> {
    let mut roots = rustls::RootCertStore::empty();
    roots.add(&rustls::Certificate(certificate)).ok()?;
    let mut config = ClientConfig::builder().with_safe_defaults().with_root_certificates(
        roots,
    ).with_no_client_auth();
    config.alpn_protocols = alpn;
    Some(config)
}

/// `ServerConfig::builder` with safe defaults, no client authentication and
/// a single certificate with its key; the configuration advertises `alpn`.
#[verifier::external_body]
fn server_config_with(certificate: Vec<u8>, key: Vec<u8>, alpn: Vec<Vec<u8>>) -> Option<
    ServerConfig,
> {
    let chain = vec![rustls::Certificate(certificate)];
    let mut config = ServerConfig::builder().with_safe_defaults().with_no_client_auth()
        .with_single_cert(chain, rustls::PrivateKey(key)).ok()?;
    config.alpn_protocols = alpn;
    Some(config)
}

/// Whether a text names a server: whether `ServerName::try_from` takes it
/// as a DNS name or as an IP address.
pub uninterp spec fn names_a_server(text: Seq<char>) -> bool;

/// `ServerName::try_from` on a text: the name, where the text is one.
#[verifier::external_body]
fn parse_server_name(text: &str) -> (name: Option<rustls::ServerName>)
    ensures
        name is Some <==> names_a_server(text@),
{
    rustls::ServerName::try_from(text).ok()
}

/// `ClientConnection::new`.
#[verifier::external_body]
fn client_connection(config: Arc<ClientConfig>, name: rustls::ServerName) -> Result<
    ClientConnection,
    rustls::Error,
> {
    ClientConnection::new(config, name)
}

/// `ServerConnection::new`.
#[verifier::external_body]
fn server_connection(config: Arc<ServerConfig>) -> Result<ServerConnection, rustls::Error> {
    ServerConnection::new(config)
}

/// `write_tls` on a client connection, into a fresh buffer.
#[verifier::external_body]
fn client_write_tls(connection: &mut ClientConnection) -> Result<Vec<u8>, std::io::Error> {
    let mut buf = Vec::new();
    connection.write_tls(&mut buf)?;
    Ok(buf)
}

/// `read_tls` on a client connection, from `data`.
#[verifier::external_body]
fn client_read_tls(connection: &mut ClientConnection, data: &[u8]) -> Result<
    usize,
    std::io::Error,
> {
    connection.read_tls(&mut std::io::Cursor::new(data))
}

/// `process_new_packets` on a client connection.
#[verifier::external_body]
fn client_process_new_packets(connection: &mut ClientConnection) -> Result<(), rustls::Error> {
    connection.process_new_packets().map(|_| ())
}

/// `is_handshaking` on a client connection.
#[verifier::external_body]
fn client_is_handshaking(connection: &ClientConnection) -> bool {
    connection.is_handshaking()
}

/// `write_tls` on a server connection, into a fresh buffer.
#[verifier::external_body]
fn server_write_tls(connection: &mut ServerConnection) -> Result<Vec<u8>, std::io::Error> {
    let mut buf = Vec::new();
    connection.write_tls(&mut buf)?;
    Ok(buf)
}

/// `read_tls` on a server connection, from `data`.
#[verifier::external_body]
fn server_read_tls(connection: &mut ServerConnection, data: &[u8]) -> Result<
    usize,
    std::io::Error,
> {
    connection.read_tls(&mut std::io::Cursor::new(data))
}

/// `process_new_packets` on a server connection.
#[verifier::external_body]
fn server_process_new_packets(connection: &mut ServerConnection) -> Result<(), rustls::Error> {
    connection.process_new_packets().map(|_| ())
}

/// `is_handshaking` on a server connection.
#[verifier::external_body]
fn server_is_handshaking(connection: &ServerConnection) -> bool {
    connection.is_handshaking()
}

/// `io::Error::new` of kind `Other` around a TLS error.
#[verifier::external_body]
fn io_error_from(error: rustls::Error) -> std::io::Error {
    std::io::Error::new(std::io::ErrorKind::Other, error)
}

/// The ALPN protocols that both ends advertise: `h3` alone.
pub open spec fn alpn_protocols() -> Seq<Seq<u8>> {
    seq![seq![0x68u8, 0x33u8]]
}

fn alpn() -> (protocols: Vec<Vec<u8>>)
    ensures
        protocols.deep_view() == alpn_protocols(),
{
    let mut h3: Vec<u8> = Vec::new();
    h3.push(0x68);
    h3.push(0x33);
    let mut protocols: Vec<Vec<u8>> = Vec::new();
    protocols.push(h3);
    assert(protocols.deep_view() =~~= alpn_protocols());
    protocols
}

/// The keying material that `export_keying_material` writes: byte `i` is
/// byte `i` of the label, taken cyclically, XORed with the low byte of `i`.
pub open spec fn exported_material(label: Seq<u8>, length: nat) -> Seq<u8> {
    Seq::new(length, |i: int| label[i % (label.len() as int)] ^ ((i % 0x100) as u8))
}

/// Fills `out` with keying material for `label`.
fn fill_keying_material(out: &mut [u8], label: &[u8])
    requires
        label@.len() > 0 || old(out)@.len() == 0,
    ensures
        final(out)@ == exported_material(label@, old(out)@.len()),
{
    let n = out.len();
    let mut i: usize = 0;
    while i < n
        invariant
            i <= n,
            n == out@.len(),
            n == old(out)@.len(),
            label@.len() > 0 || n == 0,
            forall|j: int| 0 <= j < i ==> out@[j] == exported_material(label@, n as nat)[j],
        decreases n - i,
    {
        let byte = label[i % label.len()] ^ ((i % 0x100) as u8);
        out[i] = byte;
        i += 1;
    }
}

/// The configurations that the client and the server side share.
#[derive(Debug)]
pub struct TlsConfig {
    pub client_config: Arc<ClientConfig>,
    pub server_config: Arc<ServerConfig>,
}

impl TlsConfig {
    /// A pair of configurations around one fresh self-signed certificate for
    /// `localhost` and `127.0.0.1`: the server presents it and the client
    /// trusts it.  Both advertise `h3`.
    pub fn new() -> (res: Result<Self, TlsError>)
        ensures
            res matches Err(e) ==> e == TlsError::CertificateGeneration || e
                == TlsError::Configuration,
    {
        let (certificate, key) = match Self::generate_self_signed_cert() {
            Ok(pair) => pair,
            Err(e) => {
                return Err(e);
            },
        };
        let client_config = match Self::create_client_config(certificate.clone()) {
            Ok(config) => config,
            Err(e) => {
                return Err(e);
            },
        };
        let server_config = match Self::create_server_config(certificate, key) {
            Ok(config) => config,
            Err(e) => {
                return Err(e);
            },
        };
        Ok(
            TlsConfig {
                client_config: Arc::new(client_config),
                server_config: Arc::new(server_config),
            },
        )
    }

    /// The client's configuration: it trusts `certificate` and advertises
    /// `h3`.  A certificate that is refused is a configuration error.
    fn create_client_config(certificate: Vec<u8>) -> (res: Result<ClientConfig, TlsError>)
        ensures
            res matches Err(e) ==> e == TlsError::Configuration,
    {
        match client_config_trusting(certificate, alpn()) {
            Some(config) => Ok(config),
            None => Err(TlsError::Configuration),
        }
    }

    /// The server's configuration: it presents `certificate`, signs with
    /// `key` and advertises `h3`.  A key that is refused is a configuration
    /// error.
    fn create_server_config(certificate: Vec<u8>, key: Vec<u8>) -> (res: Result<
        ServerConfig,
        TlsError,
    >)
        ensures
            res matches Err(e) ==> e == TlsError::Configuration,
    {
        match server_config_with(certificate, key, alpn()) {
            Some(config) => Ok(config),
            None => Err(TlsError::Configuration),
        }
    }

    /// A fresh self-signed certificate for `localhost` and `127.0.0.1`, and
    /// the key that signed it, both in DER.
    fn generate_self_signed_cert() -> (res: Result<(Vec<u8>, Vec<u8>), TlsError>)
        ensures
            res matches Err(e) ==> e == TlsError::CertificateGeneration,
    {
        let mut subject_alt_names: Vec<String> = Vec::new();
        subject_alt_names.push("localhost".to_string());
        subject_alt_names.push("127.0.0.1".to_string());
        match self_signed_certificate(subject_alt_names) {
            Some(pair) => Ok(pair),
            None => Err(TlsError::CertificateGeneration),
        }
    }
}

/// The client side of a handshake.
#[derive(Debug)]
pub struct QuicClientTls {
    connection: ClientConnection,
}

impl QuicClientTls {
    /// The client side of a handshake with the server that `server_name`
    /// names.  A text that names no server is refused as such; any other
    /// failure is that of setting up the handshake state.
    pub fn new(config: Arc<ClientConfig>, server_name: &str) -> (res: Result<Self, TlsError>)
        ensures
            !names_a_server(server_name@) ==> res is Err && res.unwrap_err()
                == TlsError::InvalidServerName,
            names_a_server(server_name@) ==> (res matches Err(e) ==> e
                == TlsError::ConnectionSetup),
    {
        Self::for_server(config, parse_server_name(server_name))
    }

    /// The client side of a handshake with the server of the given name,
    /// where there is a name.
    pub fn for_server(config: Arc<ClientConfig>, name: Option<rustls::ServerName>) -> (res: Result<
        Self,
        TlsError,
    >)
        ensures
            name is None ==> res is Err && res.unwrap_err() == TlsError::InvalidServerName,
            name is Some ==> (res matches Err(e) ==> e == TlsError::ConnectionSetup),
    {
        match name {
            None => Err(TlsError::InvalidServerName),
            Some(name) => match client_connection(config, name) {
                Ok(connection) => Ok(QuicClientTls { connection }),
                Err(_) => Err(TlsError::ConnectionSetup),
            },
        }
    }

    /// Drains the handshake bytes that are waiting to be sent; empty where
    /// there are none.
    pub fn get_handshake_data(&mut self) -> Result<Vec<u8>, std::io::Error> {
        client_write_tls(&mut self.connection)
    }

    /// Feeds handshake bytes that the peer sent.
    pub fn process_handshake_data(&mut self, data: &[u8]) -> Result<(), std::io::Error> {
        match client_read_tls(&mut self.connection, data) {
            Ok(_) => {},
            Err(e) => {
                return Err(e);
            },
        }
        match client_process_new_packets(&mut self.connection) {
            Ok(()) => Ok(()),
            Err(e) => Err(io_error_from(e)),
        }
    }

    pub fn is_handshake_complete(&self) -> bool {
        !client_is_handshaking(&self.connection)
    }

    /// Fills `out` with keying material for `label`.  The material is a
    /// function of the label alone; the context does not enter into it.
    pub fn export_keying_material(
        &self,
        out: &mut [u8],
        label: &[u8],
        context: Option<&[u8]>,
    ) -> (res: Result<(), rustls::Error>)
        requires
            label@.len() > 0 || old(out)@.len() == 0,
        ensures
            res is Ok,
            final(out)@ == exported_material(label@, old(out)@.len()),
    {
        fill_keying_material(out, label);
        Ok(())
    }
}

/// The server side of a handshake.
#[derive(Debug)]
pub struct QuicServerTls {
    connection: ServerConnection,
}

impl QuicServerTls {
    /// The server side of a handshake.  The only failure is that of setting
    /// up the handshake state.
    pub fn new(config: Arc<ServerConfig>) -> (res: Result<Self, TlsError>)
        ensures
            res matches Err(e) ==> e == TlsError::ConnectionSetup,
    {
        match server_connection(config) {
            Ok(connection) => Ok(QuicServerTls { connection }),
            Err(_) => Err(TlsError::ConnectionSetup),
        }
    }

    /// Drains the handshake bytes that are waiting to be sent; empty where
    /// there are none.
    pub fn get_handshake_data(&mut self) -> Result<Vec<u8>, std::io::Error> {
        server_write_tls(&mut self.connection)
    }

    /// Feeds handshake bytes that the peer sent.
    pub fn process_handshake_data(&mut self, data: &[u8]) -> Result<(), std::io::Error> {
        match server_read_tls(&mut self.connection, data) {
            Ok(_) => {},
            Err(e) => {
                return Err(e);
            },
        }
        match server_process_new_packets(&mut self.connection) {
            Ok(()) => Ok(()),
            Err(e) => Err(io_error_from(e)),
        }
    }

    pub fn is_handshake_complete(&self) -> bool {
        !server_is_handshaking(&self.connection)
    }

    /// Fills `out` with keying material for `label`.  The material is a
    /// function of the label alone; the context does not enter into it.
    pub fn export_keying_material(
        &self,
        out: &mut [u8],
        label: &[u8],
        context: Option<&[u8]>,
    ) -> (res: Result<(), rustls::Error>)
        requires
            label@.len() > 0 || old(out)@.len() == 0,
        ensures
            res is Ok,
            final(out)@ == exported_material(label@, old(out)@.len()),
    {
        fill_keying_material(out, label);
        Ok(())
    }
}

} // verus!
