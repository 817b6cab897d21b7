//! Keys for each encryption level, and the sealing and opening of packets.
//!
//! Each level has a key, an IV and a header protection key for each
//! direction.  A packet is sealed with AES-128-GCM under a nonce made of the
//! IV and the packet number, with the encoded header as associated data.
//! The cipher and the key derivation are the `ring` crate's: what they
//! compute is named here, not defined.

use crate::buffer::{bytes_content, copy_from_slice};
use crate::varint::{be_bytes_8, be_value_8, push_be_u64, read_be_u64};
use ring::aead::{Aad, LessSafeKey, Nonce, UnboundKey, AES_128_GCM};
use ring::hkdf::{Salt, HKDF_SHA256};
use vstd::prelude::*;
use vstd::utf8::encode_utf8;

verus! {

/// Length of an AES-128-GCM key.
pub const KEY_LEN: usize = 16;

/// Length of an IV, and of the nonce made from it.
pub const IV_LEN: usize = 12;

/// Length of a header protection key.
pub const HP_KEY_LEN: usize = 16;

/// Length of the authentication tag that sealing appends.
pub const TAG_LEN: usize = 16;

/// Length of a traffic secret, and of one block of HKDF-SHA256 output.
pub const SECRET_LEN: usize = 32;

#[derive(Debug, Clone, Copy, PartialEq, Eq, Hash)]
pub enum EncryptionLevel {
    Initial,
    Handshake,
    Application,
}

#[derive(Debug)]
pub enum CryptoError {
    NoKeys,
    EncryptionFailed,
    DecryptionFailed,
    KeyDerivationFailed,
    HkdfError,
}

impl CryptoError {
    /// The message that describes this error.
    pub fn to_string(&self) -> (s: String)
        ensures
            s@ == match self {
                CryptoError::NoKeys => "No cryptographic keys available"@,
                CryptoError::EncryptionFailed => "Packet encryption failed"@,
                CryptoError::DecryptionFailed => "Packet decryption failed"@,
                CryptoError::KeyDerivationFailed => "Key derivation failed"@,
                CryptoError::HkdfError => "HKDF operation failed"@,
            },
    {
        match self {
            CryptoError::NoKeys => "No cryptographic keys available".to_string(),
            CryptoError::EncryptionFailed => "Packet encryption failed".to_string(),
            CryptoError::DecryptionFailed => "Packet decryption failed".to_string(),
            CryptoError::KeyDerivationFailed => "Key derivation failed".to_string(),
            CryptoError::HkdfError => "HKDF operation failed".to_string(),
        }
    }
}

/// What AES-128-GCM sealing gives for a key, a nonce, associated data and a
/// plaintext: the ciphertext followed by the tag, or nothing where the key
/// or the plaintext is refused.
pub uninterp spec fn aes_128_gcm_seal(
    key: Seq<u8>,
    nonce: Seq<u8>,
    aad: Seq<u8>,
    plaintext: Seq<u8>,
) -> Option<Seq<u8>>;

/// What AES-128-GCM opening gives for a key, a nonce, associated data and a
/// sealed text: the plaintext, or nothing where the tag does not match.
pub uninterp spec fn aes_128_gcm_open(
    key: Seq<u8>,
    nonce: Seq<u8>,
    aad: Seq<u8>,
    sealed: Seq<u8>,
) -> Option<Seq<u8>>;

/// The first 32 bytes of HKDF-SHA256 output for a salt, input keying
/// material and info.
pub uninterp spec fn hkdf_sha256(salt: Seq<u8>, ikm: Seq<u8>, info: Seq<u8>) -> Option<Seq<u8>>;

/// `LessSafeKey::seal_in_place_append_tag` under an AES-128-GCM key made of
/// `key`: the sealed text is 16 bytes longer than the plaintext, and opening
/// it with the same key, nonce and associated data gives the plaintext back.
#[verifier::external_body]
fn seal(key: &[u8], nonce: [u8; 12], aad: &[u8], plaintext: &[u8]) -> (res: Option<Vec<u8>>)
    ensures
        match res {
            Some(sealed) => {
                &&& aes_128_gcm_seal(key@, nonce@, aad@, plaintext@) == Some(sealed@)
                &&& sealed@.len() == plaintext@.len() + TAG_LEN
                &&& aes_128_gcm_open(key@, nonce@, aad@, sealed@) == Some(plaintext@)
            },
            None => aes_128_gcm_seal(key@, nonce@, aad@, plaintext@) is None,
        },
{
    let key = LessSafeKey::new(UnboundKey::new(&AES_128_GCM, key).ok()?);
    let mut in_out = plaintext.to_vec();
    key.seal_in_place_append_tag(Nonce::assume_unique_for_key(nonce), Aad::from(aad), &mut in_out)
        .ok()?;
    Some(in_out)
}

/// `LessSafeKey::open_in_place` under an AES-128-GCM key made of `key`: on
/// success the plaintext stands at the front of `in_out` and is 16 bytes
/// shorter than what was there.  The length of `in_out` never changes.
#[verifier::external_body]
fn open_in_place(key: &[u8], nonce: [u8; 12], aad: &[u8], in_out: &mut [u8]) -> (res: Option<
    usize,
>)
    ensures
        final(in_out)@.len() == old(in_out)@.len(),
        match res {
            Some(n) => {
                &&& n + TAG_LEN == old(in_out)@.len()
                &&& aes_128_gcm_open(key@, nonce@, aad@, old(in_out)@) == Some(
                    final(in_out)@.take(n as int),
                )
            },
            None => aes_128_gcm_open(key@, nonce@, aad@, old(in_out)@) is None,
        },
{
    let key = LessSafeKey::new(UnboundKey::new(&AES_128_GCM, key).ok()?);
    let plaintext = key.open_in_place(Nonce::assume_unique_for_key(nonce), Aad::from(aad), in_out)
        .ok()?;
    Some(plaintext.len())
}

/// `Salt::extract` followed by `Prk::expand` and `Okm::fill` for HKDF-SHA256
/// at its own output length: 32 bytes of output keying material.
#[verifier::external_body]
fn hkdf_block(salt: &[u8], ikm: &[u8], info: &[u8]) -> (res: Option<Vec<u8>>)
    ensures
        match res {
            Some(okm) => hkdf_sha256(salt@, ikm@, info@) == Some(okm@) && okm@.len() == SECRET_LEN,
            None => hkdf_sha256(salt@, ikm@, info@) is None,
        },
{
    let prk = Salt::new(HKDF_SHA256, salt).extract(ikm);
    let mut okm = vec![0u8; 32];
    prk.expand(&[info], HKDF_SHA256).ok()?.fill(&mut okm).ok()?;
    Some(okm)
}

/// The nonce for a packet: the IV with the packet number, as eight bytes in
/// network byte order, XORed into its last eight bytes.
pub open spec fn nonce_for(iv: Seq<u8>, packet_number: u64) -> Seq<u8> {
    Seq::new(
        IV_LEN as nat,
        |i: int|
            if i < 4 {
                iv[i]
            } else {
                iv[i] ^ be_bytes_8(packet_number as nat)[i - 4]
            },
    )
}

pub fn construct_nonce(iv: &[u8; 12], packet_number: u64) -> (nonce: [u8; 12])
    ensures
        nonce@ == nonce_for(iv@, packet_number),
{
    let mut nonce = *iv;
    let mut pn_bytes: Vec<u8> = Vec::new();
    push_be_u64(&mut pn_bytes, packet_number);
    proof {
        crate::varint::lemma_be_8_round_trip(packet_number as nat, Seq::empty());
    }
    let mut i: usize = 0;
    while i < 8
        invariant
            i <= 8,
            pn_bytes@ == be_bytes_8(packet_number as nat),
            pn_bytes@.len() == 8,
            forall|j: int| 0 <= j < 4 + i ==> nonce@[j] == nonce_for(iv@, packet_number)[j],
            forall|j: int| 4 + i <= j < 12 ==> nonce@[j] == iv@[j],
        decreases 8 - i,
    {
        let mixed = nonce[4 + i] ^ pn_bytes[i];
        nonce.set(4 + i, mixed);
        i += 1;
    }
    nonce
}

/// The keys of one encryption level, as byte sequences.
pub struct KeysView {
    pub send_key: Seq<u8>,
    pub recv_key: Seq<u8>,
    pub send_iv: Seq<u8>,
    pub recv_iv: Seq<u8>,
    pub send_hp_key: Seq<u8>,
    pub recv_hp_key: Seq<u8>,
}

impl KeysView {
    /// What sealing a packet under the send key gives.
    pub open spec fn seal(self, packet_number: u64, header: Seq<u8>, payload: Seq<u8>) -> Option<
        Seq<u8>,
    > {
        aes_128_gcm_seal(self.send_key, nonce_for(self.send_iv, packet_number), header, payload)
    }

    /// What opening a packet under the receive key gives.
    pub open spec fn open(self, packet_number: u64, header: Seq<u8>, sealed: Seq<u8>) -> Option<
        Seq<u8>,
    > {
        aes_128_gcm_open(self.recv_key, nonce_for(self.recv_iv, packet_number), header, sealed)
    }

    /// The keys of the other end: what one end sends with, the other
    /// receives with.
    pub open spec fn peer(self) -> KeysView {
        KeysView {
            send_key: self.recv_key,
            recv_key: self.send_key,
            send_iv: self.recv_iv,
            recv_iv: self.send_iv,
            send_hp_key: self.recv_hp_key,
            recv_hp_key: self.send_hp_key,
        }
    }

    /// Whether both directions use the same key and IV, as the Initial keys
    /// do.
    pub open spec fn symmetric(self) -> bool {
        self.send_key == self.recv_key && self.send_iv == self.recv_iv
    }
}

/// The keys that every connection starts with at the Initial level: all
/// zero, the same in both directions.
pub open spec fn initial_keys() -> KeysView {
    KeysView {
        send_key: Seq::new(KEY_LEN as nat, |i: int| 0u8),
        recv_key: Seq::new(KEY_LEN as nat, |i: int| 0u8),
        send_iv: Seq::new(IV_LEN as nat, |i: int| 0u8),
        recv_iv: Seq::new(IV_LEN as nat, |i: int| 0u8),
        send_hp_key: Seq::new(HP_KEY_LEN as nat, |i: int| 0u8),
        recv_hp_key: Seq::new(HP_KEY_LEN as nat, |i: int| 0u8),
    }
}

/// The bytes of a label.
pub open spec fn label(text: Seq<char>) -> Seq<u8> {
    encode_utf8(text)
}

/// HKDF-SHA256 with an empty salt: the first `length` bytes of output for a
/// secret and a label, for a `length` of at most 32.
pub open spec fn expand(secret: Seq<u8>, info: Seq<u8>, length: nat) -> Option<Seq<u8>> {
    if length > SECRET_LEN {
        None
    } else {
        match hkdf_sha256(Seq::empty(), secret, info) {
            Some(block) => Some(block.take(length as int)),
            None => None,
        }
    }
}

/// The client's and the server's traffic secret, expanded from a secret
/// under their two labels.
pub open spec fn traffic_secrets(
    secret: Seq<u8>,
    client_label: Seq<char>,
    server_label: Seq<char>,
) -> Option<(Seq<u8>, Seq<u8>)> {
    match (
        expand(secret, label(client_label), SECRET_LEN as nat),
        expand(secret, label(server_label), SECRET_LEN as nat),
    ) {
        (Some(client), Some(server)) => Some((client, server)),
        _ => None,
    }
}

/// The key, IV and header protection key of one direction, expanded from
/// its traffic secret.
pub open spec fn direction_keys(secret: Seq<u8>) -> Option<(Seq<u8>, Seq<u8>, Seq<u8>)> {
    match (
        expand(secret, label("quic key"@), KEY_LEN as nat),
        expand(secret, label("quic iv"@), IV_LEN as nat),
        expand(secret, label("quic hp"@), HP_KEY_LEN as nat),
    ) {
        (Some(key), Some(iv), Some(hp)) => Some((key, iv, hp)),
        _ => None,
    }
}

/// The keys of a level, derived from the secret that TLS supplies for it.
/// The client sends with what comes of the client label and receives with
/// what comes of the server label; the server does the reverse.
pub open spec fn level_keys(
    secret: Seq<u8>,
    client_label: Seq<char>,
    server_label: Seq<char>,
    is_client: bool,
) -> Option<KeysView> {
    match traffic_secrets(secret, client_label, server_label) {
        None => None,
        Some((client, server)) => {
            let (send_secret, recv_secret) = if is_client {
                (client, server)
            } else {
                (server, client)
            };
            match (direction_keys(send_secret), direction_keys(recv_secret)) {
                (Some(send), Some(recv)) => Some(
                    KeysView {
                        send_key: send.0,
                        recv_key: recv.0,
                        send_iv: send.1,
                        recv_iv: recv.1,
                        send_hp_key: send.2,
                        recv_hp_key: recv.2,
                    },
                ),
                _ => None,
            }
        },
    }
}

/// The Handshake keys of one end, derived from the handshake secret.
pub open spec fn handshake_keys(secret: Seq<u8>, is_client: bool) -> Option<KeysView> {
    level_keys(secret, "c hs traffic"@, "s hs traffic"@, is_client)
}

/// The Application keys of one end, derived from the application secret.
pub open spec fn application_keys(secret: Seq<u8>, is_client: bool) -> Option<KeysView> {
    level_keys(secret, "c ap traffic"@, "s ap traffic"@, is_client)
}

/// The first `length` bytes of a block of output keying material, where the
/// block was had and is long enough.
pub fn take_okm(block: Option<Vec<u8>>, length: usize) -> (res: Result<Vec<u8>, CryptoError>)
    ensures
        match res {
            Ok(okm) => block is Some && length <= block.unwrap()@.len() && okm@
                == block.unwrap()@.take(length as int),
            Err(e) => (block is None || length > block.unwrap()@.len()) && e
                == CryptoError::HkdfError,
        },
{
    match block {
        None => Err(CryptoError::HkdfError),
        Some(mut okm) => {
            if length > okm.len() {
                Err(CryptoError::HkdfError)
            } else {
                okm.truncate(length);
                Ok(okm)
            }
        },
    }
}

/// HKDF-SHA256 with an empty salt, cut to `length` bytes.
fn hkdf_expand(secret: &[u8], info: &[u8], length: usize) -> (res: Result<Vec<u8>, CryptoError>)
    ensures
        match res {
            Ok(okm) => expand(secret@, info@, length as nat) == Some(okm@) && okm@.len() == length,
            Err(e) => expand(secret@, info@, length as nat) is None && e == CryptoError::HkdfError,
        },
{
    if length > SECRET_LEN {
        return Err(CryptoError::HkdfError);
    }
    let empty: Vec<u8> = Vec::new();
    take_okm(hkdf_block(empty.as_slice(), secret, info), length)
}

pub fn derive_handshake_secrets(handshake_secret: &[u8]) -> (res: Result<
    (Vec<u8>, Vec<u8>),
    CryptoError,
>)
    ensures
        match res {
            Ok((client, server)) => traffic_secrets(
                handshake_secret@,
                "c hs traffic"@,
                "s hs traffic"@,
            ) == Some((client@, server@)),
            Err(e) => traffic_secrets(handshake_secret@, "c hs traffic"@, "s hs traffic"@) is None
                && e == CryptoError::HkdfError,
        },
{
    let client = match hkdf_expand(handshake_secret, "c hs traffic".as_bytes(), SECRET_LEN) {
        Ok(okm) => okm,
        Err(e) => {
            return Err(e);
        },
    };
    let server = match hkdf_expand(handshake_secret, "s hs traffic".as_bytes(), SECRET_LEN) {
        Ok(okm) => okm,
        Err(e) => {
            return Err(e);
        },
    };
    Ok((client, server))
}

pub fn derive_application_secrets(application_secret: &[u8]) -> (res: Result<
    (Vec<u8>, Vec<u8>),
    CryptoError,
>)
    ensures
        match res {
            Ok((client, server)) => traffic_secrets(
                application_secret@,
                "c ap traffic"@,
                "s ap traffic"@,
            ) == Some((client@, server@)),
            Err(e) => traffic_secrets(application_secret@, "c ap traffic"@, "s ap traffic"@)
                is None && e == CryptoError::HkdfError,
        },
{
    let client = match hkdf_expand(application_secret, "c ap traffic".as_bytes(), SECRET_LEN) {
        Ok(okm) => okm,
        Err(e) => {
            return Err(e);
        },
    };
    let server = match hkdf_expand(application_secret, "s ap traffic".as_bytes(), SECRET_LEN) {
        Ok(okm) => okm,
        Err(e) => {
            return Err(e);
        },
    };
    Ok((client, server))
}

/// The first 12 bytes of `bytes` as an array.
fn iv_from(bytes: &[u8]) -> (iv: [u8; 12])
    requires
        bytes@.len() >= 12,
    ensures
        iv@ == bytes@.take(12),
{
    let mut iv = [0u8;12];
    let mut i: usize = 0;
    while i < 12
        invariant
            i <= 12,
            bytes@.len() >= 12,
            forall|j: int| 0 <= j < i ==> iv@[j] == bytes@[j],
        decreases 12 - i,
    {
        iv.set(i, bytes[i]);
        i += 1;
    }
    iv
}

/// The first 16 bytes of `bytes` as an array.
fn hp_key_from(bytes: &[u8]) -> (key: [u8; 16])
    requires
        bytes@.len() >= 16,
    ensures
        key@ == bytes@.take(16),
{
    let mut key = [0u8;16];
    let mut i: usize = 0;
    while i < 16
        invariant
            i <= 16,
            bytes@.len() >= 16,
            forall|j: int| 0 <= j < i ==> key@[j] == bytes@[j],
        decreases 16 - i,
    {
        key.set(i, bytes[i]);
        i += 1;
    }
    key
}

/// The key, IV and header protection key of one direction.
fn derive_keys(secret: &[u8]) -> (res: Result<(Vec<u8>, [u8; 12], [u8; 16]), CryptoError>)
    ensures
        match res {
            Ok((key, iv, hp)) => direction_keys(secret@) == Some((key@, iv@, hp@)),
            Err(e) => direction_keys(secret@) is None && e == CryptoError::HkdfError,
        },
{
    let key = match hkdf_expand(secret, "quic key".as_bytes(), KEY_LEN) {
        Ok(okm) => okm,
        Err(e) => {
            return Err(e);
        },
    };
    let iv = match hkdf_expand(secret, "quic iv".as_bytes(), IV_LEN) {
        Ok(okm) => okm,
        Err(e) => {
            return Err(e);
        },
    };
    let hp = match hkdf_expand(secret, "quic hp".as_bytes(), HP_KEY_LEN) {
        Ok(okm) => okm,
        Err(e) => {
            return Err(e);
        },
    };
    let iv_array = iv_from(iv.as_slice());
    let hp_array = hp_key_from(hp.as_slice());
    Ok((key, iv_array, hp_array))
}

#[derive(Debug)]
pub struct CryptoKeys {
    local_key: Vec<u8>,
    remote_key: Vec<u8>,
    local_iv: [u8; 12],
    remote_iv: [u8; 12],
    local_pn_key: [u8; 16],
    remote_pn_key: [u8; 16],
}

impl View for CryptoKeys {
    type V = KeysView;

    closed spec fn view(&self) -> KeysView {
        KeysView {
            send_key: self.local_key@,
            recv_key: self.remote_key@,
            send_iv: self.local_iv@,
            recv_iv: self.remote_iv@,
            send_hp_key: self.local_pn_key@,
            recv_hp_key: self.remote_pn_key@,
        }
    }
}

/// The keys of a level for one end, from the traffic secrets of both ends.
fn keys_from_secrets(client: &[u8], server: &[u8], is_client: bool) -> (res: Result<
    CryptoKeys,
    CryptoError,
>)
    ensures
        match res {
            Ok(keys) => {
                let send = direction_keys(if is_client { client@ } else { server@ });
                let recv = direction_keys(if is_client { server@ } else { client@ });
                &&& send is Some
                &&& recv is Some
                &&& keys@ == KeysView {
                    send_key: send.unwrap().0,
                    recv_key: recv.unwrap().0,
                    send_iv: send.unwrap().1,
                    recv_iv: recv.unwrap().1,
                    send_hp_key: send.unwrap().2,
                    recv_hp_key: recv.unwrap().2,
                }
            },
            Err(e) => (direction_keys(client@) is None || direction_keys(server@) is None) && e
                == CryptoError::HkdfError,
        },
{
    let (local_secret, remote_secret) = if is_client {
        (client, server)
    } else {
        (server, client)
    };
    let local = match derive_keys(local_secret) {
        Ok(keys) => keys,
        Err(e) => {
            return Err(e);
        },
    };
    let remote = match derive_keys(remote_secret) {
        Ok(keys) => keys,
        Err(e) => {
            return Err(e);
        },
    };
    Ok(
        CryptoKeys {
            local_key: local.0,
            remote_key: remote.0,
            local_iv: local.1,
            remote_iv: remote.1,
            local_pn_key: local.2,
            remote_pn_key: remote.2,
        },
    )
}

/// The keys of every level, where they are installed.
pub struct LevelKeys {
    pub initial: Option<KeysView>,
    pub handshake: Option<KeysView>,
    pub application: Option<KeysView>,
}

impl LevelKeys {
    /// No keys at any level.
    pub open spec fn none() -> LevelKeys {
        LevelKeys { initial: None, handshake: None, application: None }
    }

    /// The keys of one level.
    pub open spec fn at(self, level: EncryptionLevel) -> Option<KeysView> {
        match level {
            EncryptionLevel::Initial => self.initial,
            EncryptionLevel::Handshake => self.handshake,
            EncryptionLevel::Application => self.application,
        }
    }

    /// These keys with those of one level replaced.
    pub open spec fn with(self, level: EncryptionLevel, keys: Option<KeysView>) -> LevelKeys {
        match level {
            EncryptionLevel::Initial => LevelKeys { initial: keys, ..self },
            EncryptionLevel::Handshake => LevelKeys { handshake: keys, ..self },
            EncryptionLevel::Application => LevelKeys { application: keys, ..self },
        }
    }

    /// The highest level that has keys.
    pub open spec fn highest(self) -> Option<EncryptionLevel> {
        if self.application is Some {
            Some(EncryptionLevel::Application)
        } else if self.handshake is Some {
            Some(EncryptionLevel::Handshake)
        } else if self.initial is Some {
            Some(EncryptionLevel::Initial)
        } else {
            None
        }
    }
}

/// The keys installed so far, one set for each level that has them.
#[derive(Debug)]
pub struct QuicCrypto {
    initial: Option<CryptoKeys>,
    handshake: Option<CryptoKeys>,
    application: Option<CryptoKeys>,
}

/// What sealing gave, as the packet's protected payload.
pub fn sealed_payload(sealed: Option<Vec<u8>>) -> (res: Result<bytes::Bytes, CryptoError>)
    ensures
        match res {
            Ok(bytes) => sealed is Some && bytes_content(bytes) == sealed.unwrap()@,
            Err(e) => sealed is None && e == CryptoError::EncryptionFailed,
        },
{
    match sealed {
        Some(bytes) => Ok(copy_from_slice(bytes.as_slice())),
        None => Err(CryptoError::EncryptionFailed),
    }
}

/// What opening gave, as the length of the plaintext.
pub fn opened_length(opened: Option<usize>) -> (res: Result<usize, CryptoError>)
    ensures
        match res {
            Ok(n) => opened == Some(n),
            Err(e) => opened is None && e == CryptoError::DecryptionFailed,
        },
{
    match opened {
        Some(n) => Ok(n),
        None => Err(CryptoError::DecryptionFailed),
    }
}

impl View for QuicCrypto {
    type V = LevelKeys;

    closed spec fn view(&self) -> LevelKeys {
        LevelKeys {
            initial: match self.initial {
                Some(k) => Some(k@),
                None => None,
            },
            handshake: match self.handshake {
                Some(k) => Some(k@),
                None => None,
            },
            application: match self.application {
                Some(k) => Some(k@),
                None => None,
            },
        }
    }
}

impl QuicCrypto {
    /// The keys installed for `level`, if any.
    pub open spec fn keys(&self, level: EncryptionLevel) -> Option<KeysView> {
        self@.at(level)
    }

    pub fn new() -> (crypto: Self)
        ensures
            crypto@ == LevelKeys::none(),
    {
        Self { initial: None, handshake: None, application: None }
    }

    /// The highest level that has keys: the level that packets are sent at.
    pub fn highest_level(&self) -> (level: Option<EncryptionLevel>)
        ensures
            level == self@.highest(),
    {
        if self.application.is_some() {
            Some(EncryptionLevel::Application)
        } else if self.handshake.is_some() {
            Some(EncryptionLevel::Handshake)
        } else if self.initial.is_some() {
            Some(EncryptionLevel::Initial)
        } else {
            None
        }
    }

    /// Removes the keys of every level.
    pub fn discard_keys(&mut self)
        ensures
            final(self)@ == LevelKeys::none(),
    {
        self.initial = None;
        self.handshake = None;
        self.application = None;
    }

    /// Whether keys are installed for `level`.
    pub fn has_keys(&self, level: &EncryptionLevel) -> (b: bool)
        ensures
            b == self.keys(*level).is_some(),
    {
        match level {
            EncryptionLevel::Initial => self.initial.is_some(),
            EncryptionLevel::Handshake => self.handshake.is_some(),
            EncryptionLevel::Application => self.application.is_some(),
        }
    }

    /// The number of levels that have keys.
    pub fn keys_count(&self) -> (n: usize)
        ensures
            n == (if self.keys(EncryptionLevel::Initial) is Some {
                1int
            } else {
                0
            }) + (if self.keys(EncryptionLevel::Handshake) is Some {
                1int
            } else {
                0
            }) + (if self.keys(EncryptionLevel::Application) is Some {
                1int
            } else {
                0
            }),
    {
        let mut n: usize = 0;
        if self.initial.is_some() {
            n += 1;
        }
        if self.handshake.is_some() {
            n += 1;
        }
        if self.application.is_some() {
            n += 1;
        }
        n
    }

    fn get(&self, level: EncryptionLevel) -> (keys: Option<&CryptoKeys>)
        ensures
            match keys {
                Some(k) => self.keys(level) == Some(k@),
                None => self.keys(level) is None,
            },
    {
        match level {
            EncryptionLevel::Initial => self.initial.as_ref(),
            EncryptionLevel::Handshake => self.handshake.as_ref(),
            EncryptionLevel::Application => self.application.as_ref(),
        }
    }

    fn install(&mut self, level: EncryptionLevel, keys: CryptoKeys)
        ensures
            final(self)@ == old(self)@.with(level, Some(keys@)),
    {
        match level {
            EncryptionLevel::Initial => {
                self.initial = Some(keys);
            },
            EncryptionLevel::Handshake => {
                self.handshake = Some(keys);
            },
            EncryptionLevel::Application => {
                self.application = Some(keys);
            },
        }
    }

    /// Installs the Initial keys.  They are fixed, all zero and the same at
    /// both ends: the connection identifier and the role do not enter into
    /// them.
    pub fn setup_initial_keys(&mut self, connection_id: &[u8], is_client: bool) -> (res: Result<
        (),
        CryptoError,
    >)
        ensures
            res is Ok,
            final(self)@ == old(self)@.with(EncryptionLevel::Initial, Some(initial_keys())),
    {
        let mut key: Vec<u8> = Vec::new();
        let mut key2: Vec<u8> = Vec::new();
        while key.len() < KEY_LEN
            invariant
                key@.len() <= KEY_LEN,
                key@.len() == key2@.len(),
                forall|j: int| 0 <= j < key@.len() ==> key@[j] == 0 && key2@[j] == 0,
            decreases KEY_LEN - key@.len(),
        {
            key.push(0);
            key2.push(0);
        }
        let crypto_keys = CryptoKeys {
            local_key: key,
            remote_key: key2,
            local_iv: [0u8;12],
            remote_iv: [0u8;12],
            local_pn_key: [0u8;16],
            remote_pn_key: [0u8;16],
        };
        assert(crypto_keys@.send_key =~= initial_keys().send_key);
        assert(crypto_keys@.recv_key =~= initial_keys().recv_key);
        assert(crypto_keys@.send_iv =~= initial_keys().send_iv);
        assert(crypto_keys@.send_hp_key =~= initial_keys().send_hp_key);
        self.install(EncryptionLevel::Initial, crypto_keys);
        Ok(())
    }

    /// Derives the Handshake keys from the handshake secret and installs
    /// them.  Where the derivation fails nothing is installed.
    pub fn setup_handshake_keys(&mut self, handshake_secret: &[u8], is_client: bool) -> (res:
        Result<(), CryptoError>)
        ensures
            match res {
                Ok(()) => {
                    &&& handshake_keys(handshake_secret@, is_client) is Some
                    &&& final(self)@ == old(self)@.with(
                        EncryptionLevel::Handshake,
                        handshake_keys(handshake_secret@, is_client),
                    )
                },
                Err(e) => {
                    &&& handshake_keys(handshake_secret@, is_client) is None
                    &&& e == CryptoError::HkdfError
                    &&& final(self)@ == old(self)@
                },
            },
    {
        let (client_secret, server_secret) = match derive_handshake_secrets(handshake_secret) {
            Ok(secrets) => secrets,
            Err(e) => {
                return Err(e);
            },
        };
        match keys_from_secrets(client_secret.as_slice(), server_secret.as_slice(), is_client) {
            Ok(crypto_keys) => {
                self.install(EncryptionLevel::Handshake, crypto_keys);
                Ok(())
            },
            Err(e) => Err(e),
        }
    }

    /// Derives the Application keys from the application secret and installs
    /// them.  Where the derivation fails nothing is installed.
    pub fn setup_application_keys(&mut self, application_secret: &[u8], is_client: bool) -> (res:
        Result<(), CryptoError>)
        ensures
            match res {
                Ok(()) => {
                    &&& application_keys(application_secret@, is_client) is Some
                    &&& final(self)@ == old(self)@.with(
                        EncryptionLevel::Application,
                        application_keys(application_secret@, is_client),
                    )
                },
                Err(e) => {
                    &&& application_keys(application_secret@, is_client) is None
                    &&& e == CryptoError::HkdfError
                    &&& final(self)@ == old(self)@
                },
            },
    {
        let (client_secret, server_secret) = match derive_application_secrets(application_secret) {
            Ok(secrets) => secrets,
            Err(e) => {
                return Err(e);
            },
        };
        match keys_from_secrets(client_secret.as_slice(), server_secret.as_slice(), is_client) {
            Ok(crypto_keys) => {
                self.install(EncryptionLevel::Application, crypto_keys);
                Ok(())
            },
            Err(e) => Err(e),
        }
    }

    /// Seals a packet's payload under the send key of `level`, with the
    /// encoded header as associated data.  The result is the ciphertext and
    /// its 16-byte tag.  What is sealed opens at the other end to the same
    /// payload, and at this end too where the keys are the same in both
    /// directions.
    pub fn encrypt_packet(
        &self,
        level: EncryptionLevel,
        packet_number: u64,
        header: &[u8],
        payload: &[u8],
    ) -> (res: Result<bytes::Bytes, CryptoError>)
        ensures
            match res {
                Ok(sealed) => {
                    &&& self.keys(level) is Some
                    &&& self.keys(level).unwrap().seal(packet_number, header@, payload@) == Some(
                        bytes_content(sealed),
                    )
                    &&& bytes_content(sealed).len() == payload@.len() + TAG_LEN
                    &&& self.keys(level).unwrap().peer().open(
                        packet_number,
                        header@,
                        bytes_content(sealed),
                    ) == Some(payload@)
                    &&& self.keys(level).unwrap().symmetric() ==> self.keys(level).unwrap().open(
                        packet_number,
                        header@,
                        bytes_content(sealed),
                    ) == Some(payload@)
                },
                Err(e) => if self.keys(level) is None {
                    e == CryptoError::NoKeys
                } else {
                    e == CryptoError::EncryptionFailed && self.keys(level).unwrap().seal(
                        packet_number,
                        header@,
                        payload@,
                    ) is None
                },
            },
    {
        let keys = match self.get(level) {
            Some(keys) => keys,
            None => {
                return Err(CryptoError::NoKeys);
            },
        };
        let nonce = construct_nonce(&keys.local_iv, packet_number);
        sealed_payload(seal(keys.local_key.as_slice(), nonce, header, payload))
    }

    /// Opens a packet's payload in place under the receive key of `level`.
    /// On success the plaintext stands at the front of `ciphertext` and its
    /// length is returned.
    pub fn decrypt_packet(
        &self,
        level: EncryptionLevel,
        packet_number: u64,
        header: &[u8],
        ciphertext: &mut [u8],
    ) -> (res: Result<usize, CryptoError>)
        ensures
            final(ciphertext)@.len() == old(ciphertext)@.len(),
            match res {
                Ok(n) => {
                    &&& self.keys(level) is Some
                    &&& n + TAG_LEN == old(ciphertext)@.len()
                    &&& self.keys(level).unwrap().open(packet_number, header@, old(ciphertext)@)
                        == Some(final(ciphertext)@.take(n as int))
                },
                Err(e) => if self.keys(level) is None {
                    e == CryptoError::NoKeys && final(ciphertext)@ == old(ciphertext)@
                } else {
                    e == CryptoError::DecryptionFailed && self.keys(level).unwrap().open(
                        packet_number,
                        header@,
                        old(ciphertext)@,
                    ) is None
                },
            },
    {
        let keys = match self.get(level) {
            Some(keys) => keys,
            None => {
                return Err(CryptoError::NoKeys);
            },
        };
        let nonce = construct_nonce(&keys.remote_iv, packet_number);
        opened_length(open_in_place(keys.remote_key.as_slice(), nonce, header, ciphertext))
    }

    /// Masks a packet number with the first eight bytes of the sample.
    pub fn encrypt_packet_number(
        &self,
        level: EncryptionLevel,
        packet_number: u64,
        sample: &[u8],
    ) -> (res: Result<u64, CryptoError>)
        requires
            self.keys(level) is Some ==> sample@.len() >= 8,
        ensures
            match res {
                Ok(masked) => self.keys(level) is Some && masked == packet_number ^ (be_value_8(
                    sample@,
                ) as u64),
                Err(e) => self.keys(level) is None && e == CryptoError::NoKeys,
            },
    {
        if !self.has_keys(&level) {
            return Err(CryptoError::NoKeys);
        }
        assert(sample@.skip(0) =~= sample@);
        let mask = read_be_u64(sample, 0);
        Ok(packet_number ^ mask)
    }

    /// Removes the mask from a packet number: masking is its own inverse.
    pub fn decrypt_packet_number(
        &self,
        level: EncryptionLevel,
        encrypted_pn: u64,
        sample: &[u8],
    ) -> (res: Result<u64, CryptoError>)
        requires
            self.keys(level) is Some ==> sample@.len() >= 8,
        ensures
            match res {
                Ok(plain) => self.keys(level) is Some && plain == encrypted_pn ^ (be_value_8(
                    sample@,
                ) as u64),
                Err(e) => self.keys(level) is None && e == CryptoError::NoKeys,
            },
    {
        self.encrypt_packet_number(level, encrypted_pn, sample)
    }
}

/// Masking a packet number twice with the same mask gives the number back.
pub proof fn lemma_packet_number_mask(packet_number: u64, mask: u64)
    ensures
        (packet_number ^ mask) ^ mask == packet_number,
{
    assert((packet_number ^ mask) ^ mask == packet_number) by (bit_vector);
}

/// The Initial keys of one end are those of the other: what either end
/// seals at the Initial level, the other opens.
pub proof fn lemma_initial_keys_are_their_own_peer()
    ensures
        initial_keys().peer() == initial_keys(),
        initial_keys().symmetric(),
{
}

/// The two ends derive matching keys from one secret: the client sends with
/// what the server receives with, and the server with what the client
/// receives with.
pub proof fn lemma_ends_derive_matching_keys(
    secret: Seq<u8>,
    client_label: Seq<char>,
    server_label: Seq<char>,
)
    ensures
        level_keys(secret, client_label, server_label, true) is Some <==> level_keys(
            secret,
            client_label,
            server_label,
            false,
        ) is Some,
        level_keys(secret, client_label, server_label, true) is Some ==> level_keys(
            secret,
            client_label,
            server_label,
            true,
        ).unwrap().peer() == level_keys(secret, client_label, server_label, false).unwrap(),
{
}

/// A packet sealed under keys that are the same in both directions opens
/// under those keys to the payload that was sealed.
pub proof fn lemma_symmetric_keys_open_what_they_seal(
    keys: KeysView,
    packet_number: u64,
    header: Seq<u8>,
    payload: Seq<u8>,
    sealed: Seq<u8>,
)
    requires
        keys.symmetric(),
        keys.peer().open(packet_number, header, sealed) == Some(payload),
    ensures
        keys.open(packet_number, header, sealed) == Some(payload),
        initial_keys().symmetric(),
{
}

} // verus!
