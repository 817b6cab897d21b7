//! Packet headers: connection identifiers, the long and the short header,
//! and their wire form.
//!
//! A long header is one byte of flags and type, the version, both connection
//! identifiers with a length byte each, and the packet number.  A short
//! header is one byte of flags, the destination connection identifier at a
//! length both ends know, and the packet number.  Packet numbers are written
//! as variable-length integers.

use crate::buffer::{advance, bytes_content, bytes_mut_content, chunk, put_slice};
use crate::varint::{
    be_bytes_4, be_value_4, lemma_be_4_round_trip, lemma_varint_round_trip, push_be_u32,
    read_be_u32, read_varint, varint_decode, varint_encode, write_varint, VARINT_LIMIT,
};
use rand::Rng;
use vstd::prelude::*;
use vstd::slice::{slice_subrange, slice_to_vec};

verus! {

/// Longest connection identifier that a header may carry.
pub const MAX_CONNECTION_ID_LEN: usize = 20;

/// Length of the connection identifiers that this endpoint issues, and so the
/// length that a short header is read with.
pub const LOCAL_CONNECTION_ID_LEN: usize = 8;

#[derive(Debug, Clone, Copy, PartialEq, Eq)]
pub enum PacketType {
    Initial,
    ZeroRtt,
    Handshake,
    Retry,
    Short,
}

impl PacketType {
    /// The number that stands for this type: 0 to 3 for the long header
    /// types, 4 for the short header.
    pub open spec fn spec_code(self) -> nat {
        match self {
            PacketType::Initial => 0,
            PacketType::ZeroRtt => 1,
            PacketType::Handshake => 2,
            PacketType::Retry => 3,
            PacketType::Short => 4,
        }
    }

    pub fn code(self) -> (c: u8)
        ensures
            c == self.spec_code(),
    {
        match self {
            PacketType::Initial => 0,
            PacketType::ZeroRtt => 1,
            PacketType::Handshake => 2,
            PacketType::Retry => 3,
            PacketType::Short => 4,
        }
    }
}

/// The long header type that the two type bits of a first byte select.
pub open spec fn long_type_of_first(first: u8) -> PacketType {
    let bits = first / 0x10 % 4;
    if bits == 0 {
        PacketType::Initial
    } else if bits == 1 {
        PacketType::ZeroRtt
    } else if bits == 2 {
        PacketType::Handshake
    } else {
        PacketType::Retry
    }
}

#[derive(Debug, Clone)]
pub struct ConnectionId {
    pub data: Vec<u8>,
}

impl View for ConnectionId {
    type V = Seq<u8>;

    open spec fn view(&self) -> Seq<u8> {
        self.data@
    }
}

/// `Rng::gen` on the thread's generator: one byte, of which nothing is known.
#[verifier::external_body]
fn random_byte() -> u8 {
    rand::thread_rng().gen()
}

impl ConnectionId {
    pub fn new(data: Vec<u8>) -> (id: Self)
        ensures
            id@ == data@,
    {
        Self { data }
    }

    /// A fresh identifier of `len` bytes drawn from the thread's generator.
    pub fn random(len: usize) -> (id: Self)
        ensures
            id@.len() == len,
    {
        let mut data: Vec<u8> = Vec::new();
        while data.len() < len
            invariant
                data@.len() <= len,
            decreases len - data@.len(),
        {
            data.push(random_byte());
        }
        Self { data }
    }

    /// A second identifier with the same bytes.
    pub fn duplicate(&self) -> (id: Self)
        ensures
            id@ == self@,
    {
        Self { data: self.data.clone() }
    }

    pub fn len(&self) -> (n: usize)
        ensures
            n == self@.len(),
    {
        self.data.len()
    }

    pub fn is_empty(&self) -> (b: bool)
        ensures
            b == (self@.len() == 0),
    {
        self.data.len() == 0
    }
}

#[derive(Debug, Clone)]
pub struct LongHeader {
    pub packet_type: PacketType,
    pub version: u32,
    pub dest_conn_id: ConnectionId,
    pub src_conn_id: ConnectionId,
    pub packet_number: u64,
}

#[derive(Debug, Clone)]
pub struct ShortHeader {
    pub dest_conn_id: ConnectionId,
    pub packet_number: u64,
}

#[derive(Debug, Clone)]
pub enum PacketHeader {
    Long(LongHeader),
    Short(ShortHeader),
}

/// What a header says, with its identifiers as byte sequences.
pub enum HeaderView {
    Long {
        packet_type: PacketType,
        version: u32,
        dest_conn_id: Seq<u8>,
        src_conn_id: Seq<u8>,
        packet_number: u64,
    },
    Short { dest_conn_id: Seq<u8>, packet_number: u64 },
}

impl View for PacketHeader {
    type V = HeaderView;

    open spec fn view(&self) -> HeaderView {
        match self {
            PacketHeader::Long(h) => HeaderView::Long {
                packet_type: h.packet_type,
                version: h.version,
                dest_conn_id: h.dest_conn_id@,
                src_conn_id: h.src_conn_id@,
                packet_number: h.packet_number,
            },
            PacketHeader::Short(h) => HeaderView::Short {
                dest_conn_id: h.dest_conn_id@,
                packet_number: h.packet_number,
            },
        }
    }
}

impl HeaderView {
    /// Whether the header has a wire form: a long header has one of the four
    /// long types, no identifier is longer than 20 bytes, and the packet
    /// number is below 2^62.
    pub open spec fn encodable(self) -> bool {
        match self {
            HeaderView::Long { packet_type, version, dest_conn_id, src_conn_id, packet_number } => {
                &&& packet_type != PacketType::Short
                &&& dest_conn_id.len() <= MAX_CONNECTION_ID_LEN
                &&& src_conn_id.len() <= MAX_CONNECTION_ID_LEN
                &&& packet_number < VARINT_LIMIT
            },
            HeaderView::Short { dest_conn_id, packet_number } => {
                &&& dest_conn_id.len() <= MAX_CONNECTION_ID_LEN
                &&& packet_number < VARINT_LIMIT
            },
        }
    }

    /// The wire form of an encodable header.
    pub open spec fn encode(self) -> Seq<u8> {
        match self {
            HeaderView::Long { packet_type, version, dest_conn_id, src_conn_id, packet_number } => {
                seq![(0x80 + 0x10 * packet_type.spec_code()) as u8] + be_bytes_4(version as nat)
                    + seq![dest_conn_id.len() as u8] + dest_conn_id + seq![
                    src_conn_id.len() as u8,
                ] + src_conn_id + varint_encode(packet_number)
            },
            HeaderView::Short { dest_conn_id, packet_number } => {
                seq![0x40u8] + dest_conn_id + varint_encode(packet_number)
            },
        }
    }
}

/// Reads a long header from the front of `bytes`, whose first byte has its
/// top bit set: the header and the number of bytes it took.
pub open spec fn decode_long_header(bytes: Seq<u8>) -> Option<(HeaderView, nat)> {
    if bytes.len() < 6 {
        None
    } else {
        let dest_len = bytes[5] as int;
        if bytes.len() < 7 + dest_len {
            None
        } else {
            let src_len = bytes[6 + dest_len] as int;
            let pn_at = 7 + dest_len + src_len;
            if bytes.len() < pn_at {
                None
            } else {
                match varint_decode(bytes.skip(pn_at)) {
                    None => None,
                    Some((packet_number, n)) => Some(
                        (
                            HeaderView::Long {
                                packet_type: long_type_of_first(bytes[0]),
                                version: be_value_4(bytes.skip(1)) as u32,
                                dest_conn_id: bytes.subrange(6, 6 + dest_len),
                                src_conn_id: bytes.subrange(7 + dest_len, pn_at),
                                packet_number,
                            },
                            (pn_at + n) as nat,
                        ),
                    ),
                }
            }
        }
    }
}

/// Reads a short header from the front of `bytes`, whose first byte has its
/// top bit clear.  The destination identifier is taken to be 8 bytes long.
pub open spec fn decode_short_header(bytes: Seq<u8>) -> Option<(HeaderView, nat)> {
    let pn_at = 1 + LOCAL_CONNECTION_ID_LEN as int;
    if bytes.len() < pn_at {
        None
    } else {
        match varint_decode(bytes.skip(pn_at)) {
            None => None,
            Some((packet_number, n)) => Some(
                (
                    HeaderView::Short { dest_conn_id: bytes.subrange(1, pn_at), packet_number },
                    (pn_at + n) as nat,
                ),
            ),
        }
    }
}

/// Reads one header from the front of `bytes`: the header and the number of
/// bytes it took, or `None` where `bytes` is empty, ends inside the header,
/// or announces an identifier longer than what is left.
pub open spec fn decode_header(bytes: Seq<u8>) -> Option<(HeaderView, nat)> {
    if bytes.len() == 0 {
        None
    } else if bytes[0] >= 0x80 {
        decode_long_header(bytes)
    } else {
        decode_short_header(bytes)
    }
}

/// Where each field of a long header lies in its wire form.
proof fn lemma_long_header_layout(
    first: u8,
    version: Seq<u8>,
    dest_conn_id: Seq<u8>,
    src_conn_id: Seq<u8>,
    tail: Seq<u8>,
)
    requires
        version.len() == 4,
        dest_conn_id.len() <= 0xff,
        src_conn_id.len() <= 0xff,
    ensures
        ({
            let dl = dest_conn_id.len() as int;
            let sl = src_conn_id.len() as int;
            let all = seq![first] + version + seq![dl as u8] + dest_conn_id + seq![sl as u8]
                + src_conn_id + tail;
            &&& all.len() == 7 + dl + sl + tail.len()
            &&& all[0] == first
            &&& all.skip(1) == version + all.skip(5)
            &&& all[5] == dl
            &&& all.subrange(6, 6 + dl) == dest_conn_id
            &&& all[6 + dl] == sl
            &&& all.subrange(7 + dl, 7 + dl + sl) == src_conn_id
            &&& all.skip(7 + dl + sl) == tail
        }),
{
}

/// Decoding the wire form of a long header gives the same header back,
/// whatever follows it, for each of the four long types, every version,
/// identifiers of 0 to 20 bytes and every packet number below 2^62.
#[verifier::rlimit(30)]
pub proof fn lemma_long_header_round_trip(
    packet_type: PacketType,
    version: u32,
    dest_conn_id: Seq<u8>,
    src_conn_id: Seq<u8>,
    packet_number: u64,
    rest: Seq<u8>,
)
    requires
        packet_type != PacketType::Short,
        dest_conn_id.len() <= MAX_CONNECTION_ID_LEN,
        src_conn_id.len() <= MAX_CONNECTION_ID_LEN,
        packet_number < VARINT_LIMIT,
    ensures
        ({
            let header = HeaderView::Long {
                packet_type,
                version,
                dest_conn_id,
                src_conn_id,
                packet_number,
            };
            decode_header(header.encode() + rest) == Some((header, header.encode().len()))
        }),
{
    let header = HeaderView::Long { packet_type, version, dest_conn_id, src_conn_id, packet_number };
    let first = (0x80 + 0x10 * packet_type.spec_code()) as u8;
    let ver = be_bytes_4(version as nat);
    let pn = varint_encode(packet_number);
    let dl = dest_conn_id.len() as int;
    let sl = src_conn_id.len() as int;
    let all = header.encode() + rest;
    lemma_varint_round_trip(packet_number, rest);
    lemma_be_4_round_trip(version as nat, all.skip(5));
    lemma_long_header_layout(first, ver, dest_conn_id, src_conn_id, pn + rest);
    lemma_long_header_layout(first, ver, dest_conn_id, src_conn_id, pn);
    assert(all =~= seq![first] + ver + seq![dl as u8] + dest_conn_id + seq![sl as u8]
        + src_conn_id + (pn + rest));
}

/// Decoding the wire form of a short header gives the same header back,
/// whatever follows it, where the destination identifier has the 8 bytes
/// that the decoder takes it to have.
pub proof fn lemma_short_header_round_trip(
    dest_conn_id: Seq<u8>,
    packet_number: u64,
    rest: Seq<u8>,
)
    requires
        dest_conn_id.len() == LOCAL_CONNECTION_ID_LEN,
        packet_number < VARINT_LIMIT,
    ensures
        ({
            let header = HeaderView::Short { dest_conn_id, packet_number };
            decode_header(header.encode() + rest) == Some((header, header.encode().len()))
        }),
{
    let h = HeaderView::Short { dest_conn_id, packet_number };
    let pn = varint_encode(packet_number);
    let all = h.encode() + rest;
    lemma_varint_round_trip(packet_number, rest);
    assert(all.subrange(1, 9) =~= dest_conn_id);
    assert(all.skip(9) =~= pn + rest);
}

/// The length of the shortest header that starts with `first`: a long header
/// with two empty identifiers takes 8 bytes, a short header 10.
pub open spec fn min_header_len(first: u8) -> nat {
    if first >= 0x80 {
        8
    } else {
        10
    }
}

/// No header can be read from bytes that are fewer than the shortest header.
pub proof fn lemma_short_input_has_no_header(bytes: Seq<u8>)
    requires
        bytes.len() == 0 || bytes.len() < min_header_len(bytes[0]),
    ensures
        decode_header(bytes) is None,
{
    reveal(varint_decode);
}

#[derive(Debug)]
pub enum PacketError {
    InvalidFormat,
}

impl PacketError {
    /// The message that describes this error.
    pub fn to_string(&self) -> (s: String)
        ensures
            s@ == "Invalid packet format"@,
    {
        "Invalid packet format".to_string()
    }
}

/// Appends a packet number in its wire form, or refuses one of 2^62 or more
/// and leaves `buf` as it was.
pub fn encode_packet_number(buf: &mut bytes::BytesMut, packet_number: u64) -> (res: Result<
    (),
    PacketError,
>)
    ensures
        res is Ok <==> packet_number < VARINT_LIMIT,
        res is Ok ==> bytes_mut_content(*final(buf)) == bytes_mut_content(*old(buf))
            + varint_encode(packet_number),
        res is Err ==> bytes_mut_content(*final(buf)) == bytes_mut_content(*old(buf)),
{
    let mut out: Vec<u8> = Vec::new();
    match write_varint(&mut out, packet_number) {
        Ok(()) => {
            put_slice(buf, out.as_slice());
            Ok(())
        },
        Err(_) => Err(PacketError::InvalidFormat),
    }
}

/// Takes a packet number off the front of `buf`.  Where `buf` ends before
/// the number does, fails and leaves `buf` as it was.
pub fn decode_packet_number(buf: &mut bytes::Bytes) -> (res: Result<u64, PacketError>)
    ensures
        match res {
            Ok(packet_number) => {
                &&& varint_decode(bytes_content(*old(buf))) is Some
                &&& packet_number == varint_decode(bytes_content(*old(buf))).unwrap().0
                &&& bytes_content(*final(buf)) == bytes_content(*old(buf)).skip(
                    varint_decode(bytes_content(*old(buf))).unwrap().1 as int,
                )
            },
            Err(_) => {
                &&& varint_decode(bytes_content(*old(buf))) is None
                &&& bytes_content(*final(buf)) == bytes_content(*old(buf))
            },
        },
{
    let data = chunk(buf);
    assert(data@.skip(0) =~= data@);
    let parsed = read_varint(data, 0);
    match parsed {
        Ok((packet_number, next)) => {
            advance(buf, next);
            Ok(packet_number)
        },
        Err(_) => Err(PacketError::InvalidFormat),
    }
}

impl PacketHeader {
    /// The wire form of this header, or an error where it has none.
    pub fn to_bytes(&self) -> (res: Result<Vec<u8>, PacketError>)
        ensures
            res is Ok <==> self@.encodable(),
            res is Ok ==> res.unwrap()@ == self@.encode(),
    {
        let mut out: Vec<u8> = Vec::new();
        match self {
            PacketHeader::Long(header) => {
                let dest_len = header.dest_conn_id.data.len();
                let src_len = header.src_conn_id.data.len();
                if dest_len > MAX_CONNECTION_ID_LEN || src_len > MAX_CONNECTION_ID_LEN {
                    return Err(PacketError::InvalidFormat);
                }
                let code = match header.packet_type {
                    PacketType::Short => {
                        return Err(PacketError::InvalidFormat);
                    },
                    other => other.code(),
                };
                out.push(0x80 + 0x10 * code);
                push_be_u32(&mut out, header.version);
                out.push(dest_len as u8);
                out.extend_from_slice(header.dest_conn_id.data.as_slice());
                out.push(src_len as u8);
                out.extend_from_slice(header.src_conn_id.data.as_slice());
                match write_varint(&mut out, header.packet_number) {
                    Ok(()) => Ok(out),
                    Err(_) => Err(PacketError::InvalidFormat),
                }
            },
            PacketHeader::Short(header) => {
                if header.dest_conn_id.data.len() > MAX_CONNECTION_ID_LEN {
                    return Err(PacketError::InvalidFormat);
                }
                out.push(0x40);
                out.extend_from_slice(header.dest_conn_id.data.as_slice());
                match write_varint(&mut out, header.packet_number) {
                    Ok(()) => Ok(out),
                    Err(_) => Err(PacketError::InvalidFormat),
                }
            },
        }
    }

    /// Reads one header from the front of `data`: the header and the number
    /// of bytes it took.
    pub fn from_bytes(data: &[u8]) -> (res: Result<(PacketHeader, usize), PacketError>)
        ensures
            match res {
                Ok((header, used)) => decode_header(data@) == Some((header@, used as nat)) && used
                    <= data@.len(),
                Err(_) => decode_header(data@) is None,
            },
    {
        let len = data.len();
        if len == 0 {
            return Err(PacketError::InvalidFormat);
        }
        let first = data[0];
        if first >= 0x80 {
            if len < 6 {
                return Err(PacketError::InvalidFormat);
            }
            let bits = first / 0x10 % 4;
            let packet_type = if bits == 0 {
                PacketType::Initial
            } else if bits == 1 {
                PacketType::ZeroRtt
            } else if bits == 2 {
                PacketType::Handshake
            } else {
                PacketType::Retry
            };
            let version = read_be_u32(data, 1);
            let dest_len = data[5] as usize;
            if len - 6 < dest_len + 1 {
                return Err(PacketError::InvalidFormat);
            }
            let dest_conn_id = ConnectionId::new(slice_to_vec(slice_subrange(data, 6, 6 + dest_len)));
            let src_len = data[6 + dest_len] as usize;
            let src_at = 7 + dest_len;
            if len - src_at < src_len {
                return Err(PacketError::InvalidFormat);
            }
            let pn_at = src_at + src_len;
            let src_conn_id = ConnectionId::new(slice_to_vec(slice_subrange(data, src_at, pn_at)));
            match read_varint(data, pn_at) {
                Ok((packet_number, next)) => Ok(
                    (
                        PacketHeader::Long(
                            LongHeader {
                                packet_type,
                                version,
                                dest_conn_id,
                                src_conn_id,
                                packet_number,
                            },
                        ),
                        next,
                    ),
                ),
                Err(_) => Err(PacketError::InvalidFormat),
            }
        } else {
            let pn_at = 1 + LOCAL_CONNECTION_ID_LEN;
            if len < pn_at {
                return Err(PacketError::InvalidFormat);
            }
            let dest_conn_id = ConnectionId::new(slice_to_vec(slice_subrange(data, 1, pn_at)));
            match read_varint(data, pn_at) {
                Ok((packet_number, next)) => Ok(
                    (PacketHeader::Short(ShortHeader { dest_conn_id, packet_number }), next),
                ),
                Err(_) => Err(PacketError::InvalidFormat),
            }
        }
    }

    /// Appends the wire form of this header to `buf`.  A header that has no
    /// wire form is refused, and `buf` is left as it was.
    pub fn encode(&self, buf: &mut bytes::BytesMut) -> (res: Result<(), PacketError>)
        ensures
            res is Ok <==> self@.encodable(),
            res is Ok ==> bytes_mut_content(*final(buf)) == bytes_mut_content(*old(buf))
                + self@.encode(),
            res is Err ==> bytes_mut_content(*final(buf)) == bytes_mut_content(*old(buf)),
    {
        match self.to_bytes() {
            Ok(out) => {
                put_slice(buf, out.as_slice());
                Ok(())
            },
            Err(e) => Err(e),
        }
    }

    /// Takes one header off the front of `buf`.  Where none can be read,
    /// fails and leaves `buf` as it was.
    pub fn decode(buf: &mut bytes::Bytes) -> (res: Result<PacketHeader, PacketError>)
        ensures
            match res {
                Ok(header) => {
                    &&& decode_header(bytes_content(*old(buf))) is Some
                    &&& header@ == decode_header(bytes_content(*old(buf))).unwrap().0
                    &&& bytes_content(*final(buf)) == bytes_content(*old(buf)).skip(
                        decode_header(bytes_content(*old(buf))).unwrap().1 as int,
                    )
                },
                Err(_) => {
                    &&& decode_header(bytes_content(*old(buf))) is None
                    &&& bytes_content(*final(buf)) == bytes_content(*old(buf))
                },
            },
    {
        let parsed = PacketHeader::from_bytes(chunk(buf));
        match parsed {
            Ok((header, used)) => {
                advance(buf, used);
                Ok(header)
            },
            Err(e) => Err(e),
        }
    }
}

} // verus!
