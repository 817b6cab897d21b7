//! Frames: PADDING, PING, CRYPTO and CONNECTION_CLOSE, and their wire form.
//!
//! Every frame starts with a type byte.  Numbers are variable-length
//! integers, and a byte string is written as its length followed by its
//! bytes.  PADDING has no length on the wire: each padding byte is a zero,
//! and a run of zeros is read back as one frame.

use crate::buffer::{
    advance, bytes_content, bytes_mut_content, chunk, copy_from_slice, put_slice,
};
use crate::varint::{
    lemma_varint_round_trip, read_varint, varint_decode, varint_encode, varint_len, write_varint,
    VARINT_LIMIT,
};
use vstd::prelude::*;
use vstd::slice::{slice_subrange, slice_to_vec};
use vstd::string::StringExecFns;
use vstd::utf8::{decode_utf8, encode_utf8, encode_utf8_decode_utf8, encode_utf8_valid_utf8, valid_utf8};

verus! {

pub const FRAME_TYPE_PADDING: u8 = 0x00;

pub const FRAME_TYPE_PING: u8 = 0x01;

pub const FRAME_TYPE_CRYPTO: u8 = 0x06;

pub const FRAME_TYPE_CONNECTION_CLOSE: u8 = 0x1c;

#[derive(Debug, Clone, PartialEq, Eq)]
pub enum FrameType {
    Padding,
    Ping,
    Crypto,
    ConnectionClose,
}

impl FrameType {
    /// The type byte that opens a frame of this type.
    pub open spec fn spec_code(self) -> u8 {
        match self {
            FrameType::Padding => FRAME_TYPE_PADDING,
            FrameType::Ping => FRAME_TYPE_PING,
            FrameType::Crypto => FRAME_TYPE_CRYPTO,
            FrameType::ConnectionClose => FRAME_TYPE_CONNECTION_CLOSE,
        }
    }

    pub fn code(&self) -> (c: u8)
        ensures
            c == self.spec_code(),
    {
        match self {
            FrameType::Padding => FRAME_TYPE_PADDING,
            FrameType::Ping => FRAME_TYPE_PING,
            FrameType::Crypto => FRAME_TYPE_CRYPTO,
            FrameType::ConnectionClose => FRAME_TYPE_CONNECTION_CLOSE,
        }
    }
}

#[derive(Debug, Clone)]
pub enum Frame {
    Padding { length: usize },
    Ping,
    Crypto { offset: u64, data: bytes::Bytes },
    ConnectionClose { error_code: u64, trigger_frame_type: u64, reason: String },
}

/// What a frame says, with its data as bytes and its reason as characters.
pub enum FrameView {
    Padding { length: nat },
    Ping,
    Crypto { offset: u64, data: Seq<u8> },
    ConnectionClose { error_code: u64, trigger_frame_type: u64, reason: Seq<char> },
}

impl View for Frame {
    type V = FrameView;

    open spec fn view(&self) -> FrameView {
        match self {
            Frame::Padding { length } => FrameView::Padding { length: *length as nat },
            Frame::Ping => FrameView::Ping,
            Frame::Crypto { offset, data } => FrameView::Crypto {
                offset: *offset,
                data: bytes_content(*data),
            },
            Frame::ConnectionClose { error_code, trigger_frame_type, reason } => {
                FrameView::ConnectionClose {
                    error_code: *error_code,
                    trigger_frame_type: *trigger_frame_type,
                    reason: reason@,
                }
            },
        }
    }
}

#[derive(Debug)]
pub enum FrameError {
    InvalidFormat,
    UnknownFrameType(u8),
}

/// The character of a decimal digit.
pub open spec fn digit(d: nat) -> char {
    if d == 0 {
        '0'
    } else if d == 1 {
        '1'
    } else if d == 2 {
        '2'
    } else if d == 3 {
        '3'
    } else if d == 4 {
        '4'
    } else if d == 5 {
        '5'
    } else if d == 6 {
        '6'
    } else if d == 7 {
        '7'
    } else if d == 8 {
        '8'
    } else {
        '9'
    }
}

/// A number in decimal, without leading zeros.
pub open spec fn decimal(n: nat) -> Seq<char>
    decreases n,
{
    if n < 10 {
        seq![digit(n)]
    } else {
        decimal(n / 10).push(digit(n % 10))
    }
}

fn digit_text(d: u8) -> (text: &'static str)
    requires
        d < 10,
    ensures
        text@ == seq![digit(d as nat)],
{
    proof {
        reveal_strlit("0");
        reveal_strlit("1");
        reveal_strlit("2");
        reveal_strlit("3");
        reveal_strlit("4");
        reveal_strlit("5");
        reveal_strlit("6");
        reveal_strlit("7");
        reveal_strlit("8");
        reveal_strlit("9");
    }
    let text = match d {
        0 => "0",
        1 => "1",
        2 => "2",
        3 => "3",
        4 => "4",
        5 => "5",
        6 => "6",
        7 => "7",
        8 => "8",
        _ => "9",
    };
    text
}

impl FrameError {
    /// The message that describes this error; an unknown frame type is
    /// named in decimal.
    pub fn to_string(&self) -> (s: String)
        ensures
            s@ == match self {
                FrameError::InvalidFormat => "Invalid frame format"@,
                FrameError::UnknownFrameType(t) => "Unknown frame type: "@ + decimal(*t as nat),
            },
    {
        match self {
            FrameError::InvalidFormat => "Invalid frame format".to_string(),
            FrameError::UnknownFrameType(t) => {
                let t = *t;
                let mut s = "Unknown frame type: ".to_string();
                if t >= 100 {
                    s.append(digit_text(t / 100));
                }
                if t >= 10 {
                    s.append(digit_text(t / 10 % 10));
                }
                s.append(digit_text(t % 10));
                proof {
                    let n = t as nat;
                    if n >= 100 {
                        assert(decimal(n / 10) == decimal(n / 100).push(digit(n / 10 % 10)));
                    } else if n >= 10 {
                        assert(decimal(n) == decimal(n / 10).push(digit(n % 10)));
                    }
                }
                s
            },
        }
    }
}

/// `n` zero bytes.
pub open spec fn zeros(n: nat) -> Seq<u8> {
    Seq::new(n, |i: int| 0u8)
}

/// How many zero bytes `bytes` starts with.
pub open spec fn zero_run(bytes: Seq<u8>) -> nat
    decreases bytes.len(),
{
    if bytes.len() == 0 || bytes[0] != 0 {
        0
    } else {
        1 + zero_run(bytes.skip(1))
    }
}

/// A byte string on the wire: its length, then its bytes.
pub open spec fn encode_byte_string(bytes: Seq<u8>) -> Seq<u8> {
    varint_encode(bytes.len() as u64) + bytes
}

/// Reads a byte string from the front of `bytes`: the string and the number
/// of bytes that it and its length took.
pub open spec fn decode_byte_string(bytes: Seq<u8>) -> Option<(Seq<u8>, nat)> {
    match varint_decode(bytes) {
        None => None,
        Some((len, n)) => if bytes.len() - n < len {
            None
        } else {
            Some((bytes.subrange(n as int, n + len), (n + len) as nat))
        },
    }
}

impl FrameView {
    /// Whether the frame has a wire form: every number in it, and the length
    /// of every byte string, is below 2^62.
    pub open spec fn encodable(self) -> bool {
        match self {
            FrameView::Padding { length } => true,
            FrameView::Ping => true,
            FrameView::Crypto { offset, data } => offset < VARINT_LIMIT && data.len()
                < VARINT_LIMIT,
            FrameView::ConnectionClose { error_code, trigger_frame_type, reason } => {
                &&& error_code < VARINT_LIMIT
                &&& trigger_frame_type < VARINT_LIMIT
                &&& encode_utf8(reason).len() < VARINT_LIMIT
            },
        }
    }

    /// The wire form of an encodable frame.
    pub open spec fn encode(self) -> Seq<u8> {
        match self {
            FrameView::Padding { length } => zeros(length),
            FrameView::Ping => seq![FRAME_TYPE_PING],
            FrameView::Crypto { offset, data } => seq![FRAME_TYPE_CRYPTO] + varint_encode(offset)
                + encode_byte_string(data),
            FrameView::ConnectionClose { error_code, trigger_frame_type, reason } => seq![
                FRAME_TYPE_CONNECTION_CLOSE,
            ] + varint_encode(error_code) + varint_encode(trigger_frame_type)
                + encode_byte_string(encode_utf8(reason)),
        }
    }
}

/// Reads the fields of a CRYPTO frame, which follow its type byte.
pub open spec fn decode_crypto_body(body: Seq<u8>) -> Option<(FrameView, nat)> {
    match varint_decode(body) {
        None => None,
        Some((offset, n1)) => match decode_byte_string(body.skip(n1 as int)) {
            None => None,
            Some((data, n2)) => Some((FrameView::Crypto { offset, data }, n1 + n2)),
        },
    }
}

/// Reads the fields of a CONNECTION_CLOSE frame, which follow its type byte.
/// The reason must be well-formed UTF-8.
pub open spec fn decode_close_body(body: Seq<u8>) -> Option<(FrameView, nat)> {
    match varint_decode(body) {
        None => None,
        Some((error_code, n1)) => match varint_decode(body.skip(n1 as int)) {
            None => None,
            Some((trigger_frame_type, n2)) => match decode_byte_string(
                body.skip(n1 as int).skip(n2 as int),
            ) {
                None => None,
                Some((reason, n3)) => if valid_utf8(reason) {
                    Some(
                        (
                            FrameView::ConnectionClose {
                                error_code,
                                trigger_frame_type,
                                reason: decode_utf8(reason),
                            },
                            n1 + n2 + n3,
                        ),
                    )
                } else {
                    None
                },
            },
        },
    }
}

/// Reads one frame from the front of `bytes`: the frame and the number of
/// bytes it took.  A run of zeros is one PADDING frame.  A type byte that
/// names no frame is reported; every other failure is a format error.
pub open spec fn decode_frame(bytes: Seq<u8>) -> Result<(FrameView, nat), FrameError> {
    if bytes.len() == 0 {
        Err(FrameError::InvalidFormat)
    } else if bytes[0] == FRAME_TYPE_PADDING {
        Ok((FrameView::Padding { length: zero_run(bytes) }, zero_run(bytes)))
    } else if bytes[0] == FRAME_TYPE_PING {
        Ok((FrameView::Ping, 1))
    } else if bytes[0] == FRAME_TYPE_CRYPTO {
        match decode_crypto_body(bytes.skip(1)) {
            None => Err(FrameError::InvalidFormat),
            Some((frame, n)) => Ok((frame, 1 + n)),
        }
    } else if bytes[0] == FRAME_TYPE_CONNECTION_CLOSE {
        match decode_close_body(bytes.skip(1)) {
            None => Err(FrameError::InvalidFormat),
            Some((frame, n)) => Ok((frame, 1 + n)),
        }
    } else {
        Err(FrameError::UnknownFrameType(bytes[0]))
    }
}

/// A run of zeros is never longer than the bytes it is found in.
pub proof fn lemma_zero_run_bound(bytes: Seq<u8>)
    ensures
        zero_run(bytes) <= bytes.len(),
    decreases bytes.len(),
{
    if bytes.len() > 0 && bytes[0] == 0 {
        lemma_zero_run_bound(bytes.skip(1));
    }
}

/// `n` zeros, followed by nothing or by a byte that is not zero, start with
/// a run of exactly `n` zeros.
pub proof fn lemma_zero_run_of_zeros(n: nat, rest: Seq<u8>)
    requires
        rest.len() == 0 || rest[0] != 0,
    ensures
        zero_run(zeros(n) + rest) == n,
    decreases n,
{
    let all = zeros(n) + rest;
    if n > 0 {
        assert(all.skip(1) =~= zeros((n - 1) as nat) + rest);
        lemma_zero_run_of_zeros((n - 1) as nat, rest);
    }
}

/// Reading back a byte string that was written gives the same string,
/// whatever follows it.
pub proof fn lemma_byte_string_round_trip(bytes: Seq<u8>, rest: Seq<u8>)
    requires
        bytes.len() < VARINT_LIMIT,
    ensures
        decode_byte_string(encode_byte_string(bytes) + rest) == Some(
            (bytes, encode_byte_string(bytes).len()),
        ),
{
    let len = bytes.len() as u64;
    let all = encode_byte_string(bytes) + rest;
    lemma_varint_round_trip(len, bytes + rest);
    assert(all =~= varint_encode(len) + (bytes + rest));
}

/// A CRYPTO frame that was written is read back as it was.
proof fn lemma_crypto_round_trip(offset: u64, data: Seq<u8>, rest: Seq<u8>)
    requires
        offset < VARINT_LIMIT,
        data.len() < VARINT_LIMIT,
    ensures
        ({
            let body = varint_encode(offset) + encode_byte_string(data);
            decode_crypto_body(body + rest) == Some(
                (FrameView::Crypto { offset, data }, body.len()),
            )
        }),
{
    let tail = encode_byte_string(data) + rest;
    let all = varint_encode(offset) + encode_byte_string(data) + rest;
    lemma_varint_round_trip(offset, tail);
    lemma_byte_string_round_trip(data, rest);
    assert(all =~= varint_encode(offset) + tail);
    assert(all.skip(varint_len(offset) as int) =~= tail);
}

/// A CONNECTION_CLOSE frame that was written is read back as it was.
proof fn lemma_close_round_trip(
    error_code: u64,
    trigger_frame_type: u64,
    reason: Seq<char>,
    rest: Seq<u8>,
)
    requires
        error_code < VARINT_LIMIT,
        trigger_frame_type < VARINT_LIMIT,
        encode_utf8(reason).len() < VARINT_LIMIT,
    ensures
        ({
            let body = varint_encode(error_code) + varint_encode(trigger_frame_type)
                + encode_byte_string(encode_utf8(reason));
            decode_close_body(body + rest) == Some(
                (
                    FrameView::ConnectionClose { error_code, trigger_frame_type, reason },
                    body.len(),
                ),
            )
        }),
{
    let text = encode_utf8(reason);
    let tail2 = encode_byte_string(text) + rest;
    let tail1 = varint_encode(trigger_frame_type) + tail2;
    let all = varint_encode(error_code) + varint_encode(trigger_frame_type) + encode_byte_string(
        text,
    ) + rest;
    lemma_varint_round_trip(error_code, tail1);
    lemma_varint_round_trip(trigger_frame_type, tail2);
    lemma_byte_string_round_trip(text, rest);
    assert(all =~= varint_encode(error_code) + tail1);
    assert(all.skip(varint_len(error_code) as int) =~= tail1);
    assert(tail1.skip(varint_len(trigger_frame_type) as int) =~= tail2);
    encode_utf8_valid_utf8(reason);
    encode_utf8_decode_utf8(reason);
}

/// Decoding the wire form of a frame gives the same frame back and takes
/// exactly the bytes that were written.  This holds of PING, CRYPTO and
/// CONNECTION_CLOSE whatever follows the frame, and of a PADDING of at least
/// one byte that is followed by nothing or by a byte that is not zero: `n`
/// zeros are read as one PADDING of length `n`.
pub proof fn lemma_frame_round_trip(frame: FrameView, rest: Seq<u8>)
    requires
        frame.encodable(),
        frame matches FrameView::Padding { length } ==> length >= 1 && (rest.len() == 0 || rest[0]
            != 0),
    ensures
        decode_frame(frame.encode() + rest) == Ok::<(FrameView, nat), FrameError>(
            (frame, frame.encode().len()),
        ),
{
    let all = frame.encode() + rest;
    match frame {
        FrameView::Padding { length } => {
            lemma_zero_run_of_zeros(length, rest);
        },
        FrameView::Ping => {},
        FrameView::Crypto { offset, data } => {
            let body = varint_encode(offset) + encode_byte_string(data);
            lemma_crypto_round_trip(offset, data, rest);
            assert(all.skip(1) =~= body + rest);
        },
        FrameView::ConnectionClose { error_code, trigger_frame_type, reason } => {
            let body = varint_encode(error_code) + varint_encode(trigger_frame_type)
                + encode_byte_string(encode_utf8(reason));
            lemma_close_round_trip(error_code, trigger_frame_type, reason, rest);
            assert(all.skip(1) =~= body + rest);
        },
    }
}

/// `String::from_utf8`: the string that the bytes spell, where they are
/// well-formed UTF-8, and nothing otherwise.
#[verifier::external_body]
fn string_from_utf8(bytes: Vec<u8>) -> (res: Option<String>)
    ensures
        res is Some <==> valid_utf8(bytes@),
        res is Some ==> res.unwrap()@ == decode_utf8(bytes@),
{
    String::from_utf8(bytes).ok()
}

/// Appends a number in its wire form, or refuses one of 2^62 or more and
/// leaves `buf` as it was.
pub fn encode_varint(buf: &mut bytes::BytesMut, value: u64) -> (res: Result<(), FrameError>)
    ensures
        res is Ok <==> value < VARINT_LIMIT,
        res is Ok ==> bytes_mut_content(*final(buf)) == bytes_mut_content(*old(buf))
            + varint_encode(value),
        res is Err ==> bytes_mut_content(*final(buf)) == bytes_mut_content(*old(buf)),
{
    let mut out: Vec<u8> = Vec::new();
    match write_varint(&mut out, value) {
        Ok(()) => {
            put_slice(buf, out.as_slice());
            Ok(())
        },
        Err(_) => Err(FrameError::InvalidFormat),
    }
}

/// Takes a number off the front of `buf`.  Where `buf` ends before the
/// number does, fails with a format error and leaves `buf` as it was.
pub fn decode_varint(buf: &mut bytes::Bytes) -> (res: Result<u64, FrameError>)
    ensures
        match res {
            Ok(value) => {
                &&& varint_decode(bytes_content(*old(buf))) is Some
                &&& value == varint_decode(bytes_content(*old(buf))).unwrap().0
                &&& bytes_content(*final(buf)) == bytes_content(*old(buf)).skip(
                    varint_decode(bytes_content(*old(buf))).unwrap().1 as int,
                )
            },
            Err(e) => {
                &&& varint_decode(bytes_content(*old(buf))) is None
                &&& e == FrameError::InvalidFormat
                &&& bytes_content(*final(buf)) == bytes_content(*old(buf))
            },
        },
{
    let data = chunk(buf);
    assert(data@.skip(0) =~= data@);
    let parsed = read_varint(data, 0);
    match parsed {
        Ok((value, next)) => {
            advance(buf, next);
            Ok(value)
        },
        Err(_) => Err(FrameError::InvalidFormat),
    }
}

/// Appends a byte string in its wire form.
fn write_byte_string(out: &mut Vec<u8>, bytes: &[u8]) -> (res: Result<(), FrameError>)
    ensures
        res is Ok <==> bytes@.len() < VARINT_LIMIT,
        res is Ok ==> final(out)@ == old(out)@ + encode_byte_string(bytes@),
        res is Err ==> res.unwrap_err() == FrameError::InvalidFormat,
{
    let len = bytes.len();
    if len as u64 >= VARINT_LIMIT {
        return Err(FrameError::InvalidFormat);
    }
    match write_varint(out, len as u64) {
        Ok(()) => {
            out.extend_from_slice(bytes);
            Ok(())
        },
        Err(_) => Err(FrameError::InvalidFormat),
    }
}

/// Reads a byte string that starts at `pos`: where it starts and where it
/// ends in `data`.
fn read_byte_string(data: &[u8], pos: usize) -> (res: Option<(usize, usize)>)
    requires
        pos <= data@.len(),
    ensures
        match res {
            Some((from, to)) => {
                &&& pos < from <= to <= data@.len()
                &&& decode_byte_string(data@.skip(pos as int)) == Some(
                    (data@.subrange(from as int, to as int), (to - pos) as nat),
                )
            },
            None => decode_byte_string(data@.skip(pos as int)) is None,
        },
{
    match read_varint(data, pos) {
        Err(_) => None,
        Ok((len, from)) => {
            let left = data.len() - from;
            if len > left as u64 {
                None
            } else {
                let to = from + len as usize;
                Some((from, to))
            }
        },
    }
}

impl Frame {
    /// The wire form of this frame, or a format error where it has none.
    pub fn to_bytes(&self) -> (res: Result<Vec<u8>, FrameError>)
        ensures
            res is Ok <==> self@.encodable(),
            res is Ok ==> res.unwrap()@ == self@.encode(),
            res is Err ==> res.unwrap_err() == FrameError::InvalidFormat,
    {
        let mut out: Vec<u8> = Vec::new();
        match self {
            Frame::Padding { length } => {
                let n = *length;
                while out.len() < n
                    invariant
                        out@.len() <= n,
                        out@ == zeros(out@.len()),
                    decreases n - out@.len(),
                {
                    out.push(0x00);
                }
                Ok(out)
            },
            Frame::Ping => {
                out.push(FRAME_TYPE_PING);
                Ok(out)
            },
            Frame::Crypto { offset, data } => {
                out.push(FRAME_TYPE_CRYPTO);
                match write_varint(&mut out, *offset) {
                    Ok(()) => {},
                    Err(_) => {
                        return Err(FrameError::InvalidFormat);
                    },
                }
                match write_byte_string(&mut out, chunk(data)) {
                    Ok(()) => Ok(out),
                    Err(e) => Err(e),
                }
            },
            Frame::ConnectionClose { error_code, trigger_frame_type, reason } => {
                out.push(FRAME_TYPE_CONNECTION_CLOSE);
                match write_varint(&mut out, *error_code) {
                    Ok(()) => {},
                    Err(_) => {
                        return Err(FrameError::InvalidFormat);
                    },
                }
                match write_varint(&mut out, *trigger_frame_type) {
                    Ok(()) => {},
                    Err(_) => {
                        return Err(FrameError::InvalidFormat);
                    },
                }
                match write_byte_string(&mut out, reason.as_str().as_bytes()) {
                    Ok(()) => Ok(out),
                    Err(e) => Err(e),
                }
            },
        }
    }

    /// Reads one frame from the front of `data`: the frame and the number of
    /// bytes it took.
    pub fn from_bytes(data: &[u8]) -> (res: Result<(Frame, usize), FrameError>)
        ensures
            match res {
                Ok((frame, used)) => decode_frame(data@) == Ok::<(FrameView, nat), FrameError>(
                    (frame@, used as nat),
                ) && 0 < used <= data@.len(),
                Err(e) => decode_frame(data@) == Err::<(FrameView, nat), FrameError>(e),
            },
    {
        let len = data.len();
        if len == 0 {
            return Err(FrameError::InvalidFormat);
        }
        let frame_type = data[0];
        if frame_type == FRAME_TYPE_PADDING {
            let mut length: usize = 1;
            while length < len && data[length] == 0x00
                invariant
                    1 <= length <= len,
                    len == data@.len(),
                    zero_run(data@) == length + zero_run(data@.skip(length as int)),
                decreases len - length,
            {
                assert(data@.skip(length as int).skip(1) =~= data@.skip(length + 1));
                length += 1;
            }
            Ok((Frame::Padding { length }, length))
        } else if frame_type == FRAME_TYPE_PING {
            Ok((Frame::Ping, 1))
        } else if frame_type == FRAME_TYPE_CRYPTO {
            let ghost body = data@.skip(1);
            match read_varint(data, 1) {
                Err(_) => Err(FrameError::InvalidFormat),
                Ok((offset, at)) => {
                    assert(body.skip(at - 1) =~= data@.skip(at as int));
                    match read_byte_string(data, at) {
                        None => Err(FrameError::InvalidFormat),
                        Some((from, to)) => {
                            let bytes = copy_from_slice(slice_subrange(data, from, to));
                            Ok((Frame::Crypto { offset, data: bytes }, to))
                        },
                    }
                },
            }
        } else if frame_type == FRAME_TYPE_CONNECTION_CLOSE {
            let ghost body = data@.skip(1);
            match read_varint(data, 1) {
                Err(_) => Err(FrameError::InvalidFormat),
                Ok((error_code, at1)) => {
                    assert(body.skip(at1 - 1) =~= data@.skip(at1 as int));
                    match read_varint(data, at1) {
                        Err(_) => Err(FrameError::InvalidFormat),
                        Ok((trigger_frame_type, at2)) => {
                            assert(body.skip(at1 - 1).skip(at2 - at1) =~= data@.skip(at2 as int));
                            match read_byte_string(data, at2) {
                                None => Err(FrameError::InvalidFormat),
                                Some((from, to)) => {
                                    let text = slice_to_vec(slice_subrange(data, from, to));
                                    match string_from_utf8(text) {
                                        None => Err(FrameError::InvalidFormat),
                                        Some(reason) => Ok(
                                            (
                                                Frame::ConnectionClose {
                                                    error_code,
                                                    trigger_frame_type,
                                                    reason,
                                                },
                                                to,
                                            ),
                                        ),
                                    }
                                },
                            }
                        },
                    }
                },
            }
        } else {
            Err(FrameError::UnknownFrameType(frame_type))
        }
    }

    /// Appends the wire form of this frame to `buf`.  A frame that has no
    /// wire form is refused with a format error, and `buf` is left as it was.
    pub fn encode(&self, buf: &mut bytes::BytesMut) -> (res: Result<(), FrameError>)
        ensures
            res is Ok <==> self@.encodable(),
            res is Ok ==> bytes_mut_content(*final(buf)) == bytes_mut_content(*old(buf))
                + self@.encode(),
            res is Err ==> res.unwrap_err() == FrameError::InvalidFormat && bytes_mut_content(
                *final(buf),
            ) == bytes_mut_content(*old(buf)),
    {
        match self.to_bytes() {
            Ok(out) => {
                put_slice(buf, out.as_slice());
                Ok(())
            },
            Err(e) => Err(e),
        }
    }

    /// Takes one frame off the front of `buf`.  Where none can be read, fails
    /// with the error that says why and leaves `buf` as it was.
    pub fn decode(buf: &mut bytes::Bytes) -> (res: Result<Frame, FrameError>)
        ensures
            match res {
                Ok(frame) => {
                    &&& decode_frame(bytes_content(*old(buf))) is Ok
                    &&& frame@ == decode_frame(bytes_content(*old(buf))).unwrap().0
                    &&& bytes_content(*final(buf)) == bytes_content(*old(buf)).skip(
                        decode_frame(bytes_content(*old(buf))).unwrap().1 as int,
                    )
                },
                Err(e) => {
                    &&& decode_frame(bytes_content(*old(buf))) == Err::<
                        (FrameView, nat),
                        FrameError,
                    >(e)
                    &&& bytes_content(*final(buf)) == bytes_content(*old(buf))
                },
            },
    {
        let parsed = Frame::from_bytes(chunk(buf));
        match parsed {
            Ok((frame, used)) => {
                advance(buf, used);
                Ok(frame)
            },
            Err(e) => Err(e),
        }
    }
}

} // verus!
