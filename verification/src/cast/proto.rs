//! CASTV2 `CastMessage` framing.
//!
//! Chromecasts exchange length-prefixed protobuf frames: four bytes of big-endian
//! length, then the message. The fields and their numbers are fixed by the
//! protocol.
use vstd::prelude::*;
use vstd::slice::{slice_subrange, slice_to_vec};
use vstd::utf8::{decode_utf8, encode_utf8, valid_utf8};
use crate::text::opt_view;

verus! {

/// Protocol versions.
#[derive(Debug, Clone, Copy, PartialEq, Eq, Structural)]
pub enum ProtocolVersion {
    Castv210,
}

impl ProtocolVersion {
    /// The number on the wire.
    pub fn number(self) -> (n: i32)
        ensures
            n == 0,
    {
        0
    }
}

/// Payload encodings.
#[derive(Debug, Clone, Copy, PartialEq, Eq, Structural)]
pub enum PayloadType {
    String,
    Binary,
}

impl PayloadType {
    /// The number on the wire.
    pub open spec fn wire(self) -> i32 {
        match self {
            PayloadType::String => 0,
            PayloadType::Binary => 1,
        }
    }

    /// The number on the wire.
    pub fn number(self) -> (n: i32)
        ensures
            n == self.wire(),
    {
        match self {
            PayloadType::String => 0,
            PayloadType::Binary => 1,
        }
    }
}

/// CASTV2 wire message.
#[derive(Debug, Clone, PartialEq, Eq)]
pub struct CastMessage {
    /// Field 1. Optional, so that it is written even when zero: a Chromecast
    /// requires it and drops messages that omit it.
    pub protocol_version: Option<i32>,
    /// Field 2: logical sender id, e.g. `"sender-0"`.
    pub source_id: String,
    /// Field 3: logical destination id, e.g. `"receiver-0"` or a transportId.
    pub destination_id: String,
    /// Field 4: namespace URI.
    pub namespace: String,
    /// Field 5: the number of a [`PayloadType`]. Written even when zero, too.
    pub payload_type: Option<i32>,
    /// Field 6: UTF-8 JSON payload.
    pub payload_utf8: Option<String>,
    /// Field 7: binary payload.
    pub payload_binary: Option<Vec<u8>>,
}

/// What a [`CastMessage`] says.
pub struct MessageData {
    pub protocol_version: Option<i32>,
    pub source_id: Seq<char>,
    pub destination_id: Seq<char>,
    pub namespace: Seq<char>,
    pub payload_type: Option<i32>,
    pub payload_utf8: Option<Seq<char>>,
    pub payload_binary: Option<Seq<u8>>,
}

/// The bytes of an optional byte string.
pub open spec fn opt_bytes(o: Option<Vec<u8>>) -> Option<Seq<u8>> {
    match o {
        Some(b) => Some(b@),
        None => None,
    }
}

impl View for CastMessage {
    type V = MessageData;

    open spec fn view(&self) -> MessageData {
        MessageData {
            protocol_version: self.protocol_version,
            source_id: self.source_id@,
            destination_id: self.destination_id@,
            namespace: self.namespace@,
            payload_type: self.payload_type,
            payload_utf8: opt_view(self.payload_utf8),
            payload_binary: opt_bytes(self.payload_binary),
        }
    }
}

// ── Numbers on the wire ──────────────────────────────────────────────────────

/// A number in base 128, least significant digit first; every byte but the last
/// has its top bit set.
pub open spec fn varint(n: nat) -> Seq<u8>
    decreases n,
{
    if n < 128 {
        seq![n as u8]
    } else {
        seq![(n % 128 + 128) as u8] + varint(n / 128)
    }
}

/// How many bytes a number takes: those with the top bit set, and one more.
pub open spec fn varint_size(s: Seq<u8>) -> nat
    decreases s.len(),
{
    if s.len() == 0 || s[0] < 128 {
        1
    } else {
        1 + varint_size(s.drop_first())
    }
}

/// The number that these bytes write.
pub open spec fn varint_value(s: Seq<u8>) -> nat
    decreases s.len(),
{
    if s.len() == 0 {
        0
    } else {
        (s[0] as nat) % 128 + 128 * varint_value(s.drop_first())
    }
}

/// The number at the front, and how many bytes it takes. Ten bytes at most, and
/// no more than 64 bits.
pub open spec fn read_varint(s: Seq<u8>) -> Option<(nat, nat)> {
    let n = varint_size(s);
    if n > s.len() || n > 10 || (n == 10 && s[9] >= 2) {
        None
    } else {
        Some((varint_value(s.take(n as int)), n))
    }
}

/// `prost::encoding::encode_varint` into a `Vec<u8>`: appends the number in base
/// 128.
#[verifier::external_body]
fn put_varint(value: u64, buf: &mut Vec<u8>)
    ensures
        final(buf)@ == old(buf)@ + varint(value as nat),
{
    prost::encoding::encode_varint(value, buf)
}

/// `prost::encoding::decode_varint` on a byte slice: takes a number off the
/// front, and fails where there is none or it is too long.
#[verifier::external_body]
fn take_varint(buf: &mut &[u8]) -> (out: Option<u64>)
    ensures
        match read_varint((*old(buf))@) {
            Some((v, n)) => out is Some && out->0 as nat == v && (*final(buf))@ == (*old(buf))@.skip(n as int),
            None => out is None,
        },
{
    prost::encoding::decode_varint(buf).ok()
}

/// How many bytes of a group with that field number `prost::encoding::skip_field`
/// passes over, at the top level of a message; `None` where it finds the group
/// malformed.
pub uninterp spec fn skipped_group(tag: u32, s: Seq<u8>) -> Option<nat>;

/// How many bytes the value of a field takes that is not known, by its wire type: a
/// number, eight bytes, a length with as many bytes, a group, or four bytes. A group
/// does not start with its end.
pub open spec fn skipped_size(wire: u8, tag: u32, s: Seq<u8>) -> Option<nat> {
    if wire == 0 {
        match read_varint(s) {
            Some((_, n)) => Some(n),
            None => None,
        }
    } else if wire == 1 {
        if s.len() >= 8 {
            Some(8)
        } else {
            None
        }
    } else if wire == 2 {
        match read_bytes(s) {
            Some((_, n)) => Some(n),
            None => None,
        }
    } else if wire == 3 {
        skipped_group(tag, s)
    } else if wire == 5 {
        if s.len() >= 4 {
            Some(4)
        } else {
            None
        }
    } else {
        None
    }
}

/// `prost::encoding::skip_field` on a byte slice: passes over the value of a field
/// that is not known. It never passes over more than there is. Of a group, only the
/// name says how long it is.
#[verifier::external_body]
fn skip_value(wire: u8, tag: u32, buf: &mut &[u8]) -> (ok: bool)
    requires
        wire <= 5,
    ensures
        wire == 3 ==> ok == skipped_group(tag, (*old(buf))@) is Some,
        match skipped_size(wire, tag, (*old(buf))@) {
            Some(n) => ok && n <= (*old(buf))@.len() && (*final(buf))@ == (*old(buf))@.skip(n as int),
            None => !ok,
        },
{
    match prost::encoding::WireType::try_from(wire as u64) {
        Ok(w) => prost::encoding::skip_field(w, tag, buf, prost::encoding::DecodeContext::default()).is_ok(),
        Err(_) => false,
    }
}

/// `String::from_utf8`: the text that the bytes encode, where they are UTF-8.
#[verifier::external_body]
fn utf8_text(bytes: Vec<u8>) -> (out: Option<String>)
    ensures
        match out {
            Some(s) => valid_utf8(bytes@) && s@ == decode_utf8(bytes@),
            None => !valid_utf8(bytes@),
        },
{
    String::from_utf8(bytes).ok()
}

/// A signed number as it is widened to 64 bits on the wire.
pub open spec fn widened(v: i32) -> nat {
    if v >= 0 {
        v as nat
    } else {
        (0x1_0000_0000_0000_0000 + v) as nat
    }
}

/// The signed number of the low 32 bits.
pub open spec fn narrowed(n: nat) -> i32 {
    let low = n % 0x1_0000_0000;
    if low < 0x8000_0000 {
        low as i32
    } else {
        (low - 0x1_0000_0000) as i32
    }
}

fn widen(v: i32) -> (n: u64)
    ensures
        n as nat == widened(v),
{
    if v >= 0 {
        v as u64
    } else {
        let w: i64 = -(v as i64) - 1;
        u64::MAX - w as u64
    }
}

fn narrow(n: u64) -> (v: i32)
    ensures
        v == narrowed(n as nat),
{
    let low: i64 = (n % 0x1_0000_0000) as i64;
    if low < 0x8000_0000 {
        low as i32
    } else {
        (low - 0x1_0000_0000) as i32
    }
}

// ── Writing ──────────────────────────────────────────────────────────────────

/// The key of a field.
pub open spec fn key_bytes(tag: u32, wire: u8) -> Seq<u8> {
    varint((tag * 8 + wire) as nat)
}

/// A number field.
pub open spec fn number_field(tag: u32, v: Option<i32>) -> Seq<u8> {
    match v {
        Some(n) => key_bytes(tag, 0) + varint(widened(n)),
        None => Seq::empty(),
    }
}

/// A length-delimited field.
pub open spec fn bytes_field(tag: u32, b: Seq<u8>) -> Seq<u8> {
    key_bytes(tag, 2) + varint(b.len()) + b
}

/// A text field that is left out where the text is empty.
pub open spec fn text_field(tag: u32, s: Seq<char>) -> Seq<u8> {
    if s.len() == 0 {
        Seq::empty()
    } else {
        bytes_field(tag, encode_utf8(s))
    }
}

/// The bytes of a message: its fields in the order of their numbers.
pub open spec fn message_bytes(m: MessageData) -> Seq<u8> {
    number_field(1, m.protocol_version) + text_field(2, m.source_id) + text_field(
        3,
        m.destination_id,
    ) + text_field(4, m.namespace) + number_field(5, m.payload_type) + (match m.payload_utf8 {
        Some(s) => bytes_field(6, encode_utf8(s)),
        None => Seq::empty(),
    }) + (match m.payload_binary {
        Some(b) => bytes_field(7, b),
        None => Seq::empty(),
    })
}

fn push_all(buf: &mut Vec<u8>, bytes: &[u8])
    ensures
        final(buf)@ == old(buf)@ + bytes@,
{
    let ghost start = buf@;
    let mut i: usize = 0;
    while i < bytes.len()
        invariant
            i <= bytes@.len(),
            buf@ == start + bytes@.take(i as int),
        decreases bytes@.len() - i,
    {
        buf.push(bytes[i]);
        i = i + 1;
        assert(buf@ == start + bytes@.take(i as int));
    }
    assert(bytes@.take(bytes@.len() as int) == bytes@);
}

fn put_key(tag: u32, wire: u8, buf: &mut Vec<u8>)
    requires
        tag <= 7,
        wire <= 5,
    ensures
        final(buf)@ == old(buf)@ + key_bytes(tag, wire),
{
    put_varint((tag * 8) as u64 + wire as u64, buf)
}

fn put_number(tag: u32, v: Option<i32>, buf: &mut Vec<u8>)
    requires
        tag <= 7,
    ensures
        final(buf)@ == old(buf)@ + number_field(tag, v),
{
    if let Some(n) = v {
        put_key(tag, 0, buf);
        put_varint(widen(n), buf);
    }
    assert(buf@ =~= old(buf)@ + number_field(tag, v));
}

fn put_bytes(tag: u32, b: &[u8], buf: &mut Vec<u8>)
    requires
        tag <= 7,
    ensures
        final(buf)@ == old(buf)@ + bytes_field(tag, b@),
{
    put_key(tag, 2, buf);
    put_varint(b.len() as u64, buf);
    push_all(buf, b);
    assert(buf@ =~= old(buf)@ + bytes_field(tag, b@));
}

fn put_text(tag: u32, s: &str, buf: &mut Vec<u8>)
    requires
        tag <= 7,
    ensures
        final(buf)@ == old(buf)@ + text_field(tag, s@),
{
    if !s.is_empty() {
        put_bytes(tag, s.as_bytes(), buf);
    }
    assert(buf@ =~= old(buf)@ + text_field(tag, s@));
}

/// The bytes of a message.
pub fn encode_message(msg: &CastMessage) -> (out: Vec<u8>)
    ensures
        out@ == message_bytes(msg@),
{
    let mut out: Vec<u8> = Vec::new();
    put_number(1, msg.protocol_version, &mut out);
    put_text(2, msg.source_id.as_str(), &mut out);
    put_text(3, msg.destination_id.as_str(), &mut out);
    put_text(4, msg.namespace.as_str(), &mut out);
    put_number(5, msg.payload_type, &mut out);
    if let Some(s) = &msg.payload_utf8 {
        put_bytes(6, s.as_str().as_bytes(), &mut out);
    }
    if let Some(b) = &msg.payload_binary {
        put_bytes(7, b.as_slice(), &mut out);
    }
    assert(out@ =~= message_bytes(msg@));
    out
}

/// A length as four big-endian bytes.
pub open spec fn big_endian(n: nat) -> Seq<u8> {
    seq![
        (n / 0x100_0000 % 0x100) as u8,
        (n / 0x1_0000 % 0x100) as u8,
        (n / 0x100 % 0x100) as u8,
        (n % 0x100) as u8,
    ]
}

/// The frame of a message: four bytes of big-endian length (its low 32 bits), then
/// the message.
pub open spec fn frame_bytes(m: MessageData) -> Seq<u8> {
    big_endian(message_bytes(m).len()) + message_bytes(m)
}

/// Encode a `CastMessage` into a length-prefixed frame ready to write.
pub fn encode_frame(msg: &CastMessage) -> (frame: Vec<u8>)
    ensures
        frame@ == frame_bytes(msg@),
{
    let payload = encode_message(msg);
    let n: u64 = payload.len() as u64;
    let mut frame: Vec<u8> = Vec::new();
    frame.push((n / 0x100_0000 % 0x100) as u8);
    frame.push((n / 0x1_0000 % 0x100) as u8);
    frame.push((n / 0x100 % 0x100) as u8);
    frame.push((n % 0x100) as u8);
    assert(frame@ =~= big_endian(payload@.len()));
    push_all(&mut frame, payload.as_slice());
    frame
}

// ── Reading ──────────────────────────────────────────────────────────────────

/// The field number and wire type at the front, and how many bytes they take.
pub open spec fn read_key(s: Seq<u8>) -> Option<(u32, u8, nat)> {
    match read_varint(s) {
        Some((key, n)) => if key > u32::MAX || key % 8 > 5 || key / 8 == 0 {
            None
        } else {
            Some(((key / 8) as u32, (key % 8) as u8, n))
        },
        None => None,
    }
}

/// The delimited bytes at the front, and how many bytes they take with their
/// length.
pub open spec fn read_bytes(s: Seq<u8>) -> Option<(Seq<u8>, nat)> {
    match read_varint(s) {
        Some((len, n)) => if len > s.len() - n {
            None
        } else {
            Some((s.subrange(n as int, (n + len) as int), n + len))
        },
        None => None,
    }
}

/// The delimited text at the front, and how many bytes it takes.
pub open spec fn read_text(s: Seq<u8>) -> Option<(Seq<char>, nat)> {
    match read_bytes(s) {
        Some((b, n)) => if valid_utf8(b) {
            Some((decode_utf8(b), n))
        } else {
            None
        },
        None => None,
    }
}

/// A message with one more field read from the front of `s`, and how many bytes
/// the value takes. Fields that are not known are passed over.
pub open spec fn merged_field(m: MessageData, tag: u32, wire: u8, s: Seq<u8>) -> Option<
    (MessageData, nat),
> {
    if tag == 1 || tag == 5 {
        match read_varint(s) {
            Some((v, n)) => if wire != 0 {
                None
            } else if tag == 1 {
                Some((MessageData { protocol_version: Some(narrowed(v)), ..m }, n))
            } else {
                Some((MessageData { payload_type: Some(narrowed(v)), ..m }, n))
            },
            None => None,
        }
    } else if tag == 7 {
        match read_bytes(s) {
            Some((b, n)) => if wire != 2 {
                None
            } else {
                Some((MessageData { payload_binary: Some(b), ..m }, n))
            },
            None => None,
        }
    } else if 2 <= tag <= 6 {
        match read_text(s) {
            Some((t, n)) => if wire != 2 {
                None
            } else if tag == 2 {
                Some((MessageData { source_id: t, ..m }, n))
            } else if tag == 3 {
                Some((MessageData { destination_id: t, ..m }, n))
            } else if tag == 4 {
                Some((MessageData { namespace: t, ..m }, n))
            } else {
                Some((MessageData { payload_utf8: Some(t), ..m }, n))
            },
            None => None,
        }
    } else {
        match skipped_size(wire, tag, s) {
            Some(n) => Some((m, n)),
            None => None,
        }
    }
}

/// A message with all the fields of `s`; a later field replaces an earlier one.
pub open spec fn merged(m: MessageData, s: Seq<u8>) -> Option<MessageData>
    decreases s.len(),
{
    if s.len() == 0 {
        Some(m)
    } else {
        match read_key(s) {
            Some((tag, wire, n)) => match merged_field(m, tag, wire, s.skip(n as int)) {
                Some((next, k)) => if n == 0 || n + k > s.len() {
                    None
                } else {
                    merged(next, s.skip((n + k) as int))
                },
                None => None,
            },
            None => None,
        }
    }
}

/// A message without any field.
pub open spec fn blank() -> MessageData {
    MessageData {
        protocol_version: None,
        source_id: Seq::empty(),
        destination_id: Seq::empty(),
        namespace: Seq::empty(),
        payload_type: None,
        payload_utf8: None,
        payload_binary: None,
    }
}

proof fn lemma_varint_size(s: Seq<u8>)
    ensures
        1 <= varint_size(s) <= s.len() + 1,
    decreases s.len(),
{
    if s.len() > 0 && s[0] >= 128 {
        lemma_varint_size(s.drop_first());
    }
}

fn take_key(buf: &mut &[u8]) -> (out: Option<(u32, u8)>)
    ensures
        match read_key((*old(buf))@) {
            Some((tag, wire, n)) => out == Some((tag, wire)) && (*final(buf))@ == (*old(buf))@.skip(n as int) && wire <= 5,
            None => out is None,
        },
{
    let key: u64 = match take_varint(buf) {
        Some(k) => k,
        None => return None,
    };
    if key > 0xffff_ffff || key % 8 > 5 || key / 8 == 0 {
        return None;
    }
    Some(((key / 8) as u32, (key % 8) as u8))
}

fn take_bytes(buf: &mut &[u8]) -> (out: Option<Vec<u8>>)
    ensures
        match read_bytes((*old(buf))@) {
            Some((b, n)) => out is Some && out->0@ == b && (*final(buf))@ == (*old(buf))@.skip(
                n as int,
            ),
            None => out is None,
        },
{
    let ghost s = (*buf)@;
    proof {
        lemma_varint_size(s);
    }
    let len: u64 = match take_varint(buf) {
        Some(n) => n,
        None => return None,
    };
    let rest: &[u8] = *buf;
    if len > rest.len() as u64 {
        return None;
    }
    let n: usize = len as usize;
    let out = slice_to_vec(slice_subrange(rest, 0, n));
    *buf = slice_subrange(rest, n, rest.len());
    proof {
        let k = (read_varint(s)->0).1 as int;
        assert(rest@ == s.skip(k));
        assert(out@ =~= s.subrange(k, k + n));
        assert((*buf)@ =~= s.skip(k + n));
    }
    Some(out)
}

fn take_text(buf: &mut &[u8]) -> (out: Option<String>)
    ensures
        match read_text((*old(buf))@) {
            Some((t, n)) => out is Some && out->0@ == t && (*final(buf))@ == (*old(buf))@.skip(
                n as int,
            ),
            None => out is None,
        },
{
    match take_bytes(buf) {
        Some(b) => utf8_text(b),
        None => None,
    }
}

/// What an optional message says.
pub open spec fn opt_message(o: Option<CastMessage>) -> Option<MessageData> {
    match o {
        Some(m) => Some(m@),
        None => None,
    }
}

fn blank_message() -> (m: CastMessage)
    ensures
        m@ == blank(),
{
    let m = CastMessage {
        protocol_version: None,
        source_id: String::new(),
        destination_id: String::new(),
        namespace: String::new(),
        payload_type: None,
        payload_utf8: None,
        payload_binary: None,
    };
    m
}

/// Read one field into a message; whether it was well-formed.
fn take_field(msg: &mut CastMessage, tag: u32, wire: u8, buf: &mut &[u8]) -> (ok: bool)
    requires
        wire <= 5,
    ensures
        match merged_field(old(msg)@, tag, wire, (*old(buf))@) {
            Some((next, n)) => ok && final(msg)@ == next && n <= (*old(buf))@.len() && (*final(buf))@ == (*old(buf))@.skip(n as int),
            None => !ok,
        },
{
    proof {
        lemma_varint_size((*buf)@);
    }
    if tag == 1 || tag == 5 {
        if wire != 0 {
            return false;
        }
        match take_varint(buf) {
            Some(v) => {
                if tag == 1 {
                    msg.protocol_version = Some(narrow(v));
                } else {
                    msg.payload_type = Some(narrow(v));
                }
                true
            },
            None => false,
        }
    } else if tag == 7 {
        if wire != 2 {
            return false;
        }
        match take_bytes(buf) {
            Some(b) => {
                msg.payload_binary = Some(b);
                true
            },
            None => false,
        }
    } else if 2 <= tag && tag <= 6 {
        if wire != 2 {
            return false;
        }
        match take_text(buf) {
            Some(t) => {
                if tag == 2 {
                    msg.source_id = t;
                } else if tag == 3 {
                    msg.destination_id = t;
                } else if tag == 4 {
                    msg.namespace = t;
                } else {
                    msg.payload_utf8 = Some(t);
                }
                true
            },
            None => false,
        }
    } else {
        skip_value(wire, tag, buf)
    }
}

/// Read a message; `None` where the bytes are malformed.
pub fn decode_message(bytes: &[u8]) -> (out: Option<CastMessage>)
    ensures
        opt_message(out) == merged(blank(), bytes@),
{
    let mut msg = blank_message();
    let mut rest: &[u8] = bytes;
    while rest.len() > 0
        invariant
            merged(blank(), bytes@) == merged(msg@, rest@),
        decreases rest@.len(),
    {
        let ghost s = rest@;
        proof {
            lemma_varint_size(s);
        }
        let (tag, wire) = match take_key(&mut rest) {
            Some(k) => k,
            None => return None,
        };
        let ghost n = (read_key(s)->0).2;
        let ghost before = msg@;
        if !take_field(&mut msg, tag, wire, &mut rest) {
            return None;
        }
        proof {
            let k = (merged_field(before, tag, wire, s.skip(n as int))->0).1;
            assert(s.skip(n as int).skip(k as int) =~= s.skip((n + k) as int));
        }
    }
    Some(msg)
}

/// The length that the first four bytes state.
pub open spec fn stated_length(buf: Seq<u8>) -> nat {
    (buf[0] * 0x100_0000 + buf[1] * 0x1_0000 + buf[2] * 0x100 + buf[3]) as nat
}

/// The message at the front of a buffer, and how many bytes its frame takes;
/// `None` where the frame is not complete or the message malformed.
pub open spec fn framed(buf: Seq<u8>) -> Option<(MessageData, nat)> {
    if buf.len() < 4 || buf.len() < 4 + stated_length(buf) {
        None
    } else {
        match merged(blank(), buf.subrange(4, 4 + stated_length(buf) as int)) {
            Some(m) => Some((m, 4 + stated_length(buf))),
            None => None,
        }
    }
}

/// What an optional message and the size of its frame say.
pub open spec fn opt_frame(o: Option<(CastMessage, usize)>) -> Option<(MessageData, nat)> {
    match o {
        Some((m, n)) => Some((m@, n as nat)),
        None => None,
    }
}

/// Try to decode a `CastMessage` from the front of `buf`.
///
/// Returns the message and how many bytes its frame takes, or `None` when more
/// bytes are needed (keep accumulating and retry).
pub fn decode_frame(buf: &[u8]) -> (out: Option<(CastMessage, usize)>)
    ensures
        opt_frame(out) == framed(buf@),
        out is Some ==> 4 <= (out->0).1 <= buf@.len(),
{
    if buf.len() < 4 {
        return None;
    }
    let len: u64 = buf[0] as u64 * 0x100_0000 + buf[1] as u64 * 0x1_0000 + buf[2] as u64 * 0x100
        + buf[3] as u64;
    if (buf.len() as u64) < 4 + len {
        return None;
    }
    let total: usize = (4 + len) as usize;
    match decode_message(slice_subrange(buf, 4, total)) {
        Some(msg) => Some((msg, total)),
        None => None,
    }
}

/// Build a string-payload `CastMessage` with the canonical sender id.
pub fn string_message(namespace: &str, destination_id: &str, payload_json: &str) -> (m: CastMessage)
    ensures
        m@ == string_message_data(namespace@, destination_id@, payload_json@),
{
    CastMessage {
        protocol_version: Some(ProtocolVersion::Castv210.number()),
        source_id: "sender-0".to_owned(),
        destination_id: destination_id.to_owned(),
        namespace: namespace.to_owned(),
        payload_type: Some(PayloadType::String.number()),
        payload_utf8: Some(payload_json.to_owned()),
        payload_binary: None,
    }
}

/// A message that carries a JSON payload.
pub open spec fn string_message_data(
    namespace: Seq<char>,
    destination_id: Seq<char>,
    payload: Seq<char>,
) -> MessageData {
    MessageData {
        protocol_version: Some(0),
        source_id: "sender-0"@,
        destination_id,
        namespace,
        payload_type: Some(0),
        payload_utf8: Some(payload),
        payload_binary: None,
    }
}

// ── Round trip ───────────────────────────────────────────────────────────────

proof fn lemma_varint(n: nat, rest: Seq<u8>)
    ensures
        varint_size(varint(n) + rest) == varint(n).len(),
        varint_value(varint(n)) == n,
        varint(n).len() >= 1,
    decreases n,
{
    let s = varint(n) + rest;
    if n < 128 {
        assert(s[0] == n as u8);
        assert(varint(n).drop_first() =~= Seq::<u8>::empty());
        assert(varint_value(Seq::<u8>::empty()) == 0);
    } else {
        lemma_varint(n / 128, rest);
        assert(s[0] == (n % 128 + 128) as u8);
        assert(s.drop_first() =~= varint(n / 128) + rest);
        assert(varint(n).drop_first() =~= varint(n / 128));
        assert(varint(n)[0] as nat % 128 == n % 128);
    }
}

/// Twice 128 to the `k`.
spec fn cap(k: nat) -> nat
    decreases k,
{
    if k == 0 {
        2
    } else {
        128 * cap((k - 1) as nat)
    }
}

proof fn lemma_varint_len(n: nat, k: nat)
    requires
        n < cap(k),
    ensures
        varint(n).len() <= k + 1,
        varint(n).len() == k + 1 ==> varint(n)[k as int] < 2,
    decreases k,
{
    if k > 0 && n >= 128 {
        lemma_varint_len(n / 128, (k - 1) as nat);
        if varint(n).len() == k + 1 {
            assert(varint(n)[k as int] == varint(n / 128)[k - 1]);
        }
    }
}

proof fn lemma_read_varint(n: nat, rest: Seq<u8>)
    requires
        n <= u64::MAX,
    ensures
        read_varint(varint(n) + rest) == Some((n, varint(n).len())),
        varint(n).len() >= 1,
        (varint(n) + rest).skip(varint(n).len() as int) == rest,
{
    lemma_varint(n, rest);
    assert(cap(9) == 0x1_0000_0000_0000_0000) by {
        reveal_with_fuel(cap, 10);
    }
    lemma_varint_len(n, 9);
    let s = varint(n) + rest;
    assert(s.take(varint(n).len() as int) =~= varint(n));
    assert(s.skip(varint(n).len() as int) =~= rest);
    if varint(n).len() == 10 {
        assert(s[9] == varint(n)[9]);
    }
}

proof fn lemma_read_key(tag: u32, wire: u8, rest: Seq<u8>)
    requires
        1 <= tag <= 7,
        wire <= 5,
    ensures
        read_key(key_bytes(tag, wire) + rest) == Some((tag, wire, key_bytes(tag, wire).len())),
        key_bytes(tag, wire).len() >= 1,
        (key_bytes(tag, wire) + rest).skip(key_bytes(tag, wire).len() as int) == rest,
{
    lemma_read_varint((tag * 8 + wire) as nat, rest);
}

proof fn lemma_read_bytes(b: Seq<u8>, rest: Seq<u8>)
    requires
        b.len() <= u64::MAX,
    ensures
        read_bytes(varint(b.len()) + b + rest) == Some((b, varint(b.len()).len() + b.len())),
        (varint(b.len()) + b + rest).skip((varint(b.len()).len() + b.len()) as int) == rest,
{
    lemma_read_varint(b.len(), b + rest);
    let s = varint(b.len()) + b + rest;
    assert(s =~= varint(b.len()) + (b + rest));
    let n = varint(b.len()).len();
    assert(s.subrange(n as int, (n + b.len()) as int) =~= b);
    assert(s.skip((n + b.len()) as int) =~= rest);
}

/// A message with one of its number fields set.
spec fn with_number(m: MessageData, tag: u32, v: Option<i32>) -> MessageData {
    match v {
        Some(n) => if tag == 1 {
            MessageData { protocol_version: Some(n), ..m }
        } else {
            MessageData { payload_type: Some(n), ..m }
        },
        None => m,
    }
}

/// A message with one of its text fields set.
spec fn with_text(m: MessageData, tag: u32, t: Seq<char>) -> MessageData {
    if tag == 2 {
        MessageData { source_id: t, ..m }
    } else if tag == 3 {
        MessageData { destination_id: t, ..m }
    } else if tag == 4 {
        MessageData { namespace: t, ..m }
    } else {
        MessageData { payload_utf8: Some(t), ..m }
    }
}

proof fn lemma_merge_number(m: MessageData, tag: u32, v: Option<i32>, rest: Seq<u8>)
    requires
        tag == 1 || tag == 5,
    ensures
        merged(m, number_field(tag, v) + rest) == merged(with_number(m, tag, v), rest),
{
    match v {
        Some(n) => {
            let body = varint(widened(n)) + rest;
            let s = number_field(tag, v) + rest;
            assert(s =~= key_bytes(tag, 0) + body);
            lemma_read_key(tag, 0, body);
            lemma_read_varint(widened(n), rest);
            assert(narrowed(widened(n)) == n);
            let k = key_bytes(tag, 0).len();
            let j = varint(widened(n)).len();
            assert(s.skip((k + j) as int) =~= rest);
            assert(s.len() == k + j + rest.len());
        },
        None => {
            assert(number_field(tag, v) + rest =~= rest);
        },
    }
}

proof fn lemma_merge_bytes(m: MessageData, tag: u32, b: Seq<u8>, rest: Seq<u8>)
    requires
        tag == 7 || 2 <= tag <= 4 || tag == 6,
        b.len() <= u64::MAX,
        tag != 7 ==> valid_utf8(b),
    ensures
        merged(m, bytes_field(tag, b) + rest) == merged(
            if tag == 7 {
                MessageData { payload_binary: Some(b), ..m }
            } else {
                with_text(m, tag, decode_utf8(b))
            },
            rest,
        ),
{
    let body = varint(b.len()) + b + rest;
    let s = bytes_field(tag, b) + rest;
    assert(s =~= key_bytes(tag, 2) + body);
    lemma_read_key(tag, 2, body);
    lemma_read_bytes(b, rest);
    let k = key_bytes(tag, 2).len();
    let j = varint(b.len()).len() + b.len();
    assert(s.skip((k + j) as int) =~= rest);
    assert(s.len() == k + j + rest.len());
}

proof fn lemma_merge_text(m: MessageData, tag: u32, t: Seq<char>, rest: Seq<u8>)
    requires
        2 <= tag <= 4,
        encode_utf8(t).len() <= u64::MAX,
        with_text(m, tag, Seq::empty()) == m,
    ensures
        merged(m, text_field(tag, t) + rest) == merged(with_text(m, tag, t), rest),
{
    if t.len() == 0 {
        assert(t =~= Seq::empty());
        assert(text_field(tag, t) + rest =~= rest);
    } else {
        vstd::utf8::encode_utf8_valid_utf8(t);
        vstd::utf8::encode_utf8_decode_utf8(t);
        lemma_merge_bytes(m, tag, encode_utf8(t), rest);
    }
}

/// Whether every part of a message has a length that 64 bits can state.
pub open spec fn lengths_fit(m: MessageData) -> bool {
    &&& encode_utf8(m.source_id).len() <= u64::MAX
    &&& encode_utf8(m.destination_id).len() <= u64::MAX
    &&& encode_utf8(m.namespace).len() <= u64::MAX
    &&& m.payload_utf8 is Some ==> encode_utf8(m.payload_utf8->0).len() <= u64::MAX
    &&& m.payload_binary is Some ==> m.payload_binary->0.len() <= u64::MAX
}

/// The bytes of the fields that carry the payload.
spec fn payload_bytes(m: MessageData) -> Seq<u8> {
    (match m.payload_utf8 {
        Some(s) => bytes_field(6, encode_utf8(s)),
        None => Seq::empty(),
    }) + (match m.payload_binary {
        Some(b) => bytes_field(7, b),
        None => Seq::empty(),
    })
}

proof fn lemma_merge_payload(base: MessageData, m: MessageData)
    requires
        lengths_fit(m),
        base.payload_utf8 is None,
        base.payload_binary is None,
    ensures
        merged(base, payload_bytes(m)) == Some(
            MessageData {
                payload_utf8: m.payload_utf8,
                payload_binary: m.payload_binary,
                ..base
            },
        ),
{
    let none = Seq::<u8>::empty();
    let f7 = match m.payload_binary {
        Some(b) => bytes_field(7, b),
        None => none,
    };
    let next = MessageData { payload_utf8: m.payload_utf8, ..base };
    assert(merged(base, payload_bytes(m)) == merged(next, f7)) by {
        match m.payload_utf8 {
            Some(t) => {
                vstd::utf8::encode_utf8_valid_utf8(t);
                vstd::utf8::encode_utf8_decode_utf8(t);
                lemma_merge_bytes(base, 6, encode_utf8(t), f7);
            },
            None => {
                assert(payload_bytes(m) =~= f7);
            },
        }
    }
    match m.payload_binary {
        Some(b) => {
            assert(f7 =~= bytes_field(7, b) + none);
            lemma_merge_bytes(next, 7, b, none);
        },
        None => {},
    }
}

/// Reading the bytes of a message gives the message back.
#[verifier::rlimit(30)]
pub proof fn written_messages_read_back(m: MessageData)
    requires
        lengths_fit(m),
    ensures
        merged(blank(), message_bytes(m)) == Some(m),
{
    let s6 = payload_bytes(m);
    let s5 = number_field(5, m.payload_type) + s6;
    let s4 = text_field(4, m.namespace) + s5;
    let s3 = text_field(3, m.destination_id) + s4;
    let s2 = text_field(2, m.source_id) + s3;
    let s1 = number_field(1, m.protocol_version) + s2;
    let m0 = blank();
    let m1 = with_number(m0, 1, m.protocol_version);
    let m2 = with_text(m1, 2, m.source_id);
    let m3 = with_text(m2, 3, m.destination_id);
    let m4 = with_text(m3, 4, m.namespace);
    let m5 = with_number(m4, 5, m.payload_type);
    lemma_message_bytes(m);
    assert(merged(m0, s1) == merged(m1, s2)) by {
        lemma_merge_number(m0, 1, m.protocol_version, s2);
    }
    assert(merged(m1, s2) == merged(m2, s3)) by {
        lemma_merge_text(m1, 2, m.source_id, s3);
    }
    assert(merged(m2, s3) == merged(m3, s4)) by {
        lemma_merge_text(m2, 3, m.destination_id, s4);
    }
    assert(merged(m3, s4) == merged(m4, s5)) by {
        lemma_merge_text(m3, 4, m.namespace, s5);
    }
    assert(merged(m4, s5) == merged(m5, s6)) by {
        lemma_merge_number(m4, 5, m.payload_type, s6);
    }
    lemma_merge_payload(m5, m);
}

proof fn lemma_message_bytes(m: MessageData)
    ensures
        message_bytes(m) == number_field(1, m.protocol_version) + (text_field(2, m.source_id) + (
        text_field(3, m.destination_id) + (text_field(4, m.namespace) + (number_field(
            5,
            m.payload_type,
        ) + payload_bytes(m))))),
{
    let a = number_field(1, m.protocol_version);
    let b = text_field(2, m.source_id);
    let c = text_field(3, m.destination_id);
    let d = text_field(4, m.namespace);
    let e = number_field(5, m.payload_type);
    let p = payload_bytes(m);
    assert(message_bytes(m) =~= a + b + c + d + e + p);
    assert(a + b + c + d + e + p =~= a + (b + (c + (d + (e + p)))));
}

/// Decoding a frame gives back the message that was encoded, and takes exactly
/// its bytes, whatever follows it.
pub proof fn frames_round_trip(m: MessageData, rest: Seq<u8>)
    requires
        message_bytes(m).len() <= u32::MAX,
        lengths_fit(m),
    ensures
        framed(frame_bytes(m) + rest) == Some((m, frame_bytes(m).len())),
{
    written_messages_read_back(m);
    let body = message_bytes(m);
    let n = body.len();
    let buf = frame_bytes(m) + rest;
    lemma_big_endian(n);
    assert(forall|i: int| 0 <= i < 4 ==> buf[i] == big_endian(n)[i]);
    assert(stated_length(buf) == n);
    assert(buf.subrange(4, 4 + n as int) =~= body);
}

proof fn lemma_big_endian(n: nat)
    requires
        n <= u32::MAX,
    ensures
        stated_length(big_endian(n)) == n,
{
}

/// A frame of which bytes are missing is not decoded: more bytes are awaited.
pub proof fn incomplete_frames_wait(m: MessageData, k: int)
    requires
        message_bytes(m).len() <= u32::MAX,
        0 <= k < frame_bytes(m).len(),
    ensures
        framed(frame_bytes(m).take(k)) is None,
{
    lemma_big_endian(message_bytes(m).len());
    if k >= 4 {
        let buf = frame_bytes(m).take(k);
        assert(forall|i: int| 0 <= i < 4 ==> buf[i] == big_endian(message_bytes(m).len())[i]);
    }
}

// ── Laws of the wire ─────────────────────────────────────────────────────────

/// A frame starts with the length of its message in four bytes, the most significant one
/// first; the message follows, and nothing else.
pub proof fn frames_state_their_length(m: MessageData)
    requires
        message_bytes(m).len() < 0x1_0000_0000,
    ensures
        frame_bytes(m).len() == message_bytes(m).len() + 4,
        frame_bytes(m)[0] * 0x100_0000 + frame_bytes(m)[1] * 0x1_0000 + frame_bytes(m)[2] * 0x100
            + frame_bytes(m)[3] == message_bytes(m).len(),
        frame_bytes(m).skip(4) == message_bytes(m),
{
    let n = message_bytes(m).len();
    let f = frame_bytes(m);
    assert(f.skip(4) =~= message_bytes(m));
    assert(f[0] == n / 0x100_0000 % 0x100);
    assert(f[1] == n / 0x1_0000 % 0x100);
    assert(f[2] == n / 0x100 % 0x100);
    assert(f[3] == n % 0x100);
}

/// The fields of a message stand in the order of their numbers, each behind its key: the
/// version, the sender, the destination, the namespace, the type of the payload, the text
/// and the bytes of it. What is absent, or an empty text among the first four, is left out.
pub proof fn fields_stand_behind_their_keys(m: MessageData)
    ensures
        message_bytes(m) == (match m.protocol_version {
            Some(v) => seq![0x08u8] + varint(widened(v)),
            None => Seq::empty(),
        }) + (if m.source_id.len() > 0 {
            seq![0x12u8] + varint(encode_utf8(m.source_id).len()) + encode_utf8(m.source_id)
        } else {
            Seq::empty()
        }) + (if m.destination_id.len() > 0 {
            seq![0x1au8] + varint(encode_utf8(m.destination_id).len()) + encode_utf8(
                m.destination_id,
            )
        } else {
            Seq::empty()
        }) + (if m.namespace.len() > 0 {
            seq![0x22u8] + varint(encode_utf8(m.namespace).len()) + encode_utf8(m.namespace)
        } else {
            Seq::empty()
        }) + (match m.payload_type {
            Some(v) => seq![0x28u8] + varint(widened(v)),
            None => Seq::empty(),
        }) + (match m.payload_utf8 {
            Some(s) => seq![0x32u8] + varint(encode_utf8(s).len()) + encode_utf8(s),
            None => Seq::empty(),
        }) + (match m.payload_binary {
            Some(b) => seq![0x3au8] + varint(b.len()) + b,
            None => Seq::empty(),
        }),
{
    assert(key_bytes(1, 0) =~= seq![0x08u8]);
    assert(key_bytes(2, 2) =~= seq![0x12u8]);
    assert(key_bytes(3, 2) =~= seq![0x1au8]);
    assert(key_bytes(4, 2) =~= seq![0x22u8]);
    assert(key_bytes(5, 0) =~= seq![0x28u8]);
    assert(key_bytes(6, 2) =~= seq![0x32u8]);
    assert(key_bytes(7, 2) =~= seq![0x3au8]);
}

/// A number that is widened for the wire is narrowed to itself again.
pub proof fn numbers_survive_the_wire(v: i32)
    ensures
        narrowed(widened(v)) == v,
        v >= 0 ==> widened(v) == v,
        v < 0 ==> widened(v) == 0x1_0000_0000_0000_0000 + v,
{
}

/// A number is written in base 128, the least significant digit first, with the top bit of
/// every byte but the last.
pub proof fn numbers_are_written_in_base_128(n: nat)
    ensures
        varint(n).len() > 0,
        n < 128 ==> varint(n) == seq![n as u8],
        n >= 128 ==> varint(n)[0] == 128 + n % 128 && varint(n).skip(1) == varint(n / 128),
        varint_value(varint(n)) == n,
{
    lemma_varint(n, Seq::empty());
    if n >= 128 {
        assert(varint(n).skip(1) =~= varint(n / 128));
    }
}

/// A field with an unknown number changes nothing of a message.
pub proof fn unknown_fields_are_passed_over(m: MessageData, tag: u32, wire: u8, s: Seq<u8>)
    requires
        tag > 7,
    ensures
        merged_field(m, tag, wire, s) matches Some((next, _)) ==> next == m,
{
}

/// A text message is of the first version, from `sender-0`, and carries its payload as
/// text; namespace, destination and payload are those that were given.
pub proof fn text_messages_carry_their_payload(
    namespace: Seq<char>,
    destination_id: Seq<char>,
    payload: Seq<char>,
)
    ensures
        ({
            let m = string_message_data(namespace, destination_id, payload);
            &&& m.protocol_version == Some(0i32)
            &&& m.source_id == "sender-0"@
            &&& m.destination_id == destination_id
            &&& m.namespace == namespace
            &&& m.payload_type == Some(0i32)
            &&& m.payload_utf8 == Some(payload)
            &&& m.payload_binary is None
        }),
{
}

/// Unknown fields of a fixed size take eight bytes or four, where there are as many; a field
/// of no known wire type is not passed over.
pub proof fn fixed_fields_have_their_size(wire: u8, tag: u32, s: Seq<u8>)
    ensures
        skipped_size(1, tag, s) is Some <==> s.len() >= 8,
        skipped_size(1, tag, s) matches Some(n) ==> n == 8,
        skipped_size(5, tag, s) is Some <==> s.len() >= 4,
        skipped_size(5, tag, s) matches Some(n) ==> n == 4,
        wire == 4 || wire > 5 ==> skipped_size(wire, tag, s) is None,
{
}

} // verus!
