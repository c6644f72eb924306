//! The relay message and its bytes: bincode's layout of the tagged union,
//! compressed into one zstd frame.
use vstd::prelude::*;
use vstd::utf8::*;
use crate::event::{ChatEventView, PlayerChatEvent};
use crate::wire::{
    le_bytes, le_value, lemma_byte_range_facts, lemma_le_bytes_len, lemma_le_round_trip,
};

verus! {

#[verifier::external_type_specification]
#[verifier::external_body]
pub struct ExBincodeErrorKind(bincode::ErrorKind);

#[verifier::external_type_specification]
#[verifier::external_body]
pub struct ExIoError(std::io::Error);

/// What one client tells the others over the relay channel.
#[derive(Debug, PartialEq, Eq)]
pub enum RelayMessage {
    /// A probe sent on entering a map; no reply is required.
    WhosThere,
    PlayerChatEvent(PlayerChatEvent),
}

pub enum RelayMessageView {
    WhosThere,
    PlayerChatEvent(ChatEventView),
}

impl View for RelayMessage {
    type V = RelayMessageView;

    open spec fn view(&self) -> RelayMessageView {
        match self {
            RelayMessage::WhosThere => RelayMessageView::WhosThere,
            RelayMessage::PlayerChatEvent(e) => RelayMessageView::PlayerChatEvent(e@),
        }
    }
}

#[derive(Debug, PartialEq, Eq, Structural)]
pub enum EncodeError {
    /// The compressed message needs more packets than a stream can count.
    TooLarge,
}

#[derive(Debug, PartialEq, Eq, Structural)]
pub enum DecodeError {
    /// The payload is not a zstd frame.
    Decompress,
    /// The decompressed bytes are not a relay message.
    Malformed,
}

/// bincode's layout of a string: its byte length in eight bytes, then its
/// UTF-8 bytes.
pub open spec fn str_bytes(chars: Seq<char>) -> Seq<u8> {
    le_bytes(encode_utf8(chars).len(), 8) + encode_utf8(chars)
}

/// The variant index that bincode writes for each event.
pub open spec fn event_tag(e: ChatEventView) -> nat {
    match e {
        ChatEventView::ChatClosed => 0,
        ChatEventView::InputTextChanged(_) => 1,
        ChatEventView::Message(_) => 2,
        ChatEventView::ChatOpened => 3,
    }
}

pub open spec fn event_bytes(e: ChatEventView) -> Seq<u8> {
    match e {
        ChatEventView::InputTextChanged(t) => le_bytes(1, 4) + str_bytes(t),
        ChatEventView::Message(t) => le_bytes(2, 4) + str_bytes(t),
        _ => le_bytes(event_tag(e), 4),
    }
}

/// The serialized form of a relay message.
pub open spec fn message_bytes(m: RelayMessageView) -> Seq<u8> {
    match m {
        RelayMessageView::WhosThere => le_bytes(0, 4),
        RelayMessageView::PlayerChatEvent(e) => le_bytes(1, 4) + event_bytes(e),
    }
}

/// A string field at the start of `b` is complete and valid UTF-8.
pub open spec fn str_field_ok(b: Seq<u8>) -> bool {
    &&& b.len() >= 8
    &&& le_value(b.subrange(0, 8)) <= b.len() - 8
    &&& valid_utf8(str_field(b))
}

/// The bytes of the string field at the start of `b`.
pub open spec fn str_field(b: Seq<u8>) -> Seq<u8> {
    b.subrange(8, 8 + le_value(b.subrange(0, 8)) as int)
}

pub open spec fn parse_str(b: Seq<u8>) -> Option<Seq<char>> {
    if str_field_ok(b) {
        Some(decode_utf8(str_field(b)))
    } else {
        None
    }
}

pub open spec fn parse_event(b: Seq<u8>) -> Option<ChatEventView> {
    if b.len() < 4 {
        None
    } else {
        let tag = le_value(b.subrange(0, 4));
        let rest = b.subrange(4, b.len() as int);
        if tag == 0 {
            Some(ChatEventView::ChatClosed)
        } else if tag == 3 {
            Some(ChatEventView::ChatOpened)
        } else if tag == 1 || tag == 2 {
            match parse_str(rest) {
                Some(t) => Some(
                    if tag == 1 {
                        ChatEventView::InputTextChanged(t)
                    } else {
                        ChatEventView::Message(t)
                    },
                ),
                None => None,
            }
        } else {
            None
        }
    }
}

/// The relay message that serialized bytes hold; bytes after it are ignored,
/// as bincode's default options allow.
pub open spec fn parse_message(b: Seq<u8>) -> Option<RelayMessageView> {
    if b.len() < 4 {
        None
    } else {
        let tag = le_value(b.subrange(0, 4));
        if tag == 0 {
            Some(RelayMessageView::WhosThere)
        } else if tag == 1 {
            match parse_event(b.subrange(4, b.len() as int)) {
                Some(e) => Some(RelayMessageView::PlayerChatEvent(e)),
                None => None,
            }
        } else {
            None
        }
    }
}

/// Relies on bincode::serialize for a `u32`: its four bytes, least
/// significant first. It writes into a `Vec` with no size limit, so it does
/// not fail.
#[verifier::external_body]
fn bincode_u32(v: u32) -> (r: Result<Vec<u8>, Box<bincode::ErrorKind>>)
    ensures
        r is Ok,
        r->Ok_0@ == le_bytes(v as nat, 4),
{
    bincode::serialize(&v)
}

/// Relies on bincode::serialize for a `str`: its byte length in eight bytes,
/// least significant first, then its UTF-8 bytes. It writes into a `Vec`
/// with no size limit, so it does not fail.
#[verifier::external_body]
fn bincode_str(s: &str) -> (r: Result<Vec<u8>, Box<bincode::ErrorKind>>)
    ensures
        r is Ok,
        r->Ok_0@ == str_bytes(s@),
{
    bincode::serialize(s)
}

/// Relies on bincode::deserialize for a `u32`: the first four bytes, least
/// significant first; it fails only when there are fewer.
#[verifier::external_body]
fn bincode_read_u32(b: &[u8]) -> (r: Result<u32, Box<bincode::ErrorKind>>)
    ensures
        r is Ok <==> b@.len() >= 4,
        r is Ok ==> r->Ok_0 as nat == le_value(b@.subrange(0, 4)),
{
    bincode::deserialize::<u32>(b)
}

/// Relies on bincode::deserialize for a `String`: a byte length in eight
/// bytes, then that many bytes, which must be UTF-8.
#[verifier::external_body]
fn bincode_read_string(b: &[u8]) -> (r: Result<String, Box<bincode::ErrorKind>>)
    ensures
        r is Ok <==> str_field_ok(b@),
        r is Ok ==> r->Ok_0@ == decode_utf8(str_field(b@)),
{
    bincode::deserialize::<String>(b)
}

/// Names the frame that zstd::encode_all makes of `data` at the default level.
pub uninterp spec fn zstd_frame(data: Seq<u8>) -> Seq<u8>;

/// Names what zstd::decode_all makes of `frame`: the bytes it holds, or
/// nothing when it is not zstd data.
pub uninterp spec fn zstd_content(frame: Seq<u8>) -> Option<Seq<u8>>;

/// Relies on zstd::encode_all at level 0 (zstd's default): one frame that
/// depends on the bytes alone. It reads a slice and writes into a `Vec`, so
/// it does not fail.
#[verifier::external_body]
fn zstd_compress(data: &[u8]) -> (r: Result<Vec<u8>, std::io::Error>)
    ensures
        r is Ok,
        r->Ok_0@ == zstd_frame(data@),
{
    zstd::encode_all(data, 0)
}

/// Relies on zstd::decode_all: the bytes that a frame holds. zstd is
/// lossless, so a frame that encode_all made gives back what it was made of.
#[verifier::external_body]
fn zstd_decompress(frame: &[u8]) -> (r: Result<Vec<u8>, std::io::Error>)
    ensures
        r is Ok <==> zstd_content(frame@) is Some,
        r is Ok ==> r->Ok_0@ == zstd_content(frame@)->Some_0,
        forall|d: Seq<u8>| frame@ == #[trigger] zstd_frame(d) ==> r is Ok && r->Ok_0@ == d,
{
    zstd::decode_all(frame)
}

/// Every text of the message fits in memory, as the text of a `String` does.
pub open spec fn message_fits(m: RelayMessageView) -> bool {
    match m {
        RelayMessageView::PlayerChatEvent(ChatEventView::InputTextChanged(t)) => encode_utf8(
            t,
        ).len() <= usize::MAX,
        RelayMessageView::PlayerChatEvent(ChatEventView::Message(t)) => encode_utf8(t).len()
            <= usize::MAX,
        _ => true,
    }
}

proof fn lemma_tagged(t: nat, rest: Seq<u8>)
    requires
        t < 0x1_0000_0000,
    ensures
        (le_bytes(t, 4) + rest).len() >= 4,
        le_value((le_bytes(t, 4) + rest).subrange(0, 4)) == t,
        (le_bytes(t, 4) + rest).subrange(4, (le_bytes(t, 4) + rest).len() as int) == rest,
{
    lemma_byte_range_facts();
    lemma_le_bytes_len(t, 4);
    lemma_le_round_trip(t, 4);
    let b = le_bytes(t, 4) + rest;
    assert(b.subrange(0, 4) =~= le_bytes(t, 4));
    assert(b.subrange(4, b.len() as int) =~= rest);
}

proof fn lemma_parse_str(t: Seq<char>)
    requires
        encode_utf8(t).len() <= usize::MAX,
    ensures
        parse_str(str_bytes(t)) == Some(t),
{
    broadcast use encode_utf8_valid_utf8, encode_utf8_decode_utf8;

    let e = encode_utf8(t);
    let n = e.len();
    lemma_byte_range_facts();
    lemma_le_bytes_len(n, 8);
    lemma_le_round_trip(n, 8);
    let b = str_bytes(t);
    assert(b.subrange(0, 8) =~= le_bytes(n, 8));
    assert(str_field(b) =~= e);
}

/// Parsing the serialized form of a message gives the message back.
pub proof fn lemma_message_round_trip(m: RelayMessageView)
    requires
        message_fits(m),
    ensures
        parse_message(message_bytes(m)) == Some(m),
{
    match m {
        RelayMessageView::WhosThere => {
            lemma_tagged(0, Seq::empty());
            assert(message_bytes(m) =~= le_bytes(0, 4) + Seq::<u8>::empty());
        },
        RelayMessageView::PlayerChatEvent(e) => {
            lemma_tagged(1, event_bytes(e));
            match e {
                ChatEventView::InputTextChanged(t) => {
                    lemma_tagged(1, str_bytes(t));
                    lemma_parse_str(t);
                },
                ChatEventView::Message(t) => {
                    lemma_tagged(2, str_bytes(t));
                    lemma_parse_str(t);
                },
                _ => {
                    lemma_tagged(event_tag(e), Seq::empty());
                    assert(event_bytes(e) =~= le_bytes(event_tag(e), 4) + Seq::<u8>::empty());
                },
            }
        },
    }
}

fn tag_bytes(t: u32) -> (r: Vec<u8>)
    ensures
        r@ == le_bytes(t as nat, 4),
{
    bincode_u32(t).unwrap()
}

fn tagged_text(t: u32, text: &String) -> (r: Vec<u8>)
    ensures
        r@ == le_bytes(t as nat, 4) + str_bytes(text@),
{
    let mut out = tag_bytes(t);
    let mut rest = bincode_str(text.as_str()).unwrap();
    out.append(&mut rest);
    out
}

fn serialize_event(e: &PlayerChatEvent) -> (r: Vec<u8>)
    ensures
        r@ == event_bytes(e@),
{
    match e {
        PlayerChatEvent::ChatClosed => tag_bytes(0),
        PlayerChatEvent::InputTextChanged(t) => tagged_text(1, t),
        PlayerChatEvent::Message(t) => tagged_text(2, t),
        PlayerChatEvent::ChatOpened => tag_bytes(3),
    }
}

/// bincode's serialization of a relay message.
pub fn serialize(m: &RelayMessage) -> (r: Vec<u8>)
    ensures
        r@ == message_bytes(m@),
{
    match m {
        RelayMessage::WhosThere => tag_bytes(0),
        RelayMessage::PlayerChatEvent(e) => {
            let mut out = tag_bytes(1);
            let mut rest = serialize_event(e);
            out.append(&mut rest);
            out
        },
    }
}

fn deserialize_event(b: &[u8]) -> (r: Result<PlayerChatEvent, DecodeError>)
    ensures
        match parse_event(b@) {
            Some(e) => r is Ok && r->Ok_0@ == e,
            None => r == Err::<PlayerChatEvent, DecodeError>(DecodeError::Malformed),
        },
{
    let tag = match bincode_read_u32(b) {
        Ok(t) => t,
        Err(_) => return Err(DecodeError::Malformed),
    };
    if tag == 0 {
        Ok(PlayerChatEvent::ChatClosed)
    } else if tag == 3 {
        Ok(PlayerChatEvent::ChatOpened)
    } else if tag == 1 || tag == 2 {
        let (_, rest) = b.split_at(4);
        match bincode_read_string(rest) {
            Ok(t) => {
                if tag == 1 {
                    Ok(PlayerChatEvent::InputTextChanged(t))
                } else {
                    Ok(PlayerChatEvent::Message(t))
                }
            },
            Err(_) => Err(DecodeError::Malformed),
        }
    } else {
        Err(DecodeError::Malformed)
    }
}

/// Reads a relay message back from bincode's serialization.
pub fn deserialize(b: &[u8]) -> (r: Result<RelayMessage, DecodeError>)
    ensures
        match parse_message(b@) {
            Some(m) => r is Ok && r->Ok_0@ == m,
            None => r == Err::<RelayMessage, DecodeError>(DecodeError::Malformed),
        },
{
    let tag = match bincode_read_u32(b) {
        Ok(t) => t,
        Err(_) => return Err(DecodeError::Malformed),
    };
    if tag == 0 {
        Ok(RelayMessage::WhosThere)
    } else if tag == 1 {
        let (_, rest) = b.split_at(4);
        match deserialize_event(rest) {
            Ok(e) => Ok(RelayMessage::PlayerChatEvent(e)),
            Err(e) => Err(e),
        }
    } else {
        Err(DecodeError::Malformed)
    }
}

/// The bytes that go on the wire for a message: its serialization,
/// compressed.
pub fn encode(m: &RelayMessage) -> (r: Vec<u8>)
    ensures
        r@ == zstd_frame(message_bytes(m@)),
{
    let data = serialize(m);
    zstd_compress(data.as_slice()).unwrap()
}

/// The message that wire bytes hold, if any.
pub open spec fn decoded(b: Seq<u8>) -> Option<RelayMessageView> {
    match zstd_content(b) {
        Some(d) => parse_message(d),
        None => None,
    }
}

/// Reads a message from wire bytes. Whatever `encode` made of a message
/// decodes to that message.
pub fn decode(b: &[u8]) -> (r: Result<RelayMessage, DecodeError>)
    ensures
        zstd_content(b@) is None ==> r == Err::<RelayMessage, DecodeError>(DecodeError::Decompress),
        zstd_content(b@) is Some && decoded(b@) is None ==> r == Err::<RelayMessage, DecodeError>(
            DecodeError::Malformed,
        ),
        decoded(b@) is Some ==> r is Ok && r->Ok_0@ == decoded(b@)->Some_0,
        forall|m: RelayMessageView|
            message_fits(m) && b@ == #[trigger] zstd_frame(message_bytes(m)) ==> r is Ok
                && r->Ok_0@ == m,
{
    let data = match zstd_decompress(b) {
        Ok(d) => d,
        Err(_) => return Err(DecodeError::Decompress),
    };
    assert forall|m: RelayMessageView|
        message_fits(m) && b@ == #[trigger] zstd_frame(message_bytes(m)) implies data@ == message_bytes(m)
        && parse_message(data@) == Some(m) by {
        lemma_message_round_trip(m);
    }
    deserialize(data.as_slice())
}

} // verus!
