//! The chunker: a compressed message split into fixed-size packets for the
//! host's plugin-message channel, and the packets' layout on the wire.
//!
//! A packet is `PACKET_SIZE` bytes: the stream id (four bytes), the chunk
//! index and the chunk count (two bytes each, all least significant byte
//! first), the scope (two bytes), the payload length (one byte), then the
//! payload, padded with zeros.
//!
//! This layout is the library's own: it does not interoperate with the
//! packets of the classicube-relay crate, so every client on a channel must
//! speak this one.
use vstd::prelude::*;
use crate::codec::EncodeError;
use crate::wire::{
    byte_range, le_bytes, le_value, lemma_byte_range_facts, lemma_le_bytes_len,
    lemma_le_round_trip, lemma_le_value_bound,
};

verus! {

/// The size of one message on the host's plugin-message channel.
pub const PACKET_SIZE: usize = 64;

pub const HEADER_SIZE: usize = 11;

/// The most payload bytes that one packet carries.
pub const MAX_PAYLOAD: usize = 53;

/// The most packets that one stream may have; chat texts are short.
pub const MAX_CHUNKS: usize = 64;

/// Which peers a stream is for.
#[derive(Clone, Copy, Debug, PartialEq, Eq, Structural)]
pub enum Scope {
    /// One player.
    Player(u8),
    /// Everyone in the current world (map), or only those that have the plugin.
    World { have_plugin: bool },
    /// Everyone on the server, or only those that have the plugin.
    Server { have_plugin: bool },
}

pub open spec fn flag_byte(b: bool) -> u8 {
    if b {
        1
    } else {
        0
    }
}

pub open spec fn scope_bytes(s: Scope) -> Seq<u8> {
    match s {
        Scope::Player(id) => seq![0u8, id],
        Scope::World { have_plugin } => seq![1u8, flag_byte(have_plugin)],
        Scope::Server { have_plugin } => seq![2u8, flag_byte(have_plugin)],
    }
}

pub open spec fn parse_scope(kind: u8, arg: u8) -> Option<Scope> {
    if kind == 0 {
        Some(Scope::Player(arg))
    } else if (kind == 1 || kind == 2) && arg <= 1 {
        Some(
            if kind == 1 {
                Scope::World { have_plugin: arg == 1 }
            } else {
                Scope::Server { have_plugin: arg == 1 }
            },
        )
    } else {
        None
    }
}

/// One chunk of a stream.
#[derive(Debug, PartialEq, Eq)]
pub struct Packet {
    pub stream_id: u32,
    pub chunk_index: u16,
    pub chunk_count: u16,
    pub scope: Scope,
    pub payload: Vec<u8>,
}

pub struct PacketView {
    pub stream_id: u32,
    pub chunk_index: u16,
    pub chunk_count: u16,
    pub scope: Scope,
    pub payload: Seq<u8>,
}

impl View for Packet {
    type V = PacketView;

    open spec fn view(&self) -> PacketView {
        PacketView {
            stream_id: self.stream_id,
            chunk_index: self.chunk_index,
            chunk_count: self.chunk_count,
            scope: self.scope,
            payload: self.payload@,
        }
    }
}

/// A packet that the format can carry and a receiver accepts.
pub open spec fn packet_ok(p: PacketView) -> bool {
    &&& p.chunk_index < p.chunk_count
    &&& p.chunk_count <= MAX_CHUNKS
    &&& p.payload.len() <= MAX_PAYLOAD
}

pub open spec fn packet_bytes(p: PacketView) -> Seq<u8> {
    le_bytes(p.stream_id as nat, 4) + le_bytes(p.chunk_index as nat, 2) + le_bytes(
        p.chunk_count as nat,
        2,
    ) + scope_bytes(p.scope) + seq![p.payload.len() as u8] + p.payload + Seq::new(
        (MAX_PAYLOAD - p.payload.len()) as nat,
        |i: int| 0u8,
    )
}

/// The packet that channel bytes hold; the padding is not looked at.
pub open spec fn parse_packet(b: Seq<u8>) -> Option<PacketView> {
    if b.len() != PACKET_SIZE {
        None
    } else {
        let len = b[10] as int;
        let p = PacketView {
            stream_id: le_value(b.subrange(0, 4)) as u32,
            chunk_index: le_value(b.subrange(4, 6)) as u16,
            chunk_count: le_value(b.subrange(6, 8)) as u16,
            scope: parse_scope(b[8], b[9])->Some_0,
            payload: b.subrange(HEADER_SIZE as int, HEADER_SIZE + len),
        };
        if len <= MAX_PAYLOAD && parse_scope(b[8], b[9]) is Some && packet_ok(p) {
            Some(p)
        } else {
            None
        }
    }
}

/// Parsing the bytes of a packet gives the packet back.
pub proof fn lemma_packet_round_trip(p: PacketView)
    requires
        packet_ok(p),
    ensures
        parse_packet(packet_bytes(p)) == Some(p),
{
    lemma_byte_range_facts();
    lemma_le_bytes_len(p.stream_id as nat, 4);
    lemma_le_bytes_len(p.chunk_index as nat, 2);
    lemma_le_bytes_len(p.chunk_count as nat, 2);
    lemma_le_round_trip(p.stream_id as nat, 4);
    lemma_le_round_trip(p.chunk_index as nat, 2);
    lemma_le_round_trip(p.chunk_count as nat, 2);
    let b = packet_bytes(p);
    assert(b.subrange(0, 4) =~= le_bytes(p.stream_id as nat, 4));
    assert(b.subrange(4, 6) =~= le_bytes(p.chunk_index as nat, 2));
    assert(b.subrange(6, 8) =~= le_bytes(p.chunk_count as nat, 2));
    assert(b.subrange(HEADER_SIZE as int, HEADER_SIZE + p.payload.len()) =~= p.payload);
    assert(parse_scope(b[8], b[9]) == Some(p.scope));
}

/// The number of packets that a blob of `len` bytes takes.
pub open spec fn chunk_count(len: nat) -> nat {
    if len == 0 {
        1
    } else {
        ((len - 1) as nat / MAX_PAYLOAD as nat + 1) as nat
    }
}

pub open spec fn min(a: int, b: int) -> int {
    if a < b {
        a
    } else {
        b
    }
}

/// The payload of packet `i` of a blob.
pub open spec fn chunk_of(blob: Seq<u8>, i: int) -> Seq<u8> {
    blob.subrange(
        min(i * MAX_PAYLOAD, blob.len() as int),
        min((i + 1) * MAX_PAYLOAD, blob.len() as int),
    )
}

/// The packets of a blob, in order.
pub open spec fn stream_packets(blob: Seq<u8>, stream_id: u32, scope: Scope) -> Seq<PacketView> {
    Seq::new(
        chunk_count(blob.len()),
        |i: int|
            PacketView {
                stream_id,
                chunk_index: i as u16,
                chunk_count: chunk_count(blob.len()) as u16,
                scope,
                payload: chunk_of(blob, i),
            },
    )
}

/// Every packet of a stream that fits is one the format carries.
pub proof fn lemma_stream_packets_ok(blob: Seq<u8>, stream_id: u32, scope: Scope, i: int)
    requires
        chunk_count(blob.len()) <= MAX_CHUNKS,
        0 <= i < chunk_count(blob.len()),
    ensures
        packet_ok(stream_packets(blob, stream_id, scope)[i]),
{
    assert(i * MAX_PAYLOAD + MAX_PAYLOAD == (i + 1) * MAX_PAYLOAD) by (nonlinear_arith);
    assert(0 <= i * MAX_PAYLOAD) by (nonlinear_arith)
        requires
            0 <= i,
    ;
}

fn push_le(out: &mut Vec<u8>, v: u64, n: usize)
    ensures
        final(out)@ == old(out)@ + le_bytes(v as nat, n as nat),
    decreases n,
{
    if n > 0 {
        out.push((v % 256) as u8);
        push_le(out, v / 256, n - 1);
        assert(final(out)@ =~= old(out)@ + le_bytes(v as nat, n as nat));
    } else {
        assert(final(out)@ =~= old(out)@ + le_bytes(v as nat, n as nat));
    }
}

fn read_le(b: &[u8], start: usize, n: usize) -> (r: u64)
    requires
        start + n <= b@.len(),
        b@.len() == PACKET_SIZE,
        n <= 4,
    ensures
        r as nat == le_value(b@.subrange(start as int, start + n)),
    decreases n,
{
    if n == 0 {
        0
    } else {
        let rest = read_le(b, start + 1, n - 1);
        proof {
            let s = b@.subrange(start as int, start + n);
            assert(s.drop_first() =~= b@.subrange(start + 1, start + n));
            lemma_le_value_bound(b@.subrange(start + 1, start + n));
            lemma_byte_range_facts();
            reveal_with_fuel(byte_range, 4);
            assert(byte_range((n - 1) as nat) <= 0x100_0000);
        }
        b[start] as u64 + 256 * rest
    }
}

fn push_scope(out: &mut Vec<u8>, s: Scope)
    ensures
        final(out)@ == old(out)@ + scope_bytes(s),
{
    match s {
        Scope::Player(id) => {
            out.push(0);
            out.push(id);
        },
        Scope::World { have_plugin } => {
            out.push(1);
            out.push(if have_plugin { 1 } else { 0 });
        },
        Scope::Server { have_plugin } => {
            out.push(2);
            out.push(if have_plugin { 1 } else { 0 });
        },
    }
    assert(final(out)@ =~= old(out)@ + scope_bytes(s));
}

/// The channel bytes of a packet.
pub fn encode_packet(p: &Packet) -> (r: Vec<u8>)
    requires
        packet_ok(p@),
    ensures
        r@ == packet_bytes(p@),
        r@.len() == PACKET_SIZE,
{
    let mut out: Vec<u8> = Vec::new();
    push_le(&mut out, p.stream_id as u64, 4);
    push_le(&mut out, p.chunk_index as u64, 2);
    push_le(&mut out, p.chunk_count as u64, 2);
    push_scope(&mut out, p.scope);
    out.push(p.payload.len() as u8);
    let ghost head = out@;
    let mut i: usize = 0;
    while i < p.payload.len()
        invariant
            i <= p.payload@.len(),
            out@ == head + p.payload@.subrange(0, i as int),
        decreases p.payload@.len() - i,
    {
        out.push(p.payload[i]);
        i = i + 1;
        assert(out@ =~= head + p.payload@.subrange(0, i as int));
    }
    let ghost body = out@;
    let mut k: usize = p.payload.len();
    while k < MAX_PAYLOAD
        invariant
            p.payload@.len() <= k <= MAX_PAYLOAD,
            out@ == body + Seq::new((k - p.payload@.len()) as nat, |j: int| 0u8),
        decreases MAX_PAYLOAD - k,
    {
        out.push(0);
        k = k + 1;
        assert(out@ =~= body + Seq::new((k - p.payload@.len()) as nat, |j: int| 0u8));
    }
    proof {
        lemma_le_bytes_len(p.stream_id as nat, 4);
        lemma_le_bytes_len(p.chunk_index as nat, 2);
        lemma_le_bytes_len(p.chunk_count as nat, 2);
        assert(out@ =~= packet_bytes(p@));
    }
    out
}

/// Reads a packet from channel bytes.
pub fn decode_packet(b: &[u8]) -> (r: Option<Packet>)
    ensures
        match parse_packet(b@) {
            Some(p) => r is Some && r->Some_0@ == p,
            None => r is None,
        },
{
    if b.len() != PACKET_SIZE {
        return None;
    }
    let stream_id = read_le(b, 0, 4);
    let chunk_index = read_le(b, 4, 2);
    let chunk_count = read_le(b, 6, 2);
    let len = b[10] as usize;
    proof {
        lemma_byte_range_facts();
        lemma_le_value_bound(b@.subrange(0, 4));
        lemma_le_value_bound(b@.subrange(4, 6));
        lemma_le_value_bound(b@.subrange(6, 8));
    }
    let scope = if b[8] == 0 {
        Scope::Player(b[9])
    } else if (b[8] == 1 || b[8] == 2) && b[9] <= 1 {
        if b[8] == 1 {
            Scope::World { have_plugin: b[9] == 1 }
        } else {
            Scope::Server { have_plugin: b[9] == 1 }
        }
    } else {
        return None;
    };
    if len > MAX_PAYLOAD || chunk_index >= chunk_count || chunk_count > MAX_CHUNKS as u64 {
        return None;
    }
    let mut payload: Vec<u8> = Vec::new();
    let mut i: usize = 0;
    while i < len
        invariant
            len <= MAX_PAYLOAD,
            b@.len() == PACKET_SIZE,
            i <= len,
            payload@ == b@.subrange(HEADER_SIZE as int, HEADER_SIZE + i),
        decreases len - i,
    {
        payload.push(b[HEADER_SIZE + i]);
        i = i + 1;
        assert(payload@ =~= b@.subrange(HEADER_SIZE as int, HEADER_SIZE + i));
    }
    Some(
        Packet {
            stream_id: stream_id as u32,
            chunk_index: chunk_index as u16,
            chunk_count: chunk_count as u16,
            scope,
            payload,
        },
    )
}

/// Splits a blob into the packets of one stream.
pub fn split(blob: &[u8], stream_id: u32, scope: Scope) -> (r: Result<Vec<Packet>, EncodeError>)
    ensures
        r is Ok <==> chunk_count(blob@.len() as nat) <= MAX_CHUNKS,
        r is Ok ==> r->Ok_0@.map_values(|p: Packet| p@) == stream_packets(blob@, stream_id, scope),
        r is Err ==> r == Err::<Vec<Packet>, EncodeError>(EncodeError::TooLarge),
{
    let len = blob.len();
    let count: usize = if len == 0 {
        1
    } else {
        (len - 1) / MAX_PAYLOAD + 1
    };
    if count > MAX_CHUNKS {
        return Err(EncodeError::TooLarge);
    }
    let ghost want = stream_packets(blob@, stream_id, scope);
    let mut out: Vec<Packet> = Vec::new();
    let mut i: usize = 0;
    while i < count
        invariant
            count == chunk_count(len as nat),
            count <= MAX_CHUNKS,
            len == blob@.len(),
            want == stream_packets(blob@, stream_id, scope),
            i <= count,
            out@.len() == i,
            forall|j: int| 0 <= j < i ==> #[trigger] out@[j]@ == want[j],
        decreases count - i,
    {
        let start = if i * MAX_PAYLOAD < len {
            i * MAX_PAYLOAD
        } else {
            len
        };
        let end = if (i + 1) * MAX_PAYLOAD < len {
            (i + 1) * MAX_PAYLOAD
        } else {
            len
        };
        let piece = vstd::slice::slice_subrange(blob, start, end);
        let payload = vstd::slice::slice_to_vec(piece);
        out.push(
            Packet {
                stream_id,
                chunk_index: i as u16,
                chunk_count: count as u16,
                scope,
                payload,
            },
        );
        i = i + 1;
    }
    assert(out@.map_values(|p: Packet| p@) =~= want);
    Ok(out)
}

} // verus!
