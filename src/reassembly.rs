//! The receiving side of the chunker: packets are collected per sender and
//! stream until every chunk of the stream is there, in any order.
use vstd::prelude::*;
use vstd::set_lib::{lemma_int_range, lemma_len_subset, lemma_subset_equality};
use crate::seqs::{lemma_filter_take_step, lemma_flatten_push};
use crate::packet::{
    MAX_CHUNKS, MAX_PAYLOAD, Packet, PacketView, Scope, chunk_count, chunk_of, min, packet_ok,
    stream_packets,
};

verus! {

/// A partial stream that has not grown for this long is dropped.
pub const IDLE_TIMEOUT_MS: u64 = 10_000;

/// Why a packet was refused.
#[derive(Debug, PartialEq, Eq, Structural)]
pub enum ProtocolError {
    /// The packet claims to come from the local player.
    FromSelf,
    /// The bytes are not a packet.
    Malformed,
    /// The packet counts its stream's chunks differently from the ones
    /// before it; the stream is dropped.
    CountMismatch,
}

/// A stream being collected.
pub struct BufferView {
    pub sender: u8,
    pub stream_id: u32,
    pub chunk_count: u16,
    /// The payload of each chunk; empty where none arrived.
    pub chunks: Seq<Seq<u8>>,
    /// Which chunks arrived.
    pub present: Seq<bool>,
    /// When a chunk last arrived.
    pub last_seen: u64,
}

/// What one packet does to the buffers.
pub enum Outcome {
    /// The stream is still missing chunks.
    Pending,
    /// The stream is complete; these are its bytes.
    Complete(Seq<u8>),
    /// The chunk counts disagree.
    Mismatch,
}

pub open spec fn buffer_ok(b: BufferView) -> bool {
    &&& 1 <= b.chunk_count <= MAX_CHUNKS
    &&& b.chunks.len() == b.chunk_count
    &&& b.present.len() == b.chunk_count
}

pub open spec fn buffers_ok(bufs: Seq<BufferView>) -> bool {
    forall|i: int| 0 <= i < bufs.len() ==> buffer_ok(#[trigger] bufs[i])
}

pub open spec fn matches_key(b: BufferView, sender: u8, stream_id: u32) -> bool {
    b.sender == sender && b.stream_id == stream_id
}

/// `i` is the first buffer of the stream.
pub open spec fn first_match(bufs: Seq<BufferView>, sender: u8, stream_id: u32, i: int) -> bool {
    &&& 0 <= i < bufs.len()
    &&& matches_key(bufs[i], sender, stream_id)
    &&& forall|j: int| 0 <= j < i ==> !matches_key(#[trigger] bufs[j], sender, stream_id)
}

pub open spec fn complete(b: BufferView) -> bool {
    forall|k: int| 0 <= k < b.chunk_count ==> #[trigger] b.present[k]
}

pub open spec fn fresh_buffer(sender: u8, p: PacketView, now: u64) -> BufferView {
    BufferView {
        sender,
        stream_id: p.stream_id,
        chunk_count: p.chunk_count,
        chunks: Seq::new(
            p.chunk_count as nat,
            |k: int|
                if k == p.chunk_index {
                    p.payload
                } else {
                    Seq::empty()
                },
        ),
        present: Seq::new(p.chunk_count as nat, |k: int| k == p.chunk_index),
        last_seen: now,
    }
}

pub open spec fn with_chunk(b: BufferView, p: PacketView, now: u64) -> BufferView {
    BufferView {
        chunks: b.chunks.update(p.chunk_index as int, p.payload),
        present: b.present.update(p.chunk_index as int, true),
        last_seen: now,
        ..b
    }
}

/// The buffers after packet `p` from `sender` arrives at time `now`, and
/// what it completed.
pub open spec fn receive_step(bufs: Seq<BufferView>, sender: u8, p: PacketView, now: u64) -> (
    Seq<BufferView>,
    Outcome,
) {
    if exists|i: int| first_match(bufs, sender, p.stream_id, i) {
        let i = choose|i: int| first_match(bufs, sender, p.stream_id, i);
        if bufs[i].chunk_count != p.chunk_count {
            (bufs.remove(i), Outcome::Mismatch)
        } else {
            let b = with_chunk(bufs[i], p, now);
            if complete(b) {
                (bufs.remove(i), Outcome::Complete(b.chunks.flatten()))
            } else {
                (bufs.update(i, b), Outcome::Pending)
            }
        }
    } else {
        let b = fresh_buffer(sender, p, now);
        if complete(b) {
            (bufs, Outcome::Complete(b.chunks.flatten()))
        } else {
            (bufs.push(b), Outcome::Pending)
        }
    }
}

/// A buffer that `drop_idle` keeps at time `now`.
pub open spec fn is_live(b: BufferView, now: u64) -> bool {
    now <= b.last_seen || now - b.last_seen <= IDLE_TIMEOUT_MS
}

/// The buffers and outcomes after the packets `ps` from `sender` arrive in
/// order, all at time `now`.
pub open spec fn feed(bufs: Seq<BufferView>, sender: u8, ps: Seq<PacketView>, now: u64) -> (
    Seq<BufferView>,
    Seq<Outcome>,
)
    decreases ps.len(),
{
    if ps.len() == 0 {
        (bufs, Seq::empty())
    } else {
        let (before, outs) = feed(bufs, sender, ps.drop_last(), now);
        let (after, o) = receive_step(before, sender, ps.last(), now);
        (after, outs.push(o))
    }
}

/// `order` lists each of `0..k` once.
pub open spec fn is_permutation(order: Seq<int>, k: nat) -> bool {
    &&& order.len() == k
    &&& forall|i: int| 0 <= i < k ==> 0 <= #[trigger] order[i] < k
    &&& order.no_duplicates()
}

/// The buffer of a stream once the packets `order[..j]` arrived.
spec fn partial(blob: Seq<u8>, sender: u8, stream_id: u32, order: Seq<int>, j: int, now: u64) -> BufferView {
    let k = chunk_count(blob.len());
    BufferView {
        sender,
        stream_id,
        chunk_count: k as u16,
        chunks: Seq::new(
            k,
            |c: int|
                if order.take(j).contains(c) {
                    chunk_of(blob, c)
                } else {
                    Seq::empty()
                },
        ),
        present: Seq::new(k, |c: int| order.take(j).contains(c)),
        last_seen: now,
    }
}

proof fn lemma_chunks_flatten(blob: Seq<u8>, m: nat)
    requires
        m <= chunk_count(blob.len()),
    ensures
        Seq::new(m, |c: int| chunk_of(blob, c)).flatten() == blob.subrange(
            0,
            min(m * MAX_PAYLOAD, blob.len() as int),
        ),
    decreases m,
{
    let s = Seq::new(m, |c: int| chunk_of(blob, c));
    if m == 0 {
        assert(s =~= Seq::<Seq<u8>>::empty());
        assert(blob.subrange(0, 0) =~= Seq::<u8>::empty());
    } else {
        let prev = Seq::new((m - 1) as nat, |c: int| chunk_of(blob, c));
        lemma_chunks_flatten(blob, (m - 1) as nat);
        assert(s =~= prev.push(chunk_of(blob, m - 1)));
        lemma_flatten_push(prev, chunk_of(blob, m - 1));
        assert((m - 1) * MAX_PAYLOAD + MAX_PAYLOAD == m * MAX_PAYLOAD) by (nonlinear_arith);
        assert(s.flatten() =~= blob.subrange(0, min(m * MAX_PAYLOAD, blob.len() as int)));
    }
}

proof fn lemma_all_chunks_flatten(blob: Seq<u8>)
    ensures
        Seq::new(chunk_count(blob.len()), |c: int| chunk_of(blob, c)).flatten() == blob,
{
    let k = chunk_count(blob.len());
    lemma_chunks_flatten(blob, k);
    if blob.len() > 0 {
        let q = (blob.len() - 1) as nat / MAX_PAYLOAD as nat;
        assert((blob.len() - 1) as nat / 53 * 53 + 53 > (blob.len() - 1) as nat) by (nonlinear_arith);
        assert(k * MAX_PAYLOAD >= blob.len()) by (nonlinear_arith)
            requires
                k == q + 1,
                q * 53 + 53 > blob.len() - 1,
                MAX_PAYLOAD == 53,
        ;
    }
    assert(blob.subrange(0, blob.len() as int) =~= blob);
}

/// A duplicate-free prefix of a permutation misses some index, unless it is
/// the whole permutation.
proof fn lemma_prefix_coverage(order: Seq<int>, k: nat, j: int)
    requires
        is_permutation(order, k),
        0 <= j <= k,
    ensures
        j < k ==> exists|c: int| 0 <= c < k && !order.take(j).contains(c),
        j == k ==> forall|c: int| 0 <= c < k ==> order.take(j).contains(c),
{
    let p = order.take(j);
    assert(p.no_duplicates());
    p.unique_seq_to_set();
    let s = p.to_set();
    let range = vstd::set_lib::set_int_range(0, k as int);
    lemma_int_range(0, k as int);
    assert(s.subset_of(range));
    lemma_len_subset(s, range);
    if j < k {
        if forall|c: int| 0 <= c < k ==> p.contains(c) {
            assert(range.subset_of(s));
            lemma_len_subset(range, s);
        }
    } else {
        lemma_subset_equality(s, range);
        assert forall|c: int| 0 <= c < k implies p.contains(c) by {
            assert(range.contains(c));
        }
    }
}

proof fn lemma_feed_prefix(
    blob: Seq<u8>,
    stream_id: u32,
    scope: Scope,
    sender: u8,
    order: Seq<int>,
    now: u64,
    j: int,
)
    requires
        chunk_count(blob.len()) <= MAX_CHUNKS,
        is_permutation(order, chunk_count(blob.len())),
        1 <= j < chunk_count(blob.len()),
    ensures
        ({
            let ps = stream_packets(blob, stream_id, scope);
            let fed = order.map_values(|c: int| ps[c]);
            let (bufs, outs) = feed(Seq::empty(), sender, fed.take(j), now);
            &&& bufs == seq![partial(blob, sender, stream_id, order, j, now)]
            &&& outs.len() == j
            &&& forall|i: int| 0 <= i < j ==> #[trigger] outs[i] == Outcome::Pending
        }),
    decreases j,
{
    let k = chunk_count(blob.len());
    let ps = stream_packets(blob, stream_id, scope);
    let fed = order.map_values(|c: int| ps[c]);
    let p = fed[j - 1];
    let idx = order[j - 1];
    assert(fed.take(j).drop_last() =~= fed.take(j - 1));
    assert(fed.take(j).last() == p);
    assert(p == ps[idx]);
    let cur = partial(blob, sender, stream_id, order, j, now);
    assert forall|c: int| #![auto] order.take(j).contains(c) <==> (order.take(j - 1).contains(c) || c == idx) by {
        if order.take(j).contains(c) {
            let w = choose|w: int| 0 <= w < j && #[trigger] order.take(j)[w] == c;
            if w < j - 1 {
                assert(order.take(j - 1)[w] == c);
            }
        }
        if order.take(j - 1).contains(c) {
            let w = choose|w: int| 0 <= w < j - 1 && #[trigger] order.take(j - 1)[w] == c;
            assert(order.take(j)[w] == c);
        }
        if c == idx {
            assert(order.take(j)[j - 1] == c);
        }
    }
    lemma_prefix_coverage(order, k, j);
    let miss = choose|c: int| 0 <= c < k && !order.take(j).contains(c);
    assert(!cur.present[miss]);
    assert(!complete(cur));
    if j == 1 {
        assert(fed.take(0) =~= Seq::<PacketView>::empty());
        assert(!exists|i: int| first_match(Seq::<BufferView>::empty(), sender, p.stream_id, i));
        let fresh = fresh_buffer(sender, p, now);
        assert(fresh.chunks =~= cur.chunks);
        assert(fresh.present =~= cur.present);
        assert(fresh == cur);
        let e = Seq::<BufferView>::empty();
        assert(feed(e, sender, fed.take(0), now) == (e, Seq::<Outcome>::empty()));
        assert(receive_step(e, sender, p, now) == (e.push(cur), Outcome::Pending));
        assert(e.push(cur) =~= seq![cur]);
    } else {
        lemma_feed_prefix(blob, stream_id, scope, sender, order, now, j - 1);
        let prev = partial(blob, sender, stream_id, order, j - 1, now);
        let before = seq![prev];
        assert(first_match(before, sender, p.stream_id, 0));
        assert(forall|i: int| first_match(before, sender, p.stream_id, i) ==> i == 0);
        let upd = with_chunk(prev, p, now);
        assert(upd.chunks =~= cur.chunks);
        assert(upd.present =~= cur.present);
        assert(upd == cur);
        assert(before.update(0, upd) =~= seq![cur]);
    }
}

/// Reassembly does not depend on the order of arrival: when the packets of a
/// stream reach a receiver that holds no buffers, in any order, the stream
/// completes exactly with its last packet, gives back the bytes it was
/// split from, and leaves no buffer behind.
pub proof fn lemma_reassembly_any_order(
    blob: Seq<u8>,
    stream_id: u32,
    scope: Scope,
    sender: u8,
    order: Seq<int>,
    now: u64,
)
    requires
        chunk_count(blob.len()) <= MAX_CHUNKS,
        is_permutation(order, chunk_count(blob.len())),
    ensures
        ({
            let ps = stream_packets(blob, stream_id, scope);
            let k = chunk_count(blob.len()) as int;
            let (bufs, outs) = feed(Seq::empty(), sender, order.map_values(|c: int| ps[c]), now);
            &&& bufs == Seq::<BufferView>::empty()
            &&& outs.len() == k
            &&& forall|i: int| 0 <= i < k - 1 ==> #[trigger] outs[i] == Outcome::Pending
            &&& outs[k - 1] == Outcome::Complete(blob)
        }),
{
    let k = chunk_count(blob.len()) as int;
    let ps = stream_packets(blob, stream_id, scope);
    let fed = order.map_values(|c: int| ps[c]);
    let p = fed[k - 1];
    let idx = order[k - 1];
    assert(fed.take(k) =~= fed);
    assert(fed.drop_last() =~= fed.take(k - 1));
    lemma_prefix_coverage(order, k as nat, k);
    assert(order.take(k) =~= order);
    let all = Seq::new(k as nat, |c: int| chunk_of(blob, c));
    lemma_all_chunks_flatten(blob);
    let done = BufferView {
        sender,
        stream_id,
        chunk_count: k as u16,
        chunks: all,
        present: Seq::new(k as nat, |c: int| true),
        last_seen: now,
    };
    assert(complete(done));
    assert forall|c: int| 0 <= c < k && c != idx implies #[trigger] order.take(k - 1).contains(c) by {
        assert(order.contains(c));
        let w = choose|w: int| 0 <= w < k && #[trigger] order[w] == c;
        assert(w != k - 1);
        assert(order.take(k - 1)[w] == c);
    }
    if k == 1 {
        assert(fed.take(0) =~= Seq::<PacketView>::empty());
        assert(!exists|i: int| first_match(Seq::<BufferView>::empty(), sender, p.stream_id, i));
        let fresh = fresh_buffer(sender, p, now);
        assert(fresh.chunks =~= all);
        assert(fresh.present =~= done.present);
    } else {
        lemma_feed_prefix(blob, stream_id, scope, sender, order, now, k - 1);
        let prev = partial(blob, sender, stream_id, order, k - 1, now);
        let before = seq![prev];
        assert(first_match(before, sender, p.stream_id, 0));
        assert(forall|i: int| first_match(before, sender, p.stream_id, i) ==> i == 0);
        let upd = with_chunk(prev, p, now);
        assert(upd.chunks =~= all);
        assert(upd.present =~= done.present);
        assert(before.remove(0) =~= Seq::<BufferView>::empty());
    }
}

struct Buffer {
    sender: u8,
    stream_id: u32,
    chunk_count: u16,
    chunks: Vec<Vec<u8>>,
    present: Vec<bool>,
    last_seen: u64,
}

impl View for Buffer {
    type V = BufferView;

    closed spec fn view(&self) -> BufferView {
        BufferView {
            sender: self.sender,
            stream_id: self.stream_id,
            chunk_count: self.chunk_count,
            chunks: self.chunks@.map_values(|c: Vec<u8>| c@),
            present: self.present@,
            last_seen: self.last_seen,
        }
    }
}

impl Buffer {
    fn fresh(sender: u8, p: Packet, now: u64) -> (r: Buffer)
        requires
            packet_ok(p@),
        ensures
            r@ == fresh_buffer(sender, p@, now),
    {
        let count = p.chunk_count as usize;
        let mut chunks: Vec<Vec<u8>> = Vec::new();
        let mut present: Vec<bool> = Vec::new();
        let mut k: usize = 0;
        while k < count
            invariant
                count == p.chunk_count,
                k <= count,
                chunks@.len() == k,
                present@.len() == k,
                forall|j: int| 0 <= j < k ==> (#[trigger] chunks@[j])@ == Seq::<u8>::empty(),
                forall|j: int| 0 <= j < k ==> !#[trigger] present@[j],
            decreases count - k,
        {
            chunks.push(Vec::new());
            present.push(false);
            k = k + 1;
        }
        let idx = p.chunk_index as usize;
        chunks[idx] = p.payload;
        present[idx] = true;
        let r = Buffer { sender, stream_id: p.stream_id, chunk_count: p.chunk_count, chunks, present, last_seen: now };
        assert(r@.chunks =~= fresh_buffer(sender, p@, now).chunks);
        assert(r@.present =~= fresh_buffer(sender, p@, now).present);
        r
    }

    fn add(&mut self, p: Packet, now: u64)
        requires
            buffer_ok(old(self)@),
            packet_ok(p@),
            p.chunk_count == old(self).chunk_count,
        ensures
            final(self)@ == with_chunk(old(self)@, p@, now),
    {
        let idx = p.chunk_index as usize;
        self.chunks[idx] = p.payload;
        self.present[idx] = true;
        self.last_seen = now;
        assert(self@.chunks =~= with_chunk(old(self)@, p@, now).chunks);
    }

    fn is_complete(&self) -> (r: bool)
        requires
            buffer_ok(self@),
        ensures
            r == complete(self@),
    {
        let mut k: usize = 0;
        while k < self.present.len()
            invariant
                buffer_ok(self@),
                k <= self.present@.len(),
                forall|j: int| 0 <= j < k ==> #[trigger] self.present@[j],
            decreases self.present@.len() - k,
        {
            if !self.present[k] {
                return false;
            }
            k = k + 1;
        }
        true
    }

    fn assemble(&mut self) -> (r: Vec<u8>)
        ensures
            r@ == old(self)@.chunks.flatten(),
    {
        let ghost cs = self@.chunks;
        let mut out: Vec<u8> = Vec::new();
        let mut k: usize = 0;
        assert(cs.take(0) =~= Seq::<Seq<u8>>::empty());
        while k < self.chunks.len()
            invariant
                k <= self.chunks@.len(),
                self.chunks@.len() == cs.len(),
                out@ == cs.take(k as int).flatten(),
                forall|j: int| k <= j < cs.len() ==> (#[trigger] self.chunks@[j])@ == cs[j],
            decreases self.chunks@.len() - k,
        {
            proof {
                lemma_flatten_push(cs.take(k as int), cs[k as int]);
                assert(cs.take(k + 1) =~= cs.take(k as int).push(cs[k as int]));
            }
            out.append(&mut self.chunks[k]);
            k = k + 1;
        }
        assert(cs.take(k as int) =~= cs);
        out
    }
}

/// The reassembly buffers of every stream in progress.
pub struct Reassembler {
    buffers: Vec<Buffer>,
}

impl View for Reassembler {
    type V = Seq<BufferView>;

    closed spec fn view(&self) -> Seq<BufferView> {
        self.buffers@.map_values(|b: Buffer| b@)
    }
}

impl Reassembler {
    pub fn new() -> (r: Self)
        ensures
            r@ == Seq::<BufferView>::empty(),
    {
        let r = Reassembler { buffers: Vec::new() };
        assert(r@ =~= Seq::<BufferView>::empty());
        r
    }

    /// The number of streams in progress.
    pub fn len(&self) -> (n: usize)
        ensures
            n == self@.len(),
    {
        self.buffers.len()
    }

    /// Files packet `p` from `sender`; gives the stream's bytes once its
    /// last missing chunk arrives, and drops the buffer then.
    pub fn receive(&mut self, sender: u8, p: Packet, now: u64) -> (r: Result<
        Option<Vec<u8>>,
        ProtocolError,
    >)
        requires
            buffers_ok(old(self)@),
            packet_ok(p@),
        ensures
            buffers_ok(final(self)@),
            final(self)@ == receive_step(old(self)@, sender, p@, now).0,
            match receive_step(old(self)@, sender, p@, now).1 {
                Outcome::Pending => r is Ok && r->Ok_0 is None,
                Outcome::Complete(b) => r is Ok && r->Ok_0 is Some && r->Ok_0->Some_0@ == b,
                Outcome::Mismatch => r == Err::<Option<Vec<u8>>, ProtocolError>(
                    ProtocolError::CountMismatch,
                ),
            },
    {
        let ghost bufs = self@;
        let ghost pv = p@;
        let n = self.buffers.len();
        let mut i: usize = 0;
        while i < n && !(self.buffers[i].sender == sender && self.buffers[i].stream_id
            == p.stream_id)
            invariant
                n == self.buffers@.len(),
                bufs == self@,
                i <= n,
                forall|j: int| 0 <= j < i ==> !matches_key(#[trigger] bufs[j], sender, p.stream_id),
            decreases n - i,
        {
            i = i + 1;
        }
        if i < n {
            assert(first_match(bufs, sender, p.stream_id, i as int));
            assert(forall|j: int|
                first_match(bufs, sender, p.stream_id, j) ==> j == i);
            if self.buffers[i].chunk_count != p.chunk_count {
                self.buffers.remove(i);
                assert(self@ =~= bufs.remove(i as int));
                return Err(ProtocolError::CountMismatch);
            }
            self.buffers[i].add(p, now);
            assert(self@ =~= bufs.update(i as int, with_chunk(bufs[i as int], pv, now)));
            if self.buffers[i].is_complete() {
                let mut b = self.buffers.remove(i);
                assert(self@ =~= bufs.remove(i as int));
                Ok(Some(b.assemble()))
            } else {
                Ok(None)
            }
        } else {
            let mut b = Buffer::fresh(sender, p, now);
            if b.is_complete() {
                Ok(Some(b.assemble()))
            } else {
                self.buffers.push(b);
                assert(self@ =~= bufs.push(fresh_buffer(sender, pv, now)));
                Ok(None)
            }
        }
    }

    /// Drops every stream that has not grown for longer than
    /// `IDLE_TIMEOUT_MS` at time `now`.
    pub fn drop_idle(&mut self, now: u64)
        requires
            buffers_ok(old(self)@),
        ensures
            buffers_ok(final(self)@),
            final(self)@ == old(self)@.filter(|b: BufferView| is_live(b, now)),
    {
        let ghost bufs = self@;
        let ghost pred = |b: BufferView| is_live(b, now);
        let mut old_buffers: Vec<Buffer> = Vec::new();
        std::mem::swap(&mut old_buffers, &mut self.buffers);
        let mut kept: Vec<Buffer> = Vec::new();
        let n = old_buffers.len();
        let mut i: usize = 0;
        proof {
            assert(bufs.take(0) =~= Seq::<BufferView>::empty());
            assert(old_buffers@.map_values(|b: Buffer| b@) == bufs);
        }
        while i < n
            invariant
                n == old_buffers@.len(),
                n == bufs.len(),
                pred == (|b: BufferView| is_live(b, now)),
                forall|j: int| i <= j < n ==> (#[trigger] old_buffers@[j])@ == bufs[j],
                buffers_ok(bufs),
                i <= n,
                kept@.map_values(|b: Buffer| b@) == bufs.take(i as int).filter(pred),
                buffers_ok(kept@.map_values(|b: Buffer| b@)),
            decreases n - i,
        {
            let b = &old_buffers[i];
            let live = now <= b.last_seen || now - b.last_seen <= IDLE_TIMEOUT_MS;
            proof {
                lemma_filter_take_step(bufs, pred, i as int);
            }
            if live {
                let mut moved = Buffer {
                    sender: 0,
                    stream_id: 0,
                    chunk_count: 0,
                    chunks: Vec::new(),
                    present: Vec::new(),
                    last_seen: 0,
                };
                std::mem::swap(&mut moved, &mut old_buffers[i]);
                kept.push(moved);
                assert(kept@.map_values(|b: Buffer| b@) =~= bufs.take(i as int).filter(pred).push(
                    bufs[i as int],
                ));
            }
            i = i + 1;
        }
        assert(bufs.take(n as int) =~= bufs);
        self.buffers = kept;
        assert(self@ == bufs.filter(pred));
    }
}

} // verus!
