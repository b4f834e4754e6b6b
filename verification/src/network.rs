//! The LAN side: the audio packet format, the table of peers heard from by
//! their beacons, and the listeners of a published device. Peers and
//! listeners that have not been heard from for `PEER_TIMEOUT_MS` are
//! forgotten. Times are milliseconds on a monotonic clock, read by the
//! caller.
use vstd::prelude::*;
use vstd::bytes::{
    lemma_auto_spec_u32_to_from_le_bytes, spec_u32_from_le_bytes, spec_u32_to_le_bytes, u32_from_le_bytes,
    u32_to_le_bytes,
};
use vstd::string::*;

use crate::text::{hex, hex_chars, str_equal, string_from_chars, string_views};

verus! {

pub const BEACON_PORT: u16 = 47990;
pub const CONTROL_PORT: u16 = 47991;
/// Every network stream is stereo.
pub const NETWORK_CHANNELS: usize = 2;
/// Frames sent per packet.
pub const CHUNK_FRAMES: usize = 240;
/// How long a peer or a listener stays known without being heard from.
pub const PEER_TIMEOUT_MS: u64 = 8000;
pub const BEACON_INTERVAL_MS: u64 = 2000;
pub const HELLO_INTERVAL_MS: u64 = 3000;

/// The id this instance announces itself under: its process id and the
/// start time in nanoseconds, both in lower-case hexadecimal, joined by `-`.
pub open spec fn peer_id_spec(pid: u32, nanos: u64) -> Seq<char> {
    hex(pid as nat) + seq!['-'] + hex(nanos as nat)
}

/// Builds this instance's peer id from its process id and start time.
pub fn peer_id_for(pid: u32, nanos: u64) -> (id: String)
    ensures
        id@ == peer_id_spec(pid, nanos),
{
    let mut v = hex_chars(pid as u64);
    v.push('-');
    let tail = hex_chars(nanos);
    let mut i: usize = 0;
    let ghost head = v@;
    while i < tail.len()
        invariant
            i <= tail@.len(),
            v@ == head + tail@.subrange(0, i as int),
        decreases tail@.len() - i,
    {
        v.push(tail[i]);
        i = i + 1;
        assert(v@ =~= head + tail@.subrange(0, i as int));
    }
    assert(tail@.subrange(0, i as int) =~= tail@);
    assert(v@ =~= peer_id_spec(pid, nanos));
    string_from_chars(v.as_slice())
}

// ---------------------------------------------------------------------
// Packet format: `[u32 seq][f32 samples...]`, all little-endian.
// ---------------------------------------------------------------------

/// The little-endian bytes of each sample (given as `f32` bits), in order.
pub open spec fn samples_bytes(samples: Seq<u32>) -> Seq<u8>
    decreases samples.len(),
{
    if samples.len() == 0 {
        Seq::empty()
    } else {
        samples_bytes(samples.drop_last()) + spec_u32_to_le_bytes(samples.last())
    }
}

/// An audio packet: the sequence number, then the samples.
pub open spec fn packet_bytes(seq: u32, samples: Seq<u32>) -> Seq<u8> {
    spec_u32_to_le_bytes(seq) + samples_bytes(samples)
}

/// The samples a receiver takes from a datagram: nothing from one of at
/// most 4 bytes; otherwise every whole 4-byte word after the sequence
/// number (a trailing partial word is dropped).
pub open spec fn packet_samples(bytes: Seq<u8>) -> Seq<u32> {
    if bytes.len() <= 4 {
        Seq::empty()
    } else {
        Seq::new(
            ((bytes.len() - 4) / 4) as nat,
            |i: int| spec_u32_from_le_bytes(bytes.subrange(4 + 4 * i, 4 + 4 * i + 4)),
        )
    }
}

proof fn lemma_samples_bytes(samples: Seq<u32>)
    ensures
        samples_bytes(samples).len() == 4 * samples.len(),
        forall|i: int|
            0 <= i < samples.len() ==> #[trigger] samples_bytes(samples).subrange(4 * i, 4 * i + 4)
                == spec_u32_to_le_bytes(samples[i]),
    decreases samples.len(),
{
    lemma_auto_spec_u32_to_from_le_bytes();
    if samples.len() > 0 {
        let prev = samples.drop_last();
        lemma_samples_bytes(prev);
        let b = samples_bytes(samples);
        assert forall|i: int| 0 <= i < samples.len() implies #[trigger] b.subrange(4 * i, 4 * i + 4)
            == spec_u32_to_le_bytes(samples[i]) by {
            if i < samples.len() - 1 {
                assert(b.subrange(4 * i, 4 * i + 4) =~= samples_bytes(prev).subrange(4 * i, 4 * i + 4));
            } else {
                assert(b.subrange(4 * i, 4 * i + 4) =~= spec_u32_to_le_bytes(samples.last()));
            }
        }
    }
}

/// A receiver gets back exactly the samples that were sent, whatever the
/// sequence number.
pub proof fn lemma_packet_roundtrip(seq: u32, samples: Seq<u32>)
    ensures
        packet_samples(packet_bytes(seq, samples)) == samples,
{
    lemma_auto_spec_u32_to_from_le_bytes();
    lemma_samples_bytes(samples);
    let b = packet_bytes(seq, samples);
    if samples.len() > 0 {
        assert forall|i: int| 0 <= i < samples.len() implies #[trigger] packet_samples(b)[i] == samples[i] by {
            assert(b.subrange(4 + 4 * i, 4 + 4 * i + 4) =~= samples_bytes(samples).subrange(4 * i, 4 * i + 4));
        }
        assert(packet_samples(b) =~= samples);
    } else {
        assert(packet_samples(b) =~= samples);
    }
}

/// Builds the packet carrying `samples` (as `f32` bits) under sequence
/// number `seq`.
pub fn encode_packet(seq: u32, samples: &[u32]) -> (packet: Vec<u8>)
    requires
        4 + 4 * samples@.len() <= usize::MAX,
    ensures
        packet@ == packet_bytes(seq, samples@),
{
    let mut packet = u32_to_le_bytes(seq);
    assert(samples@.subrange(0, 0) =~= Seq::<u32>::empty());
    assert(packet@ =~= spec_u32_to_le_bytes(seq) + samples_bytes(samples@.subrange(0, 0)));
    let mut k: usize = 0;
    while k < samples.len()
        invariant
            k <= samples@.len(),
            packet@ == spec_u32_to_le_bytes(seq) + samples_bytes(samples@.subrange(0, k as int)),
            4 + 4 * samples@.len() <= usize::MAX,
        decreases samples@.len() - k,
    {
        proof {
            lemma_auto_spec_u32_to_from_le_bytes();
            lemma_samples_bytes(samples@.subrange(0, k as int));
        }
        let word = u32_to_le_bytes(samples[k]);
        let ghost before = packet@;
        let mut j: usize = 0;
        while j < 4
            invariant
                j <= 4,
                word@.len() == 4,
                packet@ == before + word@.subrange(0, j as int),
                before.len() == 4 + 4 * k,
                4 + 4 * samples@.len() <= usize::MAX,
                k < samples@.len(),
            decreases 4 - j,
        {
            packet.push(word[j]);
            j = j + 1;
            assert(packet@ =~= before + word@.subrange(0, j as int));
        }
        proof {
            let s = samples@.subrange(0, k + 1);
            assert(s.drop_last() =~= samples@.subrange(0, k as int));
            assert(word@.subrange(0, 4) =~= word@);
            assert(packet@ =~= spec_u32_to_le_bytes(seq) + samples_bytes(s));
        }
        k = k + 1;
    }
    assert(samples@.subrange(0, k as int) =~= samples@);
    packet
}

/// The samples (as `f32` bits) carried by a received datagram.
pub fn decode_packet(bytes: &[u8]) -> (samples: Vec<u32>)
    ensures
        samples@ == packet_samples(bytes@),
{
    let mut samples: Vec<u32> = Vec::new();
    if bytes.len() <= 4 {
        return samples;
    }
    let n = bytes.len();
    let count = (n - 4) / 4;
    assert(4 + 4 * count <= n);
    let mut i: usize = 0;
    while i < count
        invariant
            n == bytes@.len(),
            bytes@.len() > 4,
            count == (bytes@.len() - 4) / 4,
            4 + 4 * count <= bytes@.len(),
            i <= count,
            samples@ == packet_samples(bytes@).subrange(0, i as int),
        decreases count - i,
    {
        let start = 4 + 4 * i;
        let word = vstd::slice::slice_subrange(bytes, start, start + 4);
        samples.push(u32_from_le_bytes(word));
        i = i + 1;
        assert(samples@ =~= packet_samples(bytes@).subrange(0, i as int));
    }
    assert(packet_samples(bytes@).subrange(0, i as int) =~= packet_samples(bytes@));
    samples
}

// ---------------------------------------------------------------------
// Peers.
// ---------------------------------------------------------------------

/// A device a peer publishes.
pub struct PeerDeviceInfo {
    pub device_id: String,
    pub device_name: String,
}

pub struct PeerDeviceView {
    pub device_id: Seq<char>,
    pub device_name: Seq<char>,
}

impl View for PeerDeviceInfo {
    type V = PeerDeviceView;

    open spec fn view(&self) -> PeerDeviceView {
        PeerDeviceView { device_id: self.device_id@, device_name: self.device_name@ }
    }
}

impl Clone for PeerDeviceInfo {
    fn clone(&self) -> (r: Self)
        ensures
            r@ == self@,
    {
        PeerDeviceInfo { device_id: self.device_id.clone(), device_name: self.device_name.clone() }
    }
}

/// A peer as last heard from: its id, machine name, address and the
/// devices it publishes.
pub struct PeerSnapshot {
    pub peer_id: String,
    pub name: String,
    pub addr: String,
    pub published: Vec<PeerDeviceInfo>,
}

pub struct PeerView {
    pub peer_id: Seq<char>,
    pub name: Seq<char>,
    pub addr: Seq<char>,
    pub published: Seq<PeerDeviceView>,
}

impl View for PeerSnapshot {
    type V = PeerView;

    open spec fn view(&self) -> PeerView {
        PeerView {
            peer_id: self.peer_id@,
            name: self.name@,
            addr: self.addr@,
            published: self.published@.map_values(|d: PeerDeviceInfo| d@),
        }
    }
}

impl Clone for PeerSnapshot {
    fn clone(&self) -> (r: Self)
        ensures
            r@ == self@,
    {
        let mut published: Vec<PeerDeviceInfo> = Vec::new();
        let mut i: usize = 0;
        while i < self.published.len()
            invariant
                i <= self.published@.len(),
                published@.len() == i,
                forall|j: int| 0 <= j < i ==> (#[trigger] published@[j])@ == self.published@[j]@,
            decreases self.published@.len() - i,
        {
            published.push(self.published[i].clone());
            i = i + 1;
        }
        let r = PeerSnapshot {
            peer_id: self.peer_id.clone(),
            name: self.name.clone(),
            addr: self.addr.clone(),
            published,
        };
        assert(r@.published =~= self@.published);
        r
    }
}

/// A known peer and when its last beacon arrived.
pub struct PeerRecord {
    pub info: PeerSnapshot,
    pub last_seen_ms: u64,
}

pub struct PeerRecordView {
    pub info: PeerView,
    pub last_seen_ms: u64,
}

impl View for PeerRecord {
    type V = PeerRecordView;

    open spec fn view(&self) -> PeerRecordView {
        PeerRecordView { info: self.info@, last_seen_ms: self.last_seen_ms }
    }
}

/// Whether something last heard from at `last_ms` is still known at `now_ms`.
pub open spec fn still_fresh(last_ms: u64, now_ms: u64) -> bool {
    (if now_ms >= last_ms { now_ms - last_ms } else { 0 }) < PEER_TIMEOUT_MS
}

fn is_fresh(last_ms: u64, now_ms: u64) -> (r: bool)
    ensures
        r == still_fresh(last_ms, now_ms),
{
    now_ms.saturating_sub(last_ms) < PEER_TIMEOUT_MS
}

pub open spec fn peer_from(ps: Seq<PeerRecordView>, id: Seq<char>, i: int) -> Option<int>
    decreases ps.len() - i,
{
    if i < 0 || i >= ps.len() {
        None
    } else if ps[i].info.peer_id == id {
        Some(i)
    } else {
        peer_from(ps, id, i + 1)
    }
}

/// Position of peer `id` in the table.
pub open spec fn peer_pos(ps: Seq<PeerRecordView>, id: Seq<char>) -> Option<int> {
    peer_from(ps, id, 0)
}

proof fn lemma_peer_from_found(ps: Seq<PeerRecordView>, id: Seq<char>, i: int)
    requires
        0 <= i,
    ensures
        peer_from(ps, id, i) matches Some(k) ==> i <= k < ps.len() && ps[k].info.peer_id == id,
        peer_from(ps, id, i) is None ==> forall|k: int| i <= k < ps.len() ==> (#[trigger] ps[k]).info.peer_id != id,
    decreases ps.len() - i,
{
    if i < ps.len() && ps[i].info.peer_id != id {
        lemma_peer_from_found(ps, id, i + 1);
    }
}

/// No peer is listed twice.
pub open spec fn distinct_peers(ps: Seq<PeerRecordView>) -> bool {
    forall|i: int, j: int| 0 <= i < j < ps.len() ==> ps[i].info.peer_id != ps[j].info.peer_id
}

/// The table after a beacon from `info` arrived at `now_ms`: our own
/// beacons are ignored; a known peer's entry is replaced in place, a new
/// peer is appended.
pub open spec fn beacon_step(ps: Seq<PeerRecordView>, self_id: Seq<char>, info: PeerView, now_ms: u64) -> Seq<PeerRecordView> {
    if info.peer_id == self_id {
        ps
    } else {
        match peer_pos(ps, info.peer_id) {
            Some(i) => ps.update(i, PeerRecordView { info, last_seen_ms: now_ms }),
            None => ps.push(PeerRecordView { info, last_seen_ms: now_ms }),
        }
    }
}

/// The entries of `ps` still fresh at `now_ms`, in order.
pub open spec fn fresh_peers(ps: Seq<PeerRecordView>, now_ms: u64) -> Seq<PeerRecordView>
    decreases ps.len(),
{
    if ps.len() == 0 {
        ps
    } else {
        let rest = fresh_peers(ps.drop_last(), now_ms);
        if still_fresh(ps.last().last_seen_ms, now_ms) {
            rest.push(ps.last())
        } else {
            rest
        }
    }
}

proof fn lemma_fresh_peers_sub(ps: Seq<PeerRecordView>, now_ms: u64)
    ensures
        forall|x: PeerRecordView| #[trigger] fresh_peers(ps, now_ms).contains(x) <==> (ps.contains(x) && still_fresh(x.last_seen_ms, now_ms)),
        distinct_peers(ps) ==> distinct_peers(fresh_peers(ps, now_ms)),
    decreases ps.len(),
{
    if ps.len() > 0 {
        let prev = ps.drop_last();
        lemma_fresh_peers_sub(prev, now_ms);
        let f = fresh_peers(ps, now_ms);
        let fp = fresh_peers(prev, now_ms);
        assert forall|x: PeerRecordView| #[trigger] f.contains(x) <==> (ps.contains(x) && still_fresh(x.last_seen_ms, now_ms)) by {
            if ps.contains(x) {
                let k = choose|k: int| 0 <= k < ps.len() && ps[k] == x;
                if k < ps.len() - 1 {
                    assert(prev[k] == x);
                }
            }
            if prev.contains(x) {
                let k = choose|k: int| 0 <= k < prev.len() && prev[k] == x;
                assert(ps[k] == x);
            }
            if f.contains(x) && !fp.contains(x) {
                let k = choose|k: int| 0 <= k < f.len() && f[k] == x;
                assert(k == f.len() - 1);
            }
            if fp.contains(x) && still_fresh(ps.last().last_seen_ms, now_ms) {
                let k = choose|k: int| 0 <= k < fp.len() && fp[k] == x;
                assert(f[k] == x);
            }
            if ps.contains(x) && !prev.contains(x) && still_fresh(x.last_seen_ms, now_ms) {
                assert(x == ps.last()) by {
                    let k = choose|k: int| 0 <= k < ps.len() && ps[k] == x;
                    if k < ps.len() - 1 {
                        assert(prev[k] == x);
                    }
                }
                assert(f[f.len() - 1] == x);
            }
        }
        if distinct_peers(ps) && still_fresh(ps.last().last_seen_ms, now_ms) {
            assert(distinct_peers(prev));
            assert forall|i: int, j: int| 0 <= i < j < f.len() implies f[i].info.peer_id != f[j].info.peer_id by {
                if j == f.len() - 1 {
                    assert(fp.contains(f[i]));
                    assert(prev.contains(f[i]));
                    let k = choose|k: int| 0 <= k < prev.len() && prev[k] == f[i];
                    assert(ps[k] == f[i]);
                    assert(ps[ps.len() - 1] == f[j]);
                }
            }
        }
    }
}

/// No entry of `ps` is the peer `self_id`.
pub open spec fn never_lists(ps: Seq<PeerRecordView>, self_id: Seq<char>) -> bool {
    forall|i: int| 0 <= i < ps.len() ==> (#[trigger] ps[i]).info.peer_id != self_id
}

/// Every entry of `ps` was heard from less than `PEER_TIMEOUT_MS` before
/// `now_ms`.
pub open spec fn all_fresh(ps: Seq<PeerRecordView>, now_ms: u64) -> bool {
    forall|i: int| 0 <= i < ps.len() ==> still_fresh((#[trigger] ps[i]).last_seen_ms, now_ms)
}

/// The peer table's standing law. An empty table lists nobody; a beacon
/// never brings our own id `self_id` in, and the peer it comes from is
/// listed as heard from at its arrival; a sweep at `now_ms` keeps our own
/// id out and leaves only peers heard from less than `PEER_TIMEOUT_MS`
/// before it. So the table never lists this instance, and after each
/// sweep every listed peer is fresh.
pub proof fn lemma_peer_table_law(ps: Seq<PeerRecordView>, self_id: Seq<char>, info: PeerView, now_ms: u64)
    requires
        never_lists(ps, self_id),
    ensures
        never_lists(Seq::<PeerRecordView>::empty(), self_id),
        never_lists(beacon_step(ps, self_id, info, now_ms), self_id),
        info.peer_id != self_id ==> beacon_step(ps, self_id, info, now_ms).contains(
            PeerRecordView { info, last_seen_ms: now_ms },
        ),
        never_lists(fresh_peers(ps, now_ms), self_id),
        all_fresh(fresh_peers(ps, now_ms), now_ms),
{
    lemma_fresh_peers_sub(ps, now_ms);
    let f = fresh_peers(ps, now_ms);
    assert forall|i: int| 0 <= i < f.len() implies (#[trigger] f[i]).info.peer_id != self_id
        && still_fresh(f[i].last_seen_ms, now_ms) by {
        assert(f.contains(f[i]));
        let k = choose|k: int| 0 <= k < ps.len() && ps[k] == f[i];
        assert(ps[k].info.peer_id != self_id);
    }
    let b = beacon_step(ps, self_id, info, now_ms);
    let r = PeerRecordView { info, last_seen_ms: now_ms };
    if info.peer_id != self_id {
        lemma_peer_from_found(ps, info.peer_id, 0);
        match peer_pos(ps, info.peer_id) {
            Some(i) => {
                assert(b[i] == r);
            },
            None => {
                assert(b[b.len() - 1] == r);
            },
        }
    }
}

/// The sequence number after `s`: one more, wrapping from `u32::MAX` to 0.
pub open spec fn next_seq(s: u32) -> u32 {
    if s == u32::MAX {
        0
    } else {
        (s + 1) as u32
    }
}

/// The sequence law of a publication: over successive ticks that each sent
/// a packet (each taking the publication from `seqs[i]` to
/// `seqs[i + 1]`), the `i`-th packet carries `seqs[0] + i`, wrapping
/// modulo 2^32, so receivers see the numbers rise by one per packet.
pub proof fn lemma_sequence_rises_by_one(seqs: Seq<u32>)
    requires
        forall|i: int| 0 <= i < seqs.len() - 1 ==> seqs[i + 1] == #[trigger] next_seq(seqs[i]),
    ensures
        forall|i: int| 0 <= i < seqs.len() ==> #[trigger] seqs[i] == (seqs[0] + i) % 0x1_0000_0000,
    decreases seqs.len(),
{
    if seqs.len() > 1 {
        let init = seqs.drop_last();
        assert forall|i: int| 0 <= i < init.len() - 1 implies init[i + 1] == #[trigger] next_seq(init[i]) by {
            assert(seqs[i + 1] == next_seq(seqs[i]));
        }
        lemma_sequence_rises_by_one(init);
        assert forall|i: int| 0 <= i < seqs.len() implies #[trigger] seqs[i] == (seqs[0] + i) % 0x1_0000_0000 by {
            if i < seqs.len() - 1 {
                assert(seqs[i] == init[i]);
            } else {
                let j = i - 1;
                assert(seqs[j] == init[j]);
                assert(seqs[j + 1] == next_seq(seqs[j]));
                assert(seqs[j] == (seqs[0] + j) % 0x1_0000_0000);
                assert(((seqs[0] + j) % 0x1_0000_0000 + 1) % 0x1_0000_0000 == (seqs[0] + j + 1) % 0x1_0000_0000)
                    by (nonlinear_arith);
            }
        }
    }
}

/// Every peer heard from, one entry per peer id.
pub struct PeerTable {
    pub peers: Vec<PeerRecord>,
}

impl View for PeerTable {
    type V = Seq<PeerRecordView>;

    open spec fn view(&self) -> Seq<PeerRecordView> {
        self.peers@.map_values(|p: PeerRecord| p@)
    }
}

pub open spec fn unknown_peer_error(id: Seq<char>) -> Seq<char> {
    "Unknown peer: "@ + id
}

impl PeerTable {
    /// No peer known.
    pub fn new() -> (t: PeerTable)
        ensures
            t@.len() == 0,
    {
        PeerTable { peers: Vec::new() }
    }

    fn position(&self, id: &str) -> (r: Option<usize>)
        ensures
            match r {
                Some(k) => peer_pos(self@, id@) == Some(k as int) && k < self@.len(),
                None => peer_pos(self@, id@) is None,
            },
    {
        let mut i: usize = 0;
        while i < self.peers.len()
            invariant
                i <= self.peers@.len(),
                peer_pos(self@, id@) == peer_from(self@, id@, i as int),
            decreases self.peers@.len() - i,
        {
            if str_equal(self.peers[i].info.peer_id.as_str(), id) {
                return Some(i);
            }
            i = i + 1;
        }
        None
    }

    /// Records a beacon from peer `info` that arrived at `now_ms`; beacons
    /// carrying our own id `self_id` are ignored.
    pub fn record_beacon(&mut self, self_id: &str, info: PeerSnapshot, now_ms: u64)
        requires
            distinct_peers(old(self)@),
        ensures
            final(self)@ == beacon_step(old(self)@, self_id@, info@, now_ms),
            distinct_peers(final(self)@),
    {
        if str_equal(info.peer_id.as_str(), self_id) {
            return;
        }
        proof {
            lemma_peer_from_found(self@, info@.peer_id, 0);
        }
        let ghost iv = info@;
        match self.position(info.peer_id.as_str()) {
            Some(i) => {
                self.peers.remove(i);
                self.peers.insert(i, PeerRecord { info, last_seen_ms: now_ms });
                assert(self@ =~= old(self)@.update(i as int, PeerRecordView { info: iv, last_seen_ms: now_ms }));
            },
            None => {
                self.peers.push(PeerRecord { info, last_seen_ms: now_ms });
                assert(self@ =~= old(self)@.push(PeerRecordView { info: iv, last_seen_ms: now_ms }));
            },
        }
    }

    /// Forgets every peer not heard from within `PEER_TIMEOUT_MS` of `now_ms`.
    pub fn expire(&mut self, now_ms: u64)
        requires
            distinct_peers(old(self)@),
        ensures
            final(self)@ == fresh_peers(old(self)@, now_ms),
            distinct_peers(final(self)@),
    {
        proof {
            lemma_fresh_peers_sub(old(self)@, now_ms);
        }
        let ghost ps = old(self)@;
        let mut kept: Vec<PeerRecord> = Vec::new();
        let mut i: usize = 0;
        while i < self.peers.len()
            invariant
                ps == self@,
                i <= ps.len(),
                kept@.map_values(|p: PeerRecord| p@) == fresh_peers(ps.subrange(0, i as int), now_ms),
            decreases ps.len() - i,
        {
            let p = &self.peers[i];
            assert(ps.subrange(0, i + 1).drop_last() =~= ps.subrange(0, i as int));
            if is_fresh(p.last_seen_ms, now_ms) {
                kept.push(PeerRecord { info: p.info.clone(), last_seen_ms: p.last_seen_ms });
            }
            assert(kept@.map_values(|p: PeerRecord| p@) =~= fresh_peers(ps.subrange(0, i + 1), now_ms));
            i = i + 1;
        }
        assert(ps.subrange(0, i as int) =~= ps);
        self.peers = kept;
    }

    /// What is known of every peer, in table order.
    pub fn list_peers(&self) -> (r: Vec<PeerSnapshot>)
        ensures
            r@.len() == self@.len(),
            forall|i: int| 0 <= i < r@.len() ==> (#[trigger] r@[i])@ == self@[i].info,
    {
        let mut r: Vec<PeerSnapshot> = Vec::new();
        let mut i: usize = 0;
        while i < self.peers.len()
            invariant
                i <= self.peers@.len(),
                r@.len() == i,
                forall|j: int| 0 <= j < i ==> (#[trigger] r@[j])@ == self@[j].info,
            decreases self.peers@.len() - i,
        {
            r.push(self.peers[i].info.clone());
            i = i + 1;
        }
        r
    }

    /// The address of peer `peer_id`, or the error reported for a peer
    /// that is not known.
    pub fn peer_addr(&self, peer_id: &str) -> (r: Result<String, String>)
        ensures
            match peer_pos(self@, peer_id@) {
                Some(i) => r matches Ok(a) && a@ == self@[i].info.addr,
                None => r matches Err(e) && e@ == unknown_peer_error(peer_id@),
            },
    {
        proof {
            lemma_peer_from_found(self@, peer_id@, 0);
        }
        match self.position(peer_id) {
            Some(i) => Ok(self.peers[i].info.addr.clone()),
            None => {
                let mut e = String::from_str("Unknown peer: ");
                e.append(peer_id);
                Err(e)
            },
        }
    }
}

// ---------------------------------------------------------------------
// Publishing a device.
// ---------------------------------------------------------------------

/// A subscriber of a published device: where to send its audio ("ip:port")
/// and when its last subscribe request arrived.
pub struct Listener {
    pub addr: String,
    pub last_seen_ms: u64,
}

pub struct ListenerView {
    pub addr: Seq<char>,
    pub last_seen_ms: u64,
}

impl View for Listener {
    type V = ListenerView;

    open spec fn view(&self) -> ListenerView {
        ListenerView { addr: self.addr@, last_seen_ms: self.last_seen_ms }
    }
}

pub open spec fn listener_from(ls: Seq<ListenerView>, addr: Seq<char>, i: int) -> Option<int>
    decreases ls.len() - i,
{
    if i < 0 || i >= ls.len() {
        None
    } else if ls[i].addr == addr {
        Some(i)
    } else {
        listener_from(ls, addr, i + 1)
    }
}

pub open spec fn listener_pos(ls: Seq<ListenerView>, addr: Seq<char>) -> Option<int> {
    listener_from(ls, addr, 0)
}

proof fn lemma_listener_from_found(ls: Seq<ListenerView>, addr: Seq<char>, i: int)
    requires
        0 <= i,
    ensures
        listener_from(ls, addr, i) matches Some(k) ==> i <= k < ls.len() && ls[k].addr == addr,
        listener_from(ls, addr, i) is None ==> forall|k: int| i <= k < ls.len() ==> (#[trigger] ls[k]).addr != addr,
    decreases ls.len() - i,
{
    if i < ls.len() && ls[i].addr != addr {
        lemma_listener_from_found(ls, addr, i + 1);
    }
}

/// No address is listed twice.
pub open spec fn distinct_listeners(ls: Seq<ListenerView>) -> bool {
    forall|i: int, j: int| 0 <= i < j < ls.len() ==> ls[i].addr != ls[j].addr
}

/// The listeners still fresh at `now_ms`, in order.
pub open spec fn fresh_listeners(ls: Seq<ListenerView>, now_ms: u64) -> Seq<ListenerView>
    decreases ls.len(),
{
    if ls.len() == 0 {
        ls
    } else {
        let rest = fresh_listeners(ls.drop_last(), now_ms);
        if still_fresh(ls.last().last_seen_ms, now_ms) {
            rest.push(ls.last())
        } else {
            rest
        }
    }
}

pub open spec fn listener_addrs(ls: Seq<ListenerView>) -> Seq<Seq<char>> {
    Seq::new(ls.len(), |i: int| ls[i].addr)
}

proof fn lemma_fresh_listeners_sub(ls: Seq<ListenerView>, now_ms: u64)
    ensures
        forall|x: ListenerView| #[trigger] fresh_listeners(ls, now_ms).contains(x) ==> ls.contains(x),
        distinct_listeners(ls) ==> distinct_listeners(fresh_listeners(ls, now_ms)),
    decreases ls.len(),
{
    if ls.len() > 0 {
        let prev = ls.drop_last();
        lemma_fresh_listeners_sub(prev, now_ms);
        let f = fresh_listeners(ls, now_ms);
        let fp = fresh_listeners(prev, now_ms);
        assert forall|x: ListenerView| #[trigger] f.contains(x) implies ls.contains(x) by {
            let k = choose|k: int| 0 <= k < f.len() && f[k] == x;
            if k < fp.len() {
                assert(fp[k] == x);
                assert(fp.contains(x));
                let m = choose|m: int| 0 <= m < prev.len() && prev[m] == x;
                assert(ls[m] == x);
            } else {
                assert(ls[ls.len() - 1] == x);
            }
        }
        if distinct_listeners(ls) && still_fresh(ls.last().last_seen_ms, now_ms) {
            assert(distinct_listeners(prev));
            assert forall|i: int, j: int| 0 <= i < j < f.len() implies f[i].addr != f[j].addr by {
                if j == f.len() - 1 {
                    assert(f[i] == fp[i]);
                    assert(fp.contains(f[i]));
                    assert(prev.contains(f[i]));
                    let k = choose|k: int| 0 <= k < prev.len() && prev[k] == f[i];
                    assert(ls[k] == f[i]);
                    assert(ls[ls.len() - 1] == f[j]);
                } else {
                    assert(f[i] == fp[i]);
                    assert(f[j] == fp[j]);
                }
            }
        }
    }
}

/// A published device: its id and name, its listeners and the sequence
/// number of the next packet.
pub struct Publication {
    pub device_id: String,
    pub device_name: String,
    pub listeners: Vec<Listener>,
    pub seq: u32,
}

pub struct PublicationView {
    pub device_id: Seq<char>,
    pub device_name: Seq<char>,
    pub listeners: Seq<ListenerView>,
    pub seq: u32,
}

impl View for Publication {
    type V = PublicationView;

    open spec fn view(&self) -> PublicationView {
        PublicationView {
            device_id: self.device_id@,
            device_name: self.device_name@,
            listeners: self.listeners@.map_values(|l: Listener| l@),
            seq: self.seq,
        }
    }
}

/// What one publishing tick sends: the packet and the addresses it goes to.
pub struct Outgoing {
    pub packet: Vec<u8>,
    pub to: Vec<String>,
}

impl Publication {
    /// A device just published: nobody listening yet, sequence at zero.
    pub fn new(device_id: String, device_name: String) -> (p: Publication)
        ensures
            p@.device_id == device_id@,
            p@.device_name == device_name@,
            p@.listeners.len() == 0,
            p@.seq == 0,
    {
        Publication { device_id, device_name, listeners: Vec::new(), seq: 0 }
    }

    fn listener_index(&self, addr: &str) -> (r: Option<usize>)
        ensures
            match r {
                Some(k) => listener_pos(self@.listeners, addr@) == Some(k as int) && k < self@.listeners.len(),
                None => listener_pos(self@.listeners, addr@) is None,
            },
    {
        let mut i: usize = 0;
        while i < self.listeners.len()
            invariant
                i <= self.listeners@.len(),
                listener_pos(self@.listeners, addr@) == listener_from(self@.listeners, addr@, i as int),
            decreases self.listeners@.len() - i,
        {
            if str_equal(self.listeners[i].addr.as_str(), addr) {
                return Some(i);
            }
            i = i + 1;
        }
        None
    }

    /// Records a subscribe request from `addr` arriving at `now_ms`: a known
    /// listener is refreshed in place, a new one is appended.
    pub fn add_listener(&mut self, addr: String, now_ms: u64)
        requires
            distinct_listeners(old(self)@.listeners),
        ensures
            final(self)@ == (PublicationView {
                listeners: match listener_pos(old(self)@.listeners, addr@) {
                    Some(i) => old(self)@.listeners.update(i, ListenerView { addr: addr@, last_seen_ms: now_ms }),
                    None => old(self)@.listeners.push(ListenerView { addr: addr@, last_seen_ms: now_ms }),
                },
                ..old(self)@
            }),
            distinct_listeners(final(self)@.listeners),
    {
        proof {
            lemma_listener_from_found(old(self)@.listeners, addr@, 0);
        }
        let ghost av = addr@;
        let ghost ls = old(self)@.listeners;
        match self.listener_index(addr.as_str()) {
            Some(i) => {
                self.listeners.remove(i);
                self.listeners.insert(i, Listener { addr, last_seen_ms: now_ms });
                assert(self@.listeners =~= ls.update(i as int, ListenerView { addr: av, last_seen_ms: now_ms }));
            },
            None => {
                self.listeners.push(Listener { addr, last_seen_ms: now_ms });
                assert(self@.listeners =~= ls.push(ListenerView { addr: av, last_seen_ms: now_ms }));
            },
        }
    }

    /// Forgets listeners not heard from within `PEER_TIMEOUT_MS` of `now_ms`
    /// and returns the addresses of those that remain.
    pub fn active_listeners(&mut self, now_ms: u64) -> (to: Vec<String>)
        requires
            distinct_listeners(old(self)@.listeners),
        ensures
            final(self)@ == (PublicationView {
                listeners: fresh_listeners(old(self)@.listeners, now_ms),
                ..old(self)@
            }),
            string_views(to@) == listener_addrs(final(self)@.listeners),
            distinct_listeners(final(self)@.listeners),
    {
        proof {
            lemma_fresh_listeners_sub(old(self)@.listeners, now_ms);
        }
        let ghost ls = old(self)@.listeners;
        let mut kept: Vec<Listener> = Vec::new();
        let mut to: Vec<String> = Vec::new();
        let mut i: usize = 0;
        while i < self.listeners.len()
            invariant
                ls == self@.listeners,
                i <= ls.len(),
                kept@.map_values(|l: Listener| l@) == fresh_listeners(ls.subrange(0, i as int), now_ms),
                string_views(to@) == listener_addrs(kept@.map_values(|l: Listener| l@)),
            decreases ls.len() - i,
        {
            let l = &self.listeners[i];
            assert(ls.subrange(0, i + 1).drop_last() =~= ls.subrange(0, i as int));
            let ghost prev_to = to@;
            let ghost prev_kept = kept@;
            if is_fresh(l.last_seen_ms, now_ms) {
                kept.push(Listener { addr: l.addr.clone(), last_seen_ms: l.last_seen_ms });
                to.push(l.addr.clone());
                proof {
                    let kv = kept@.map_values(|l: Listener| l@);
                    let pkv = prev_kept.map_values(|l: Listener| l@);
                    assert(string_views(prev_to).len() == listener_addrs(pkv).len());
                    assert forall|k: int| 0 <= k < to@.len() implies #[trigger] string_views(to@)[k]
                        == listener_addrs(kv)[k] by {
                        if k < prev_to.len() {
                            assert(to@[k] == prev_to[k]);
                            assert(kept@[k] == prev_kept[k]);
                            assert(string_views(prev_to)[k] == listener_addrs(pkv)[k]);
                        }
                    }
                }
            }
            assert(kept@.map_values(|l: Listener| l@) =~= fresh_listeners(ls.subrange(0, i + 1), now_ms));
            assert(string_views(to@) =~= listener_addrs(kept@.map_values(|l: Listener| l@)));
            i = i + 1;
        }
        assert(ls.subrange(0, i as int) =~= ls);
        self.listeners = kept;
        to
    }

    /// One publishing tick with the `samples` (as `f32` bits) taken from
    /// the device's mix at `now_ms`. Nothing is sent when there are no
    /// samples (listeners are then left as they are) or nobody is listening
    /// any more; otherwise the packet numbered `seq` goes to every active
    /// listener and the sequence number advances, wrapping around.
    pub fn tick(&mut self, samples: &[u32], now_ms: u64) -> (out: Option<Outgoing>)
        requires
            distinct_listeners(old(self)@.listeners),
            4 + 4 * samples@.len() <= usize::MAX,
        ensures
            distinct_listeners(final(self)@.listeners),
            samples@.len() == 0 ==> out is None && final(self)@ == old(self)@,
            samples@.len() > 0 ==> {
                let fresh = fresh_listeners(old(self)@.listeners, now_ms);
                &&& final(self)@.device_id == old(self)@.device_id
                &&& final(self)@.device_name == old(self)@.device_name
                &&& final(self)@.listeners == fresh
                &&& fresh.len() == 0 ==> out is None && final(self)@.seq == old(self)@.seq
                &&& fresh.len() > 0 ==> (out matches Some(o) && o.packet@ == packet_bytes(old(self)@.seq, samples@)
                    && string_views(o.to@) == listener_addrs(fresh) && final(self)@.seq == next_seq(old(self)@.seq))
            },
    {
        if samples.len() == 0 {
            return None;
        }
        let to = self.active_listeners(now_ms);
        assert(string_views(to@).len() == to@.len());
        assert(listener_addrs(self@.listeners).len() == self@.listeners.len());
        if to.len() == 0 {
            return None;
        }
        let packet = encode_packet(self.seq, samples);
        self.seq = if self.seq == u32::MAX {
            0
        } else {
            self.seq + 1
        };
        Some(Outgoing { packet, to })
    }
}

} // verus!
