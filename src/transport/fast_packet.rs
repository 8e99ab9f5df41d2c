use crate::frame::{all_short, appended, lemma_appended_none, lemma_appended_trans, Frame, Header, PGN};
use crate::transport::transport_packager::{rx_accept, send};
use std::collections::BTreeMap;
use vstd::prelude::*;

verus! {

/// Largest payload of a fast-packet message.
pub const FP_MAX_SIZE: usize = 223;

/// Reassembly of a fast-packet message
pub struct FpReceiver {
    /// size announced by the first frame
    pub expected_bytes: u8,
    /// sequence counter of the message
    pub sequence: u8,
    /// bytes received so far
    pub data: Vec<u8>,
}

/// Outgoing fast-packet message, one frame per tick
pub struct FpTransmitter {
    /// the frame being sent
    pub frame: Frame,
    /// item counter of the last frame sent
    pub item: u8,
    /// sequence counter of the message
    pub sequence: u8,
}

/// A de- and encoder for NMEA 2000 PGNs that use the fast packet protocol
pub struct FastPacketCoder {
    /// the fast-packet PGNs
    pub pgns: Vec<PGN>,
    /// reassembly, by PGN
    pub receiver: BTreeMap<u32, FpReceiver>,
    /// outgoing messages
    pub transmitter: Vec<FpTransmitter>,
    /// sequence counter to use next, by PGN
    pub last_used_sequence: BTreeMap<u32, u8>,
}

/// The six payload bytes of a first frame, padded with 0xFF.
pub open spec fn fp_first_payload(data: Seq<u8>) -> Seq<u8> {
    Seq::new(6, |j: int| if j < data.len() { data[j] } else { 0xFFu8 })
}

/// The seven payload bytes of follow-on frame `item` (from 1), padded with 0xFF.
pub open spec fn fp_payload(data: Seq<u8>, item: int) -> Seq<u8> {
    Seq::new(7, |j: int| if 6 + (item - 1) * 7 + j < data.len() { data[6 + (item - 1) * 7 + j] } else { 0xFFu8 })
}

/// The first frame of a message.
pub open spec fn fp_first_frame(h: Header, sequence: u8, data: Seq<u8>) -> (Header, Seq<u8>) {
    (h, seq![(sequence * 32) as u8, data.len() as u8] + fp_first_payload(data))
}

/// Follow-on frame `item` of a message.
pub open spec fn fp_item_frame(h: Header, sequence: u8, item: int, data: Seq<u8>) -> (Header, Seq<u8>) {
    (h, seq![(sequence * 32 + item) as u8] + fp_payload(data, item))
}

/// Whether a transmitter still has bytes to send after its next frame.
pub open spec fn fp_continues(t: FpTransmitter) -> bool {
    6 + (t.item + 1) * 7 < t.frame@.1.len()
}

/// The frames that one tick sends for the transmitters `s`, in order.
pub open spec fn fp_tick_frames(s: Seq<FpTransmitter>) -> Seq<(Header, Seq<u8>)>
    decreases s.len(),
{
    if s.len() == 0 {
        Seq::empty()
    } else {
        let t = s.last();
        fp_tick_frames(s.drop_last()).push(fp_item_frame(t.frame@.0, t.sequence, t.item + 1, t.frame@.1))
    }
}

/// The transmitters left after one tick: each advanced by one item, the
/// finished ones dropped.
pub open spec fn fp_tick_rest(s: Seq<FpTransmitter>) -> Seq<(Header, Seq<u8>, u8, u8)>
    decreases s.len(),
{
    if s.len() == 0 {
        Seq::empty()
    } else {
        let t = s.last();
        let rest = fp_tick_rest(s.drop_last());
        if fp_continues(t) {
            rest.push((t.frame@.0, t.frame@.1, (t.item + 1) as u8, t.sequence))
        } else {
            rest
        }
    }
}

/// The view of a transmitter: header, data, item, sequence.
pub open spec fn fp_view(t: FpTransmitter) -> (Header, Seq<u8>, u8, u8) {
    (t.frame@.0, t.frame@.1, t.item, t.sequence)
}

/// What a received fast-packet frame does to the coder, and the message `r` it completes.
pub open spec fn fp_rx_effect(pre: FastPacketCoder, post: FastPacketCoder, header: Header, d: Seq<u8>, r: Option<Frame>) -> bool {
    &&& (post.pgns == pre.pgns)
    &&& (post.transmitter == pre.transmitter)
    &&& (post.last_used_sequence == pre.last_used_sequence)
    &&& (({
        let k = header.pgn.0;
        let sequence = d[0] / 32;
        let item = d[0] % 32;
        if d.len() != 8 {
            post.receiver == pre.receiver && r is None
        } else if item == 0 {
            let size = d[1];
            let first = d.subrange(2, 8).take(if size < 6 { size as int } else { 6 });
            if pre.receiver@.contains_key(k) {
                post.receiver@ == pre.receiver@ && r is None
            } else if first.len() == size {
                &&& post.receiver@ == pre.receiver@
                &&& r matches Some(f) && f@ == (header, first)
            } else {
                &&& post.receiver@.dom() == pre.receiver@.dom().insert(k)
                &&& forall|j: u32| j != k && #[trigger] pre.receiver@.contains_key(j)
                    ==> post.receiver@[j] == pre.receiver@[j]
                &&& post.receiver@[k].data@ == first
                &&& post.receiver@[k].expected_bytes == size
                &&& post.receiver@[k].sequence == sequence
                &&& r is None
            }
        } else if !pre.receiver@.contains_key(k) || pre.receiver@[k].sequence != sequence {
            post.receiver@ == pre.receiver@ && r is None
        } else {
            let rx = pre.receiver@[k];
            let acc = rx_accept(rx.data@, rx.expected_bytes as nat, d.subrange(1, 8));
            if acc.len() == rx.expected_bytes {
                &&& post.receiver@ == pre.receiver@.remove(k)
                &&& r matches Some(f) && f@ == (header, acc)
            } else {
                &&& post.receiver@.dom() == pre.receiver@.dom()
                &&& forall|j: u32| j != k && #[trigger] pre.receiver@.contains_key(j)
                    ==> post.receiver@[j] == pre.receiver@[j]
                &&& post.receiver@[k].data@ == acc
                &&& post.receiver@[k].expected_bytes == rx.expected_bytes
                &&& post.receiver@[k].sequence == rx.sequence
                &&& r is None
            }
        }
    }))
}

/// What starting to send `pdu` by fast packet does to the coder and the outgoing frames.
pub open spec fn fp_send_effect(pre: FastPacketCoder, post: FastPacketCoder, pdu: (Header, Seq<u8>), out0: Seq<Frame>, out1: Seq<Frame>) -> bool {
    &&& (post.pgns == pre.pgns)
    &&& (post.receiver == pre.receiver)
    &&& (({
        let k = pdu.0.pgn.0;
        let sequence = if pre.last_used_sequence@.contains_key(k) {
            pre.last_used_sequence@[k]
        } else {
            0u8
        };
        if exists|i: int| 0 <= i < pre.transmitter@.len()
            && (#[trigger] pre.transmitter@[i]).frame@.0.pgn == pdu.0.pgn {
            &&& post.transmitter == pre.transmitter
            &&& post.last_used_sequence == pre.last_used_sequence
            &&& out1 == out0
        } else {
            &&& appended(out0, out1, seq![fp_first_frame(pdu.0, sequence, pdu.1)])
            &&& post.last_used_sequence@ == pre.last_used_sequence@.insert(k, ((sequence + 1) % 8) as u8)
            &&& post.transmitter@.map_values(|t: FpTransmitter| fp_view(t)) == if pdu.1.len() > 6 {
                pre.transmitter@.map_values(|t: FpTransmitter| fp_view(t)).push((pdu.0, pdu.1, 0u8, sequence))
            } else {
                pre.transmitter@.map_values(|t: FpTransmitter| fp_view(t))
            }
        }
    }))
}

/// What one tick of the outgoing fast-packet messages does to the coder and the outgoing frames.
pub open spec fn fp_tick_effect(pre: FastPacketCoder, post: FastPacketCoder, out0: Seq<Frame>, out1: Seq<Frame>) -> bool {
    &&& (post.pgns == pre.pgns)
    &&& (post.receiver == pre.receiver)
    &&& (post.last_used_sequence == pre.last_used_sequence)
    &&& (appended(out0, out1, fp_tick_frames(pre.transmitter@)))
    &&& (post.transmitter@.map_values(|t: FpTransmitter| fp_view(t)) == fp_tick_rest(pre.transmitter@))
}

impl FastPacketCoder {
    /// Invariant: every transmitter has more to send and counters in range.
    pub open spec fn wf(&self) -> bool {
        &&& forall|k: u32| #[trigger] self.receiver@.contains_key(k)
            ==> self.receiver@[k].data@.len() < self.receiver@[k].expected_bytes
        &&& forall|i: int| 0 <= i < self.transmitter@.len() ==> {
            let t = #[trigger] self.transmitter@[i];
            &&& t.frame@.1.len() <= FP_MAX_SIZE
            &&& 6 + t.item * 7 < t.frame@.1.len()
            &&& t.sequence < 8
        }
        &&& forall|k: u32| #[trigger] self.last_used_sequence@.contains_key(k)
            ==> self.last_used_sequence@[k] < 8
    }

    /// A coder for the fast-packet PGNs `pgns`
    pub fn new(pgns: &[PGN]) -> (r: Self)
        ensures
            r.wf(),
            r.pgns@ == pgns@,
            r.receiver@ == Map::<u32, FpReceiver>::empty(),
            r.transmitter@ == Seq::<FpTransmitter>::empty(),
            r.last_used_sequence@ == Map::<u32, u8>::empty(),
    {
        let mut v: Vec<PGN> = Vec::new();
        let mut i: usize = 0;
        while i < pgns.len()
            invariant
                i <= pgns@.len(),
                v@ == pgns@.take(i as int),
            decreases pgns@.len() - i,
        {
            v.push(pgns[i]);
            i = i + 1;
            assert(v@ =~= pgns@.take(i as int));
        }
        assert(pgns@.take(pgns@.len() as int) =~= pgns@);
        FastPacketCoder {
            pgns: v,
            receiver: BTreeMap::new(),
            transmitter: Vec::new(),
            last_used_sequence: BTreeMap::new(),
        }
    }

    /// Whether `pgn` is one of the fast-packet PGNs
    pub fn is_fastpacket(&self, pgn: &PGN) -> (r: bool)
        ensures
            r == self.pgns@.contains(*pgn),
    {
        let mut i: usize = 0;
        while i < self.pgns.len()
            invariant
                i <= self.pgns@.len(),
                forall|j: int| 0 <= j < i ==> self.pgns@[j] != *pgn,
            decreases self.pgns@.len() - i,
        {
            if self.pgns[i].0 == pgn.0 {
                return true;
            }
            i = i + 1;
        }
        false
    }

    /// Handles one frame of a fast-packet PGN and returns the message that it completes
    pub fn handle_frame(&mut self, header: Header, data: &[u8]) -> (r: Option<Frame>)
        requires
            old(self).wf(),
        ensures
            final(self).wf(),
            fp_rx_effect(*old(self), *final(self), header, data@, r),
    {
        if data.len() != 8 {
            return None;
        }
        let k = header.pgn.0;
        let sequence = data[0] / 32;
        let item = data[0] % 32;
        if item == 0 {
            if self.receiver.contains_key(&k) {
                return None;
            }
            let size = data[1];
            let n: usize = if size < 6 { size as usize } else { 6 };
            let mut bytes: Vec<u8> = Vec::new();
            let mut j: usize = 0;
            while j < n
                invariant
                    n <= 6,
                    data@.len() == 8,
                    j <= n,
                    bytes@ == data@.subrange(2, 8).take(j as int),
                decreases n - j,
            {
                bytes.push(data[2 + j]);
                j = j + 1;
                assert(bytes@ =~= data@.subrange(2, 8).take(j as int));
            }
            if bytes.len() == size as usize {
                return Some(Frame::new(header, bytes.as_slice()));
            }
            self.receiver.insert(k, FpReceiver { expected_bytes: size, sequence, data: bytes });
            None
        } else {
            let matches = match self.receiver.get(&k) {
                Some(rx) => rx.sequence == sequence,
                None => false,
            };
            if !matches {
                return None;
            }
            let rx = match self.receiver.remove(&k) {
                Some(rx) => rx,
                None => {
                    return None;
                },
            };
            let FpReceiver { expected_bytes, sequence: rx_sequence, data: mut bytes } = rx;
            let missing = expected_bytes as usize - bytes.len();
            let n: usize = if missing < 7 { missing } else { 7 };
            let ghost before = bytes@;
            let mut j: usize = 0;
            while j < n
                invariant
                    n <= 7,
                    n == (if missing < 7 { missing } else { 7 }),
                    missing == expected_bytes - before.len(),
                    data@.len() == 8,
                    j <= n,
                    bytes@ == before + data@.subrange(1, 8).take(j as int),
                decreases n - j,
            {
                bytes.push(data[1 + j]);
                j = j + 1;
                assert(bytes@ =~= before + data@.subrange(1, 8).take(j as int));
            }
            if bytes.len() >= expected_bytes as usize {
                Some(Frame::new(header, bytes.as_slice()))
            } else {
                self.receiver.insert(k, FpReceiver { expected_bytes, sequence: rx_sequence, data: bytes });
                None
            }
        }
    }
    fn is_sending(&self, pgn: u32) -> (r: bool)
        ensures
            r == exists|i: int| 0 <= i < self.transmitter@.len()
                && (#[trigger] self.transmitter@[i]).frame@.0.pgn == PGN(pgn),
    {
        let mut i: usize = 0;
        while i < self.transmitter.len()
            invariant
                i <= self.transmitter@.len(),
                forall|j: int| 0 <= j < i ==> (#[trigger] self.transmitter@[j]).frame@.0.pgn != PGN(pgn),
            decreases self.transmitter@.len() - i,
        {
            if self.transmitter[i].frame.header().pgn.0 == pgn {
                return true;
            }
            i = i + 1;
        }
        false
    }

    /// Starts sending `pdu`: its first frame goes out at once with the PGN's
    /// next sequence counter, which then advances (modulo 8). Nothing happens
    /// while a message on the same PGN is still going out.
    pub fn send_frame(&mut self, pdu: Frame, out: &mut Vec<Frame>)
        requires
            old(self).wf(),
            pdu@.1.len() <= FP_MAX_SIZE,
        ensures
            all_short(old(out)@) ==> all_short(final(out)@),
            final(self).wf(),
            fp_send_effect(*old(self), *final(self), pdu@, old(out)@, final(out)@),
    {
        let k = pdu.header().pgn.0;
        if self.is_sending(k) {
            return;
        }
        let sequence: u8 = match self.last_used_sequence.get(&k) {
            Some(s) => *s,
            None => 0,
        };
        let d = pdu.data();
        let len = d.len();
        let mut bytes: [u8; 8] = [0xFF; 8];
        bytes[0] = sequence * 32;
        bytes[1] = len as u8;
        let mut j: usize = 0;
        while j < 6
            invariant
                j <= 6,
                d@ == pdu@.1,
                len == d@.len(),
                bytes@.len() == 8,
                bytes@[0] == (sequence * 32) as u8,
                bytes@[1] == len as u8,
                forall|m: int| 2 <= m < 2 + j ==> bytes@[m] == fp_first_payload(d@)[m - 2],
                forall|m: int| 2 + j <= m < 8 ==> bytes@[m] == 0xFFu8,
            decreases 6 - j,
        {
            if j < len {
                bytes[2 + j] = d[j];
            }
            j = j + 1;
        }
        assert(bytes@ =~= fp_first_frame(pdu@.0, sequence, pdu@.1).1);
        send(out, Frame::new(*pdu.header(), &bytes));
        self.last_used_sequence.insert(k, (sequence + 1) % 8);
        let ghost before = self.transmitter@;
        if len > 6 {
            self.transmitter.push(FpTransmitter { frame: pdu, item: 0, sequence });
            assert(self.transmitter@.map_values(|t: FpTransmitter| fp_view(t))
                =~= before.map_values(|t: FpTransmitter| fp_view(t)).push((pdu@.0, pdu@.1, 0u8, sequence)));
        }
    }

    /// Sends the next frame of every outgoing message and drops the messages
    /// that this finishes
    pub fn process_out_transfers(&mut self, out: &mut Vec<Frame>)
        requires
            old(self).wf(),
        ensures
            all_short(old(out)@) ==> all_short(final(out)@),
            final(self).wf(),
            fp_tick_effect(*old(self), *final(self), old(out)@, final(out)@),
    {
        let ghost out0 = out@;
        let ghost txs = self.transmitter@;
        let n0 = self.transmitter.len();
        let mut pending: Vec<FpTransmitter> = Vec::new();
        std::mem::swap(&mut pending, &mut self.transmitter);
        let mut i: usize = 0;
        proof {
            lemma_appended_none(out0);
            assert(txs.take(0) =~= Seq::<FpTransmitter>::empty());
            assert(self.transmitter@.map_values(|t: FpTransmitter| fp_view(t)) =~= fp_tick_rest(txs.take(0)));
            assert(pending@ =~= txs.skip(0));
        }
        while pending.len() > 0
            invariant
                i <= txs.len(),
                txs.len() == pending@.len() + i,
                txs.len() == n0,
                pending@ == txs.skip(i as int),
                forall|j: int| 0 <= j < txs.len() ==> {
                    let t = #[trigger] txs[j];
                    &&& t.frame@.1.len() <= FP_MAX_SIZE
                    &&& 6 + t.item * 7 < t.frame@.1.len()
                    &&& t.sequence < 8
                },
                forall|j: int| 0 <= j < self.transmitter@.len() ==> {
                    let t = #[trigger] self.transmitter@[j];
                    &&& t.frame@.1.len() <= FP_MAX_SIZE
                    &&& 6 + t.item * 7 < t.frame@.1.len()
                    &&& t.sequence < 8
                },
                self.pgns == old(self).pgns,
                self.receiver == old(self).receiver,
                self.last_used_sequence == old(self).last_used_sequence,
                self.transmitter@.map_values(|t: FpTransmitter| fp_view(t)) == fp_tick_rest(txs.take(i as int)),
                appended(out0, out@, fp_tick_frames(txs.take(i as int))),
                all_short(old(out)@) ==> all_short(out@),
            decreases pending@.len(),
        {
            let ghost out_before = out@;
            let ghost kept_before = self.transmitter@;
            let t = pending.remove(0);
            proof {
                assert(t == txs[i as int]);
                assert(txs.take(i + 1).drop_last() =~= txs.take(i as int));
                assert(txs.take(i + 1).last() == t);
                assert(pending@ =~= txs.skip(i + 1));
            }
            let FpTransmitter { frame, item, sequence } = t;
            let next = item + 1;
            let d = frame.data();
            let len = d.len();
            let start = 6 + item as usize * 7;
            let mut bytes: [u8; 8] = [0xFF; 8];
            bytes[0] = sequence * 32 + next;
            let mut j: usize = 0;
            while j < 7
                invariant
                    j <= 7,
                    start == 6 + item * 7,
                    start < len,
                    len <= FP_MAX_SIZE,
                    d@ == frame@.1,
                    len == d@.len(),
                    next == item + 1,
                    bytes@.len() == 8,
                    bytes@[0] == (sequence * 32 + next) as u8,
                    forall|m: int| 1 <= m < 1 + j ==> bytes@[m] == fp_payload(d@, next as int)[m - 1],
                    forall|m: int| 1 + j <= m < 8 ==> bytes@[m] == 0xFFu8,
                decreases 7 - j,
            {
                if start + j < len {
                    bytes[1 + j] = d[start + j];
                }
                j = j + 1;
            }
            assert(bytes@ =~= fp_item_frame(frame@.0, sequence, next as int, frame@.1).1);
            send(out, Frame::new(*frame.header(), &bytes));
            let continues = start + 7 < len;
            if continues {
                self.transmitter.push(FpTransmitter { frame, item: next, sequence });
                proof {
                    assert(self.transmitter@.map_values(|t: FpTransmitter| fp_view(t))
                        =~= kept_before.map_values(|t: FpTransmitter| fp_view(t)).push(fp_view(self.transmitter@.last())));
                }
            }
            proof {
                lemma_appended_trans(out0, out_before, out@, fp_tick_frames(txs.take(i as int)),
                    seq![fp_item_frame(t.frame@.0, t.sequence, t.item + 1, t.frame@.1)]);
            }
            i = i + 1;
        }
        proof {
            assert(txs.take(i as int) =~= txs);
        }
    }
}

/// Number of follow-on frames of a message of `len` bytes.
pub open spec fn fp_item_count(len: nat) -> nat {
    if len <= 6 { 0 } else { ((len - 6 + 6) / 7) as nat }
}

/// What a receiver holds after the first frame and `k` follow-on frames of `s`.
pub open spec fn fp_reassembled(s: Seq<u8>, k: nat) -> Seq<u8>
    decreases k,
{
    if k == 0 {
        fp_first_payload(s).take(if s.len() < 6 { s.len() as int } else { 6 })
    } else {
        rx_accept(fp_reassembled(s, (k - 1) as nat), s.len(), fp_payload(s, k as int))
    }
}

proof fn lemma_fp_prefix(s: Seq<u8>, k: nat)
    requires
        k == 0 || 6 + 7 * (k - 1) < s.len(),
    ensures
        fp_reassembled(s, k) == s.take(if 6 + 7 * k < s.len() { 6 + 7 * k as int } else { s.len() as int }),
    decreases k,
{
    if k == 0 {
        let m = if s.len() < 6 { s.len() as int } else { 6 };
        assert(fp_first_payload(s).take(m) =~= s.take(m));
    } else {
        let prev = (k - 1) as nat;
        lemma_fp_prefix(s, prev);
        let before = fp_reassembled(s, prev);
        let start = 6 + 7 * prev as int;
        assert(before == s.take(start));
        let missing = s.len() - before.len();
        let m = if missing < 7 { missing } else { 7 };
        let payload = fp_payload(s, k as int);
        let end = if 6 + 7 * k < s.len() { 6 + 7 * k as int } else { s.len() as int };
        assert(end == start + m);
        assert(before + payload.take(m) =~= s.take(end)) by {
            assert forall|j: int| 0 <= j < end implies #[trigger] (before + payload.take(m))[j] == s.take(end)[j] by {
                if j >= start {
                    assert(payload[j - start] == s[6 + (k - 1) * 7 + (j - start)]);
                }
            }
        }
    }
}

/// A fast-packet message of up to 223 bytes arrives whole: the first frame's
/// control byte has item 0 and the sender's sequence, its second byte is the
/// size, each follow-on frame `k` carries item `k` and the same sequence; a
/// receiver that takes the first frame and then the follow-on frames in order
/// stays short of the size until the last one and then holds exactly `s`.
pub proof fn lemma_fast_packet_round_trip(h: Header, sequence: u8, s: Seq<u8>)
    requires
        s.len() <= FP_MAX_SIZE,
        sequence < 8,
    ensures
        fp_first_frame(h, sequence, s).1[0] / 32 == sequence,
        fp_first_frame(h, sequence, s).1[0] % 32 == 0,
        fp_first_frame(h, sequence, s).1[1] == s.len(),
        forall|k: int| 1 <= k <= fp_item_count(s.len()) ==> {
            &&& #[trigger] fp_item_frame(h, sequence, k, s).1[0] / 32 == sequence
            &&& fp_item_frame(h, sequence, k, s).1[0] % 32 == k
            &&& fp_item_frame(h, sequence, k, s).1.subrange(1, 8) == fp_payload(s, k)
        },
        forall|k: nat| k < fp_item_count(s.len()) ==> #[trigger] fp_reassembled(s, k).len() < s.len(),
        fp_reassembled(s, fp_item_count(s.len())) == s,
{
    let n = fp_item_count(s.len());
    assert(n <= 31);
    assert forall|k: int| 1 <= k <= n implies {
        &&& #[trigger] fp_item_frame(h, sequence, k, s).1[0] / 32 == sequence
        &&& fp_item_frame(h, sequence, k, s).1[0] % 32 == k
        &&& fp_item_frame(h, sequence, k, s).1.subrange(1, 8) == fp_payload(s, k)
    } by {
        assert(fp_item_frame(h, sequence, k, s).1.subrange(1, 8) =~= fp_payload(s, k));
    }
    assert forall|k: nat| k < n implies #[trigger] fp_reassembled(s, k).len() < s.len() by {
        lemma_fp_prefix(s, k);
    }
    lemma_fp_prefix(s, n);
    assert(s.take(s.len() as int) =~= s);
}

proof fn lemma_fp_first(h: Header, q: u8, s: Seq<u8>, pre: FastPacketCoder, post: FastPacketCoder, r: Option<Frame>)
    requires
        s.len() <= FP_MAX_SIZE,
        q < 8,
        !pre.receiver@.contains_key(h.pgn.0),
        fp_rx_effect(pre, post, h, fp_first_frame(h, q, s).1, r),
    ensures
        fp_item_count(s.len()) == 0 ==> (r matches Some(f) && f@ == (h, s)),
        fp_item_count(s.len()) > 0 ==> {
            &&& r is None
            &&& post.receiver@.contains_key(h.pgn.0)
            &&& post.receiver@[h.pgn.0].data@ == fp_reassembled(s, 0)
            &&& post.receiver@[h.pgn.0].expected_bytes == s.len()
            &&& post.receiver@[h.pgn.0].sequence == q
        },
{
    lemma_fast_packet_round_trip(h, q, s);
    let first = fp_first_frame(h, q, s).1;
    assert(first.subrange(2, 8) =~= fp_first_payload(s));
    if fp_item_count(s.len()) == 0 {
        assert(fp_reassembled(s, 0) =~= s);
    }
}

proof fn lemma_fp_step(
    h: Header,
    q: u8,
    s: Seq<u8>,
    k: nat,
    pre: FastPacketCoder,
    post: FastPacketCoder,
    r: Option<Frame>,
)
    requires
        s.len() <= FP_MAX_SIZE,
        q < 8,
        1 <= k <= fp_item_count(s.len()),
        pre.receiver@.contains_key(h.pgn.0),
        pre.receiver@[h.pgn.0].data@ == fp_reassembled(s, (k - 1) as nat),
        pre.receiver@[h.pgn.0].expected_bytes == s.len(),
        pre.receiver@[h.pgn.0].sequence == q,
        fp_rx_effect(pre, post, h, fp_item_frame(h, q, k as int, s).1, r),
    ensures
        k == fp_item_count(s.len()) ==> (r matches Some(f) && f@ == (h, s)),
        k < fp_item_count(s.len()) ==> {
            &&& r is None
            &&& post.receiver@.contains_key(h.pgn.0)
            &&& post.receiver@[h.pgn.0].data@ == fp_reassembled(s, k)
            &&& post.receiver@[h.pgn.0].expected_bytes == s.len()
            &&& post.receiver@[h.pgn.0].sequence == q
        },
{
    lemma_fast_packet_round_trip(h, q, s);
    let d = fp_item_frame(h, q, k as int, s).1;
    assert(d.subrange(1, 8) == fp_payload(s, k as int));
    assert(fp_reassembled(s, k) == rx_accept(fp_reassembled(s, (k - 1) as nat), s.len(), fp_payload(s, k as int)));
}

proof fn lemma_fp_receiving(
    h: Header,
    q: u8,
    s: Seq<u8>,
    coders: Seq<FastPacketCoder>,
    rs: Seq<Option<Frame>>,
    k: nat,
)
    requires
        s.len() <= FP_MAX_SIZE,
        q < 8,
        coders.len() == fp_item_count(s.len()) + 2,
        rs.len() == fp_item_count(s.len()) + 1,
        !coders[0].receiver@.contains_key(h.pgn.0),
        fp_rx_effect(coders[0], coders[1], h, fp_first_frame(h, q, s).1, rs[0]),
        forall|j: int| 1 <= j <= fp_item_count(s.len()) ==> fp_rx_effect(
            #[trigger] coders[j],
            coders[j + 1],
            h,
            fp_item_frame(h, q, j, s).1,
            rs[j],
        ),
        k < fp_item_count(s.len()),
    ensures
        forall|j: int| 0 <= j <= k ==> rs[j] is None,
        coders[k + 1int].receiver@.contains_key(h.pgn.0),
        coders[k + 1int].receiver@[h.pgn.0].data@ == fp_reassembled(s, k),
        coders[k + 1int].receiver@[h.pgn.0].expected_bytes == s.len(),
        coders[k + 1int].receiver@[h.pgn.0].sequence == q,
    decreases k,
{
    if k == 0 {
        lemma_fp_first(h, q, s, coders[0], coders[1], rs[0]);
    } else {
        lemma_fp_receiving(h, q, s, coders, rs, (k - 1) as nat);
        lemma_fp_step(h, q, s, k, coders[k as int], coders[k + 1int], rs[k as int]);
    }
}

/// A fast-packet message of up to 223 bytes arrives whole at a receiving
/// coder: fed the sender's first frame and then its follow-on frames in
/// order, with no reassembly open on the PGN at the start, the coder
/// completes nothing before the last frame and then delivers exactly `s`
/// under the frames' header.
pub proof fn lemma_fast_packet_delivered(
    h: Header,
    q: u8,
    s: Seq<u8>,
    coders: Seq<FastPacketCoder>,
    rs: Seq<Option<Frame>>,
)
    requires
        s.len() <= FP_MAX_SIZE,
        q < 8,
        coders.len() == fp_item_count(s.len()) + 2,
        rs.len() == fp_item_count(s.len()) + 1,
        !coders[0].receiver@.contains_key(h.pgn.0),
        fp_rx_effect(coders[0], coders[1], h, fp_first_frame(h, q, s).1, rs[0]),
        forall|j: int| 1 <= j <= fp_item_count(s.len()) ==> fp_rx_effect(
            #[trigger] coders[j],
            coders[j + 1],
            h,
            fp_item_frame(h, q, j, s).1,
            rs[j],
        ),
    ensures
        forall|j: int| 0 <= j < fp_item_count(s.len()) ==> rs[j] is None,
        rs.last() matches Some(f) && f@ == (h, s),
{
    let n = fp_item_count(s.len());
    if n == 0 {
        lemma_fp_first(h, q, s, coders[0], coders[1], rs[0]);
    } else {
        lemma_fp_receiving(h, q, s, coders, rs, (n - 1) as nat);
        lemma_fp_step(h, q, s, n, coders[n as int], coders[n + 1int], rs[n as int]);
    }
}

} // verus!
