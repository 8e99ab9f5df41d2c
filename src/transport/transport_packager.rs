use crate::frame::{all_short, appended, lemma_appended_none, lemma_appended_push, lemma_appended_trans, Frame, Header, PGN};
use crate::transport::tp_frames::{tpcm_frame, tpdt_frame, AbortReason, TPCM, TPDT};
use std::collections::BTreeMap;
use vstd::arithmetic::div_mod::lemma_mod_add_multiples_vanish;
use vstd::prelude::*;

verus! {

/// Largest payload of the transport protocol: 255 packets of 7 bytes.
pub const TP_MAX_SIZE: usize = 1785;

/// Reassembly of a broadcast announced by BAM
pub struct BroadcastReceiver {
    /// bytes received so far
    pub data: Vec<u8>,
    /// announced total size
    pub size: u16,
    /// announced PGN
    pub pgn: PGN,
    /// sequence number of the last packet received
    pub last_packet_index: u8,
}

/// Outgoing broadcast, one packet per tick
pub struct BroadcastSender {
    /// the frame being sent
    pub pdu: Frame,
    /// number of packets sent so far
    pub last_packet_index: u8,
    /// number of packets in all
    pub packet_count: u8,
}

/// Reassembly of a peer-to-peer transfer announced by RTS
pub struct P2PReceiver {
    /// bytes received so far
    pub data: Vec<u8>,
    /// announced total size
    pub size: u16,
    /// announced PGN
    pub pgn: PGN,
    /// packets to request with each CTS
    pub max_packets_per_cts: u8,
    /// sequence number of the last packet received
    pub last_packet_index: u8,
    /// last packet number covered by the CTS sent so far
    pub last_requested_index: u8,
}

/// Outgoing peer-to-peer transfer, paced by the receiver's CTS
pub struct P2PSender {
    /// the frame being sent
    pub pdu: Frame,
    /// number of packets sent so far
    pub last_packet_index: u8,
    /// packets may be sent while fewer than this many were sent
    pub send_till_index: u8,
}

/// State of the J1939 transport protocol sessions
pub struct TransportPackager {
    /// broadcast reassembly, by source address
    pub in_broadcast: BTreeMap<u8, BroadcastReceiver>,
    /// the single outgoing broadcast
    pub out_broadcast: Option<BroadcastSender>,
    /// peer-to-peer reassembly, by `pair_key(remote, local)`
    pub in_p2p: BTreeMap<u16, P2PReceiver>,
    /// outgoing peer-to-peer transfers, at most one per (source, destination)
    pub out_p2p: Vec<P2PSender>,
}

/// Map key of a pair of addresses.
pub open spec fn pair_key(remote: u8, local: u8) -> u16 {
    (remote as u16 * 256 + local as u16) as u16
}

/// Number of 7-byte packets for `len` bytes.
pub open spec fn packet_count(len: nat) -> nat {
    (len + 6) / 7
}

/// The seven payload bytes of packet `i` (from 0) of `data`, padded with 0xFF.
pub open spec fn packet_payload(data: Seq<u8>, i: int) -> Seq<u8> {
    Seq::new(7, |j: int| if i * 7 + j < data.len() { data[i * 7 + j] } else { 0xFFu8 })
}

/// A receiver's bytes after a packet with `payload`: as much of it as the size still allows.
pub open spec fn rx_accept(data: Seq<u8>, size: nat, payload: Seq<u8>) -> Seq<u8> {
    let missing = size - data.len();
    data + payload.take(if missing < 7 { missing } else { 7 })
}

/// The window end that a CTS asking for `k` packets from packet `n` sets: the
/// last packet it clears, `(n - 1) + k`. Packet numbers are single bytes, so
/// a window that would reach past packet 255 ends there.
pub open spec fn cts_till(n: u8, k: u8) -> u8 {
    if n - 1 + k <= 255 { (n - 1 + k) as u8 } else { 255 }
}

/// The CTS pacing of a receiver asking for `m` packets at a time: the last
/// CTS covered packets up to `requested`, the greatest multiple of `m` not
/// above the `last` packet received (none when `m` is 0).
pub open spec fn cts_paced(m: u8, requested: u8, last: u8) -> bool {
    if m == 0 {
        requested == 0
    } else {
        requested <= last < requested + m && requested % m == 0
    }
}

/// The senders as frame, packets sent, and window end.
pub open spec fn sender_views(s: Seq<P2PSender>) -> Seq<((Header, Seq<u8>), u8, u8)> {
    s.map_values(|t: P2PSender| (t.pdu@, t.last_packet_index, t.send_till_index))
}

/// Whether a sender may send a packet: the receiver cleared it and the
/// message still has it.
pub open spec fn sender_active(s: P2PSender) -> bool {
    s.last_packet_index < s.send_till_index && s.last_packet_index < packet_count(s.pdu@.1.len())
}

/// The (source, destination) of an outgoing peer-to-peer transfer.
pub open spec fn sender_key(s: P2PSender) -> (u8, u8) {
    (s.pdu@.0.source_address, s.pdu@.0.destination_address->Some_0)
}

/// Queues one frame for the bus.
pub fn send(out: &mut Vec<Frame>, f: Frame)
    requires
        f@.1.len() <= 8,
    ensures
        appended(old(out)@, final(out)@, seq![f@]),
        all_short(old(out)@) ==> all_short(final(out)@),
{
    proof {
        lemma_appended_push(old(out)@, f);
    }
    out.push(f);
}

fn key_of(remote: u8, local: u8) -> (r: u16)
    ensures
        r == pair_key(remote, local),
{
    remote as u16 * 256 + local as u16
}

/// What handling the control message `tpcm` does to the sessions `pre`, giving `post`, and to the outgoing frames `out0`, giving `out1`.
pub open spec fn tpcm_effect(pre: TransportPackager, post: TransportPackager, tpcm: TPCM, out0: Seq<Frame>, out1: Seq<Frame>) -> bool {
    &&& (match tpcm {
        TPCM::Rts { message_size, max_packets_per_cts, pgn, remote_address, local_address, .. } => {
            let k = pair_key(remote_address, local_address);
            &&& post.in_broadcast == pre.in_broadcast
            &&& post.out_broadcast == pre.out_broadcast
            &&& post.out_p2p == pre.out_p2p
            &&& if pre.in_p2p@.contains_key(k) {
                &&& post.in_p2p@ == pre.in_p2p@
                &&& appended(out0, out1, seq![tpcm_frame(TPCM::Abort {
                    abort_reason: AbortReason::AlreadyConnected, pgn, remote_address, local_address })])
            } else {
                &&& post.in_p2p@.dom() == pre.in_p2p@.dom().insert(k)
                &&& forall|j: u16| j != k && #[trigger] pre.in_p2p@.contains_key(j)
                    ==> post.in_p2p@[j] == pre.in_p2p@[j]
                &&& post.in_p2p@[k].data@ == Seq::<u8>::empty()
                &&& post.in_p2p@[k].size == message_size
                &&& post.in_p2p@[k].pgn == pgn
                &&& post.in_p2p@[k].max_packets_per_cts == max_packets_per_cts
                &&& post.in_p2p@[k].last_packet_index == 0
                &&& post.in_p2p@[k].last_requested_index == 0
                &&& appended(out0, out1, seq![tpcm_frame(TPCM::Cts {
                    expected_packets: max_packets_per_cts, next_packet_number: 1, pgn, remote_address, local_address })])
            }
        },
        TPCM::Cts { expected_packets, next_packet_number, remote_address, local_address, .. } => {
            &&& post.in_broadcast == pre.in_broadcast
            &&& post.out_broadcast == pre.out_broadcast
            &&& post.in_p2p == pre.in_p2p
            &&& out1 == out0
            &&& post.out_p2p@.len() == pre.out_p2p@.len()
            &&& forall|i: int| 0 <= i < pre.out_p2p@.len() ==> {
                let s = #[trigger] pre.out_p2p@[i];
                let t = post.out_p2p@[i];
                if sender_key(s) == (local_address, remote_address) && next_packet_number >= 1 {
                    &&& t.pdu == s.pdu
                    &&& t.last_packet_index == next_packet_number - 1
                    &&& t.send_till_index == cts_till(next_packet_number, expected_packets)
                } else {
                    t == s
                }
            }
        },
        TPCM::EndOfMsg { remote_address, local_address, .. } => {
            &&& post.in_broadcast == pre.in_broadcast
            &&& post.out_broadcast == pre.out_broadcast
            &&& post.in_p2p == pre.in_p2p
            &&& out1 == out0
            &&& (forall|i: int| 0 <= i < pre.out_p2p@.len()
                && sender_key(#[trigger] pre.out_p2p@[i]) == (local_address, remote_address)
                ==> post.out_p2p@ == pre.out_p2p@.remove(i))
            &&& ((forall|i: int| 0 <= i < pre.out_p2p@.len()
                ==> sender_key(#[trigger] pre.out_p2p@[i]) != (local_address, remote_address))
                ==> post.out_p2p == pre.out_p2p)
        },
        TPCM::Abort { pgn, remote_address, local_address, .. } => {
            let k = pair_key(remote_address, local_address);
            &&& post.in_broadcast == pre.in_broadcast
            &&& post.out_broadcast == pre.out_broadcast
            &&& out1 == out0
            &&& post.in_p2p@ == if pre.in_p2p@.contains_key(k) && pre.in_p2p@[k].pgn == pgn {
                pre.in_p2p@.remove(k)
            } else {
                pre.in_p2p@
            }
            &&& (forall|i: int| 0 <= i < pre.out_p2p@.len()
                && sender_key(#[trigger] pre.out_p2p@[i]) == (local_address, remote_address)
                ==> post.out_p2p@ == if pre.out_p2p@[i].pdu@.0.pgn == pgn {
                    pre.out_p2p@.remove(i)
                } else {
                    pre.out_p2p@
                })
            &&& ((forall|i: int| 0 <= i < pre.out_p2p@.len()
                ==> sender_key(#[trigger] pre.out_p2p@[i]) != (local_address, remote_address))
                ==> post.out_p2p == pre.out_p2p)
        },
        TPCM::Bam { message_size, pgn, remote_address, .. } => {
            &&& post.in_p2p == pre.in_p2p
            &&& post.out_broadcast == pre.out_broadcast
            &&& post.out_p2p == pre.out_p2p
            &&& out1 == out0
            &&& if pre.in_broadcast@.contains_key(remote_address) {
                post.in_broadcast@ == pre.in_broadcast@
            } else {
                &&& post.in_broadcast@.dom() == pre.in_broadcast@.dom().insert(remote_address)
                &&& forall|j: u8| j != remote_address && #[trigger] pre.in_broadcast@.contains_key(j)
                    ==> post.in_broadcast@[j] == pre.in_broadcast@[j]
                &&& post.in_broadcast@[remote_address].data@ == Seq::<u8>::empty()
                &&& post.in_broadcast@[remote_address].size == message_size
                &&& post.in_broadcast@[remote_address].pgn == pgn
                &&& post.in_broadcast@[remote_address].last_packet_index == 0
            }
        },
    })
}

/// What handling the data packet `tpdt` does to the sessions and the outgoing frames, and the message `r` it completes.
pub open spec fn tpdt_effect(pre: TransportPackager, post: TransportPackager, tpdt: TPDT, out0: Seq<Frame>, out1: Seq<Frame>, r: Option<Frame>) -> bool {
    &&& (post.out_broadcast == pre.out_broadcast)
    &&& (post.out_p2p == pre.out_p2p)
    &&& (tpdt.local_address == 0xFF ==> {
        let sa = tpdt.remote_address;
        &&& post.in_p2p == pre.in_p2p
        &&& out1 == out0
        &&& if !pre.in_broadcast@.contains_key(sa) {
            &&& post.in_broadcast@ == pre.in_broadcast@
            &&& r is None
        } else {
            let rx = pre.in_broadcast@[sa];
            let data = rx_accept(rx.data@, rx.size as nat, tpdt.data@);
            if tpdt.sequence_number != rx.last_packet_index + 1 {
                &&& post.in_broadcast@ == pre.in_broadcast@.remove(sa)
                &&& r is None
            } else if data.len() == rx.size {
                &&& post.in_broadcast@ == pre.in_broadcast@.remove(sa)
                &&& r matches Some(f) && f@ == (Header {
                    pgn: rx.pgn,
                    priority: 0,
                    source_address: sa,
                    destination_address: Some(0xFF),
                }, data)
            } else {
                &&& post.in_broadcast@.dom() == pre.in_broadcast@.dom()
                &&& forall|j: u8| j != sa && #[trigger] pre.in_broadcast@.contains_key(j)
                    ==> post.in_broadcast@[j] == pre.in_broadcast@[j]
                &&& post.in_broadcast@[sa].data@ == data
                &&& post.in_broadcast@[sa].size == rx.size
                &&& post.in_broadcast@[sa].pgn == rx.pgn
                &&& post.in_broadcast@[sa].last_packet_index == tpdt.sequence_number
                &&& r is None
            }
        }
    })
    &&& (tpdt.local_address != 0xFF ==> {
        let k = pair_key(tpdt.remote_address, tpdt.local_address);
        let remote_address = tpdt.remote_address;
        let local_address = tpdt.local_address;
        &&& post.in_broadcast == pre.in_broadcast
        &&& if !pre.in_p2p@.contains_key(k) {
            &&& post.in_p2p@ == pre.in_p2p@
            &&& r is None
            &&& appended(out0, out1, seq![tpcm_frame(TPCM::Abort {
                abort_reason: AbortReason::UnexpectedTransfer, pgn: PGN(0xFFFFFF), remote_address, local_address })])
        } else {
            let rx = pre.in_p2p@[k];
            let data = rx_accept(rx.data@, rx.size as nat, tpdt.data@);
            if tpdt.sequence_number != rx.last_packet_index + 1 {
                &&& post.in_p2p@ == pre.in_p2p@.remove(k)
                &&& r is None
                &&& appended(out0, out1, seq![tpcm_frame(TPCM::Abort {
                    abort_reason: AbortReason::UnexpectedTransfer, pgn: rx.pgn, remote_address, local_address })])
            } else if data.len() == rx.size {
                &&& post.in_p2p@ == pre.in_p2p@.remove(k)
                &&& r matches Some(f) && f@ == (Header {
                    pgn: rx.pgn,
                    priority: 0,
                    source_address: remote_address,
                    destination_address: Some(local_address),
                }, data)
                &&& appended(out0, out1, seq![tpcm_frame(TPCM::EndOfMsg {
                    message_size: rx.size, packet_count: tpdt.sequence_number, pgn: rx.pgn, remote_address, local_address })])
            } else {
                let requested = rx.last_requested_index + rx.max_packets_per_cts == tpdt.sequence_number;
                &&& post.in_p2p@.dom() == pre.in_p2p@.dom()
                &&& forall|j: u16| j != k && #[trigger] pre.in_p2p@.contains_key(j)
                    ==> post.in_p2p@[j] == pre.in_p2p@[j]
                &&& post.in_p2p@[k].data@ == data
                &&& post.in_p2p@[k].size == rx.size
                &&& post.in_p2p@[k].pgn == rx.pgn
                &&& post.in_p2p@[k].max_packets_per_cts == rx.max_packets_per_cts
                &&& post.in_p2p@[k].last_packet_index == tpdt.sequence_number
                &&& r is None
                &&& if requested {
                    &&& post.in_p2p@[k].last_requested_index == tpdt.sequence_number
                    &&& appended(out0, out1, seq![tpcm_frame(TPCM::Cts {
                        expected_packets: rx.max_packets_per_cts,
                        next_packet_number: (tpdt.sequence_number + 1) as u8,
                        pgn: rx.pgn,
                        remote_address,
                        local_address,
                    })])
                } else {
                    &&& post.in_p2p@[k].last_requested_index == rx.last_requested_index
                    &&& out1 == out0
                }
            }
        }
    })
}

/// What starting to send `pdu` does to the sessions and the outgoing frames.
pub open spec fn out_transfer_effect(pre: TransportPackager, post: TransportPackager, pdu: (Header, Seq<u8>), out0: Seq<Frame>, out1: Seq<Frame>) -> bool {
    &&& (post.in_broadcast == pre.in_broadcast)
    &&& (post.in_p2p == pre.in_p2p)
    &&& (({
        let h = pdu.0;
        let size = pdu.1.len();
        let n = packet_count(size);
        if is_broadcast_transfer(h) {
            &&& post.out_p2p == pre.out_p2p
            &&& appended(out0, out1, seq![tpcm_frame(TPCM::Bam {
                message_size: size as u16,
                packet_count: n as u8,
                pgn: h.pgn,
                remote_address: 0xFF,
                local_address: h.source_address,
            })])
            &&& match post.out_broadcast {
                Some(s) => n > 0 && s.pdu@ == pdu && s.last_packet_index == 0 && s.packet_count == n,
                None => n == 0,
            }
        } else {
            let da = h.destination_address->Some_0;
            &&& post.out_broadcast == pre.out_broadcast
            &&& appended(out0, out1, seq![tpcm_frame(TPCM::Rts {
                message_size: size as u16,
                packet_count: n as u8,
                max_packets_per_cts: 1,
                pgn: h.pgn,
                remote_address: da,
                local_address: h.source_address,
            })])
            &&& forall|i: int| 0 <= i < pre.out_p2p@.len() && sender_key(#[trigger] pre.out_p2p@[i]) == (h.source_address, da)
                ==> sender_views(post.out_p2p@) == sender_views(pre.out_p2p@).update(i, (pdu, 0u8, 0u8))
            &&& (forall|i: int| 0 <= i < pre.out_p2p@.len() ==> sender_key(#[trigger] pre.out_p2p@[i]) != (h.source_address, da))
                ==> sender_views(post.out_p2p@) == sender_views(pre.out_p2p@).push((pdu, 0u8, 0u8))
        }
    }))
}

/// What one tick of the outgoing transfers does to the sessions and the outgoing frames.
pub open spec fn tp_tick_effect(pre: TransportPackager, post: TransportPackager, out0: Seq<Frame>, out1: Seq<Frame>) -> bool {
    &&& (post.in_broadcast == pre.in_broadcast)
    &&& (post.in_p2p == pre.in_p2p)
    &&& (match pre.out_broadcast {
        Some(s) => {
            &&& match post.out_broadcast {
                Some(t) => t.pdu == s.pdu && t.packet_count == s.packet_count
                    && t.last_packet_index == s.last_packet_index + 1,
                None => s.last_packet_index + 1 == s.packet_count,
            }
            &&& appended(out0, out1,
                seq![bam_tpdt(s)] + p2p_tick_frames(pre.out_p2p@))
        },
        None => {
            &&& post.out_broadcast is None
            &&& appended(out0, out1, p2p_tick_frames(pre.out_p2p@))
        },
    })
    &&& (post.out_p2p@.len() == pre.out_p2p@.len())
    &&& (forall|i: int| 0 <= i < pre.out_p2p@.len() ==> {
        let s = #[trigger] pre.out_p2p@[i];
        let t = post.out_p2p@[i];
        &&& t.pdu == s.pdu
        &&& t.send_till_index == s.send_till_index
        &&& t.last_packet_index == if sender_active(s) {
            s.last_packet_index + 1
        } else {
            s.last_packet_index as int
        }
    })
}

impl TransportPackager {
    /// Session invariants: reassembly in progress is short of its size (a
    /// session announced with size 0 holds nothing and completes at its first
    /// packet), and each sender sends within its message, at most one per
    /// address pair.
    pub open spec fn wf(&self) -> bool {
        &&& forall|k: u8| #[trigger] self.in_broadcast@.contains_key(k) ==> {
            let rx = self.in_broadcast@[k];
            &&& rx.data@.len() < rx.size || (rx.size == 0 && rx.data@.len() == 0)
            &&& rx.data@.len() == 7 * rx.last_packet_index
        }
        &&& forall|k: u16| #[trigger] self.in_p2p@.contains_key(k) ==> {
            let rx = self.in_p2p@[k];
            &&& rx.data@.len() < rx.size || (rx.size == 0 && rx.data@.len() == 0)
            &&& rx.data@.len() == 7 * rx.last_packet_index
            &&& cts_paced(rx.max_packets_per_cts, rx.last_requested_index, rx.last_packet_index)
        }
        &&& match self.out_broadcast {
            Some(s) => s.pdu@.1.len() <= TP_MAX_SIZE && s.packet_count == packet_count(s.pdu@.1.len())
                && s.last_packet_index < s.packet_count,
            None => true,
        }
        &&& forall|i: int| 0 <= i < self.out_p2p@.len() ==> {
            let s = #[trigger] self.out_p2p@[i];
            &&& s.pdu@.0.destination_address is Some
            &&& s.pdu@.1.len() <= TP_MAX_SIZE
        }
        &&& forall|i: int, j: int| 0 <= i < j < self.out_p2p@.len()
            ==> sender_key(#[trigger] self.out_p2p@[i]) != sender_key(#[trigger] self.out_p2p@[j])
    }

    /// No sessions
    pub fn new() -> (r: Self)
        ensures
            r.wf(),
            r.in_broadcast@ == Map::<u8, BroadcastReceiver>::empty(),
            r.out_broadcast is None,
            r.in_p2p@ == Map::<u16, P2PReceiver>::empty(),
            r.out_p2p@ == Seq::<P2PSender>::empty(),
    {
        TransportPackager {
            in_broadcast: BTreeMap::new(),
            out_broadcast: None,
            in_p2p: BTreeMap::new(),
            out_p2p: Vec::new(),
        }
    }

    fn find_sender(&self, sa: u8, da: u8) -> (r: Option<usize>)
        requires
            self.wf(),
        ensures
            match r {
                Some(i) => i < self.out_p2p@.len() && sender_key(self.out_p2p@[i as int]) == (sa, da),
                None => forall|i: int| 0 <= i < self.out_p2p@.len() ==> sender_key(#[trigger] self.out_p2p@[i]) != (sa, da),
            },
    {
        let mut i: usize = 0;
        while i < self.out_p2p.len()
            invariant
                self.wf(),
                i <= self.out_p2p@.len(),
                forall|j: int| 0 <= j < i ==> sender_key(#[trigger] self.out_p2p@[j]) != (sa, da),
            decreases self.out_p2p@.len() - i,
        {
            let h = self.out_p2p[i].pdu.header();
            let da_i = match h.destination_address {
                Some(d) => d,
                None => 0,
            };
            if h.source_address == sa && da_i == da {
                return Some(i);
            }
            i = i + 1;
        }
        None
    }

    /// Handles a control message received from `remote_address`, sending the
    /// replies that it calls for to `out`
    pub fn process_tpcm(&mut self, tpcm: TPCM, out: &mut Vec<Frame>)
        requires
            old(self).wf(),
        ensures
            all_short(old(out)@) ==> all_short(final(out)@),
            final(self).wf(),
            tpcm_effect(*old(self), *final(self), tpcm, old(out)@, final(out)@),
    {
        match tpcm {
            TPCM::Rts { message_size, packet_count: _, max_packets_per_cts, pgn, remote_address, local_address } => {
                let k = key_of(remote_address, local_address);
                if self.in_p2p.contains_key(&k) {
                    let abort = TPCM::Abort {
                        abort_reason: AbortReason::AlreadyConnected,
                        pgn,
                        remote_address,
                        local_address,
                    };
                    send(out, abort.to_frame());
                } else {
                    self.in_p2p.insert(
                        k,
                        P2PReceiver {
                            data: Vec::new(),
                            size: message_size,
                            pgn,
                            max_packets_per_cts,
                            last_packet_index: 0,
                            last_requested_index: 0,
                        },
                    );
                    let cts = TPCM::Cts {
                        expected_packets: max_packets_per_cts,
                        next_packet_number: 1,
                        pgn,
                        remote_address,
                        local_address,
                    };
                    send(out, cts.to_frame());
                }
            },
            TPCM::Cts { expected_packets, next_packet_number, pgn: _, remote_address, local_address } => {
                match self.find_sender(local_address, remote_address) {
                    Some(i) => {
                        if next_packet_number >= 1 {
                            let last = next_packet_number - 1;
                            let till = if last as u16 + expected_packets as u16 <= 255 {
                                last + expected_packets
                            } else {
                                255
                            };
                            let ghost before = self.out_p2p@;
                            let mut s = self.out_p2p.remove(i);
                            s.last_packet_index = last;
                            s.send_till_index = till;
                            self.out_p2p.insert(i, s);
                            assert forall|a: int, b: int| 0 <= a < b < self.out_p2p@.len()
                                implies sender_key(#[trigger] self.out_p2p@[a]) != sender_key(#[trigger] self.out_p2p@[b]) by {
                                assert(sender_key(self.out_p2p@[a]) == sender_key(before[a]));
                                assert(sender_key(self.out_p2p@[b]) == sender_key(before[b]));
                            }
                        }
                    },
                    None => {},
                }
            },
            TPCM::EndOfMsg { message_size: _, packet_count: _, pgn: _, remote_address, local_address } => {
                match self.find_sender(local_address, remote_address) {
                    Some(i) => {
                        self.out_p2p.remove(i);
                    },
                    None => {},
                }
            },
            TPCM::Abort { abort_reason: _, pgn, remote_address, local_address } => {
                let k = key_of(remote_address, local_address);
                let matches_rx = match self.in_p2p.get(&k) {
                    Some(rx) => rx.pgn.0 == pgn.0,
                    None => false,
                };
                if matches_rx {
                    self.in_p2p.remove(&k);
                }
                match self.find_sender(local_address, remote_address) {
                    Some(i) => {
                        if self.out_p2p[i].pdu.header().pgn.0 == pgn.0 {
                            self.out_p2p.remove(i);
                        }
                    },
                    None => {},
                }
            },
            TPCM::Bam { message_size, packet_count: _, pgn, remote_address, local_address: _ } => {
                if !self.in_broadcast.contains_key(&remote_address) {
                    self.in_broadcast.insert(
                        remote_address,
                        BroadcastReceiver { data: Vec::new(), size: message_size, pgn, last_packet_index: 0 },
                    );
                }
            },
        }
    }
    /// Handles a data packet. A broadcast packet advances the reassembly
    /// from its source, and a peer-to-peer packet the one of its address
    /// pair; a completed reassembly is returned. Replies (CTS, end of
    /// message, abort) go to `out`.
    pub fn process_tpdt(&mut self, tpdt: TPDT, out: &mut Vec<Frame>) -> (r: Option<Frame>)
        requires
            old(self).wf(),
        ensures
            all_short(old(out)@) ==> all_short(final(out)@),
            final(self).wf(),
            tpdt_effect(*old(self), *final(self), tpdt, old(out)@, final(out)@, r),
    {
        let remote_address = tpdt.remote_address;
        let local_address = tpdt.local_address;
        if local_address == 0xFF {
            let rx = match self.in_broadcast.remove(&remote_address) {
                Some(rx) => rx,
                None => {
                    assert(self.in_broadcast@ =~= old(self).in_broadcast@);
                    return None;
                },
            };
            if rx.last_packet_index as u16 + 1 != tpdt.sequence_number as u16 {
                return None;
            }
            let BroadcastReceiver { mut data, size, pgn, last_packet_index: _ } = rx;
            take_into(&mut data, size, &tpdt.data);
            if data.len() == size as usize {
                let header = Header::new(pgn, 0, remote_address, Some(0xFF));
                Some(Frame::new(header, data.as_slice()))
            } else {
                self.in_broadcast.insert(
                    remote_address,
                    BroadcastReceiver { data, size, pgn, last_packet_index: tpdt.sequence_number },
                );
                None
            }
        } else {
            let k = key_of(remote_address, local_address);
            let rx = match self.in_p2p.remove(&k) {
                Some(rx) => rx,
                None => {
                    assert(self.in_p2p@ =~= old(self).in_p2p@);
                    let abort = TPCM::Abort {
                        abort_reason: AbortReason::UnexpectedTransfer,
                        pgn: PGN(0xFFFFFF),
                        remote_address,
                        local_address,
                    };
                    send(out, abort.to_frame());
                    return None;
                },
            };
            if rx.last_packet_index as u16 + 1 != tpdt.sequence_number as u16 {
                let abort = TPCM::Abort {
                    abort_reason: AbortReason::UnexpectedTransfer,
                    pgn: rx.pgn,
                    remote_address,
                    local_address,
                };
                send(out, abort.to_frame());
                return None;
            }
            let P2PReceiver { mut data, size, pgn, max_packets_per_cts, last_packet_index: _, last_requested_index } = rx;
            take_into(&mut data, size, &tpdt.data);
            if data.len() == size as usize {
                let eom = TPCM::EndOfMsg {
                    message_size: size,
                    packet_count: tpdt.sequence_number,
                    pgn,
                    remote_address,
                    local_address,
                };
                send(out, eom.to_frame());
                let header = Header::new(pgn, 0, remote_address, Some(local_address));
                Some(Frame::new(header, data.as_slice()))
            } else {
                let requested = last_requested_index as u16 + max_packets_per_cts as u16 == tpdt.sequence_number as u16;
                let mut new_requested = last_requested_index;
                proof {
                    if max_packets_per_cts > 0 {
                        lemma_mod_add_multiples_vanish(last_requested_index as int, max_packets_per_cts as int);
                    }
                }
                if requested {
                    new_requested = tpdt.sequence_number;
                    let cts = TPCM::Cts {
                        expected_packets: max_packets_per_cts,
                        next_packet_number: (tpdt.sequence_number as u16 + 1) as u8,
                        pgn,
                        remote_address,
                        local_address,
                    };
                    send(out, cts.to_frame());
                }
                self.in_p2p.insert(
                    k,
                    P2PReceiver {
                        data,
                        size,
                        pgn,
                        max_packets_per_cts,
                        last_packet_index: tpdt.sequence_number,
                        last_requested_index: new_requested,
                    },
                );
                None
            }
        }
    }
    /// Starts sending `pdu` over the transport protocol: a broadcast (PGN
    /// broadcast, or destination absent or global) is announced by BAM and
    /// takes the single broadcast slot; otherwise an RTS asking for one packet
    /// per CTS is sent and the transfer replaces any other to the same peer.
    pub fn new_out_transfer(&mut self, pdu: Frame, out: &mut Vec<Frame>)
        requires
            old(self).wf(),
            pdu@.1.len() <= TP_MAX_SIZE,
        ensures
            all_short(old(out)@) ==> all_short(final(out)@),
            final(self).wf(),
            out_transfer_effect(*old(self), *final(self), pdu@, old(out)@, final(out)@),
    {
        let h = *pdu.header();
        let size = pdu.data().len();
        let n = packet_count_of(size);
        proof {
            assert(n <= 255) by {
                assert((size + 6) / 7 <= 255);
            }
        }
        let broadcast = h.pgn.is_broadcast() || match h.destination_address {
            Some(da) => da == 0xFF,
            None => true,
        };
        if broadcast {
            let bam = TPCM::Bam {
                message_size: size as u16,
                packet_count: n as u8,
                pgn: h.pgn,
                remote_address: 0xFF,
                local_address: h.source_address,
            };
            send(out, bam.to_frame());
            if n > 0 {
                self.out_broadcast = Some(BroadcastSender { pdu, last_packet_index: 0, packet_count: n as u8 });
            } else {
                self.out_broadcast = None;
            }
        } else {
            let da = match h.destination_address {
                Some(da) => da,
                None => 0xFF,
            };
            let rts = TPCM::Rts {
                message_size: size as u16,
                packet_count: n as u8,
                max_packets_per_cts: 1,
                pgn: h.pgn,
                remote_address: da,
                local_address: h.source_address,
            };
            send(out, rts.to_frame());
            let ghost pdu_view = pdu@;
            let sender = P2PSender { pdu, last_packet_index: 0, send_till_index: 0 };
            let ghost before = self.out_p2p@;
            match self.find_sender(h.source_address, da) {
                Some(i) => {
                    self.out_p2p.remove(i);
                    self.out_p2p.insert(i, sender);
                    assert(self.out_p2p@[i as int] == sender);
                    assert(sender_views(self.out_p2p@) =~= sender_views(before).update(i as int, (pdu_view, 0u8, 0u8)));
                    assert forall|a: int, b: int| 0 <= a < b < self.out_p2p@.len()
                        implies sender_key(#[trigger] self.out_p2p@[a]) != sender_key(#[trigger] self.out_p2p@[b]) by {
                        if a != i && b != i {
                            assert(self.out_p2p@[a] == before[a] && self.out_p2p@[b] == before[b]);
                        } else if a == i {
                            assert(self.out_p2p@[b] == before[b]);
                            assert(sender_key(before[i as int]) == sender_key(sender));
                        } else {
                            assert(self.out_p2p@[a] == before[a]);
                            assert(sender_key(before[i as int]) == sender_key(sender));
                        }
                    }
                },
                None => {
                    self.out_p2p.push(sender);
                    let ghost last = self.out_p2p@.len() - 1;
                    assert(sender_views(self.out_p2p@) =~= sender_views(before).push((pdu_view, 0u8, 0u8)));
                    assert(self.out_p2p@[last] == sender);
                    assert forall|a: int, b: int| 0 <= a < b < self.out_p2p@.len()
                        implies sender_key(#[trigger] self.out_p2p@[a]) != sender_key(#[trigger] self.out_p2p@[b]) by {
                        assert(self.out_p2p@[a] == before[a]);
                        if b < last {
                            assert(self.out_p2p@[b] == before[b]);
                        }
                    }
                },
            }
        }
    }
    /// Sends the next data packet of the outgoing broadcast and of every
    /// peer-to-peer transfer that the receiver has cleared, in that order
    pub fn process_out_transfers(&mut self, out: &mut Vec<Frame>)
        requires
            old(self).wf(),
        ensures
            all_short(old(out)@) ==> all_short(final(out)@),
            final(self).wf(),
            tp_tick_effect(*old(self), *final(self), old(out)@, final(out)@),
    {
        let ghost out0 = out@;
        let ghost senders0 = self.out_p2p@;
        match self.out_broadcast.take() {
            Some(s) => {
                let BroadcastSender { pdu, last_packet_index, packet_count } = s;
                let sa = pdu.header().source_address;
                let tpdt = TPDT {
                    remote_address: 0xFF,
                    local_address: sa,
                    sequence_number: last_packet_index + 1,
                    data: packet_of(pdu.data(), last_packet_index as usize),
                };
                send(out, tpdt.to_frame());
                assert(appended(out0, out@, seq![bam_tpdt(s)]));
                if last_packet_index + 1 < packet_count {
                    self.out_broadcast = Some(BroadcastSender { pdu, last_packet_index: last_packet_index + 1, packet_count });
                }
            },
            None => {
                proof { lemma_appended_none(out0); }
            },
        }
        let ghost out1 = out@;
        let ghost ob1 = self.out_broadcast;
        let mut i: usize = 0;
        proof {
            assert(senders0.take(0) =~= Seq::<P2PSender>::empty());
            lemma_appended_none(out1);
        }
        while i < self.out_p2p.len()
            invariant
                self.wf(),
                self.in_broadcast == old(self).in_broadcast,
                self.in_p2p == old(self).in_p2p,
                self.out_broadcast == ob1,
                self.out_p2p@.len() == senders0.len(),
                i <= senders0.len(),
                forall|j: int| i <= j < senders0.len() ==> #[trigger] self.out_p2p@[j] == senders0[j],
                forall|j: int| 0 <= j < i ==> {
                    let s = #[trigger] senders0[j];
                    let t = self.out_p2p@[j];
                    &&& t.pdu == s.pdu
                    &&& t.send_till_index == s.send_till_index
                    &&& t.last_packet_index == if sender_active(s) {
                        s.last_packet_index + 1
                    } else {
                        s.last_packet_index as int
                    }
                },
                appended(out1, out@, p2p_tick_frames(senders0.take(i as int))),
                all_short(old(out)@) ==> all_short(out@),
            decreases senders0.len() - i,
        {
            let ghost out_before = out@;
            proof {
                assert(senders0.take(i + 1).drop_last() =~= senders0.take(i as int));
            }
            let active = self.out_p2p[i].last_packet_index < self.out_p2p[i].send_till_index
                && (self.out_p2p[i].last_packet_index as usize) < packet_count_of(self.out_p2p[i].pdu.data().len());
            if active {
                let ghost before = self.out_p2p@;
                let mut s = self.out_p2p.remove(i);
                let h = *s.pdu.header();
                let da = match h.destination_address {
                    Some(d) => d,
                    None => 0xFF,
                };
                let tpdt = TPDT {
                    remote_address: da,
                    local_address: h.source_address,
                    sequence_number: s.last_packet_index + 1,
                    data: packet_of(s.pdu.data(), s.last_packet_index as usize),
                };
                send(out, tpdt.to_frame());
                s.last_packet_index = s.last_packet_index + 1;
                self.out_p2p.insert(i, s);
                proof {
                    lemma_appended_trans(out1, out_before, out@, p2p_tick_frames(senders0.take(i as int)), seq![sender_tpdt(senders0[i as int])]);
                    assert forall|a: int, b: int| 0 <= a < b < self.out_p2p@.len()
                        implies sender_key(#[trigger] self.out_p2p@[a]) != sender_key(#[trigger] self.out_p2p@[b]) by {
                        assert(sender_key(self.out_p2p@[a]) == sender_key(before[a]));
                        assert(sender_key(self.out_p2p@[b]) == sender_key(before[b]));
                    }
                }
            } else {
                proof {
                    assert(p2p_tick_frames(senders0.take(i + 1)) == p2p_tick_frames(senders0.take(i as int)));
                }
            }
            i = i + 1;
        }
        proof {
            assert(senders0.take(senders0.len() as int) =~= senders0);
            match old(self).out_broadcast {
                Some(s) => {
                    lemma_appended_trans(out0, out1, out@, seq![bam_tpdt(s)], p2p_tick_frames(senders0));
                },
                None => {
                    lemma_appended_trans(out0, out1, out@, Seq::empty(), p2p_tick_frames(senders0));
                    assert(Seq::<(Header, Seq<u8>)>::empty() + p2p_tick_frames(senders0) =~= p2p_tick_frames(senders0));
                },
            }
        }
    }
}

/// The next data packet of an outgoing broadcast.
pub open spec fn bam_tpdt(s: BroadcastSender) -> (Header, Seq<u8>) {
    tpdt_frame(s.pdu@.0.source_address, 0xFF, (s.last_packet_index + 1) as u8, packet_payload(s.pdu@.1, s.last_packet_index as int))
}

/// The next data packet of an outgoing peer-to-peer transfer.
pub open spec fn sender_tpdt(s: P2PSender) -> (Header, Seq<u8>) {
    tpdt_frame(
        s.pdu@.0.source_address,
        s.pdu@.0.destination_address->Some_0,
        (s.last_packet_index + 1) as u8,
        packet_payload(s.pdu@.1, s.last_packet_index as int),
    )
}

/// The data packets that one tick sends for the peer-to-peer transfers `s`:
/// one for each that may still send, in order.
pub open spec fn p2p_tick_frames(s: Seq<P2PSender>) -> Seq<(Header, Seq<u8>)>
    decreases s.len(),
{
    if s.len() == 0 {
        Seq::empty()
    } else {
        let rest = p2p_tick_frames(s.drop_last());
        let t = s.last();
        if sender_active(t) {
            rest.push(sender_tpdt(t))
        } else {
            rest
        }
    }
}

/// Packet `i` (from 0) of `data`: seven bytes, padded with 0xFF.
fn packet_of(data: &[u8], i: usize) -> (r: [u8; 7])
    requires
        i <= 255,
        i * 7 <= data@.len(),
    ensures
        r@ == packet_payload(data@, i as int),
{
    let mut r: [u8; 7] = [0xFF; 7];
    let start = i * 7;
    let mut j: usize = 0;
    while j < 7
        invariant
            start == i * 7,
            start <= 1785,
            start <= data@.len(),
            j <= 7,
            r@.len() == 7,
            forall|m: int| 0 <= m < j ==> r@[m] == packet_payload(data@, i as int)[m],
            forall|m: int| j <= m < 7 ==> r@[m] == 0xFFu8,
        decreases 7 - j,
    {
        if start + j < data.len() {
            r[j] = data[start + j];
        }
        j = j + 1;
    }
    assert(r@ =~= packet_payload(data@, i as int));
    r
}


/// Whether a transfer goes out by BAM rather than RTS/CTS.
pub open spec fn is_broadcast_transfer(h: Header) -> bool {
    pdu_format_broadcast(h.pgn.0) || h.destination_address is None || h.destination_address == Some(0xFFu8)
}

/// Broadcast classification of a PGN.
pub open spec fn pdu_format_broadcast(pgn: u32) -> bool {
    crate::frame::pdu_format(pgn) > 240
}


/// Appends as much of `payload` as `size` still allows.
fn take_into(data: &mut Vec<u8>, size: u16, payload: &[u8; 7])
    requires
        old(data)@.len() <= size,
    ensures
        final(data)@ == rx_accept(old(data)@, size as nat, payload@),
{
    let missing = size as usize - data.len();
    let n: usize = if missing < 7 { missing } else { 7 };
    let mut j: usize = 0;
    while j < n
        invariant
            n <= 7,
            n == (if missing < 7 { missing } else { 7 }),
            missing == size - old(data)@.len(),
            j <= n,
            data@ == old(data)@ + payload@.take(j as int),
        decreases n - j,
    {
        data.push(payload[j]);
        j = j + 1;
        assert(data@ =~= old(data)@ + payload@.take(j as int));
    }
}


/// Number of 7-byte packets for `len` bytes
pub fn packet_count_of(len: usize) -> (r: usize)
    ensures
        r == packet_count(len as nat),
{
    len / 7 + if len % 7 == 0 { 0 } else { 1 }
}

/// What a receiving session of `size` bytes holds after taking in the first
/// `k` packets that a sender cuts from `s`.
pub open spec fn reassembled(s: Seq<u8>, size: nat, k: nat) -> Seq<u8>
    decreases k,
{
    if k == 0 {
        Seq::empty()
    } else {
        rx_accept(reassembled(s, size, (k - 1) as nat), size, packet_payload(s, k - 1))
    }
}

proof fn lemma_reassembled_prefix(s: Seq<u8>, k: nat)
    requires
        7 * (k - 1) < s.len() || k == 0,
    ensures
        reassembled(s, s.len(), k) == s.take(if 7 * k < s.len() { 7 * k as int } else { s.len() as int }),
    decreases k,
{
    if k > 0 {
        let prev = (k - 1) as nat;
        lemma_reassembled_prefix(s, prev);
        let before = reassembled(s, s.len(), prev);
        assert(before == s.take(7 * prev as int));
        let missing = s.len() - before.len();
        let m = if missing < 7 { missing } else { 7 };
        let payload = packet_payload(s, k - 1);
        let end = if 7 * k < s.len() { 7 * k as int } else { s.len() as int };
        assert(end == 7 * prev + m);
        assert(before + payload.take(m) =~= s.take(end)) by {
            assert forall|j: int| 0 <= j < end implies #[trigger] (before + payload.take(m))[j] == s.take(end)[j] by {
                if j >= 7 * prev {
                    assert(payload[j - 7 * prev] == s[(k - 1) * 7 + (j - 7 * prev)]);
                }
            }
        }
    }
}

/// A peer-to-peer transfer of `s` hands the whole of `s` to the receiver: fed
/// the sender's packets 1 to n in order, a receiving session sized by the RTS
/// stays open (short of its size) after each packet before the last, and holds
/// exactly `s` after the last one, which completes it.
pub proof fn lemma_transfer_delivers(s: Seq<u8>)
    requires
        1 <= s.len() <= TP_MAX_SIZE,
    ensures
        forall|k: nat| 1 <= k < packet_count(s.len()) ==> #[trigger] reassembled(s, s.len(), k).len() < s.len(),
        reassembled(s, s.len(), packet_count(s.len())) == s,
{
    let n = packet_count(s.len());
    assert forall|k: nat| 1 <= k < n implies #[trigger] reassembled(s, s.len(), k).len() < s.len() by {
        lemma_reassembled_prefix(s, k);
    }
    assert(7 * (n - 1) < s.len());
    lemma_reassembled_prefix(s, n);
    assert(7 * n >= s.len());
    assert(s.take(s.len() as int) =~= s);
}

proof fn lemma_rx_step(
    remote: u8,
    local: u8,
    pgn: PGN,
    s: Seq<u8>,
    j: nat,
    pre: TransportPackager,
    post: TransportPackager,
    t: TPDT,
    out0: Seq<Frame>,
    out1: Seq<Frame>,
    r: Option<Frame>,
)
    requires
        1 <= s.len() <= TP_MAX_SIZE,
        local != 0xFF,
        j < packet_count(s.len()),
        pre.in_p2p@.contains_key(pair_key(remote, local)),
        pre.in_p2p@[pair_key(remote, local)].data@ == reassembled(s, s.len(), j),
        pre.in_p2p@[pair_key(remote, local)].size == s.len(),
        pre.in_p2p@[pair_key(remote, local)].pgn == pgn,
        pre.in_p2p@[pair_key(remote, local)].last_packet_index == j,
        t.remote_address == remote,
        t.local_address == local,
        t.sequence_number == j + 1,
        t.data@ == packet_payload(s, j as int),
        tpdt_effect(pre, post, t, out0, out1, r),
    ensures
        j + 1 == packet_count(s.len()) ==> (r matches Some(f) && f@ == (Header {
            pgn,
            priority: 0,
            source_address: remote,
            destination_address: Some(local),
        }, s)),
        j + 1 < packet_count(s.len()) ==> {
            &&& r is None
            &&& post.in_p2p@.contains_key(pair_key(remote, local))
            &&& post.in_p2p@[pair_key(remote, local)].data@ == reassembled(s, s.len(), j + 1)
            &&& post.in_p2p@[pair_key(remote, local)].size == s.len()
            &&& post.in_p2p@[pair_key(remote, local)].pgn == pgn
            &&& post.in_p2p@[pair_key(remote, local)].last_packet_index == j + 1
        },
{
    lemma_transfer_delivers(s);
    assert(reassembled(s, s.len(), j + 1) == rx_accept(reassembled(s, s.len(), j), s.len(), packet_payload(s, j as int)));
    if j + 1 < packet_count(s.len()) {
        assert(reassembled(s, s.len(), (j + 1) as nat).len() < s.len());
    }
}

proof fn lemma_rx_packets(
    remote: u8,
    local: u8,
    pgn: PGN,
    s: Seq<u8>,
    pks: Seq<TransportPackager>,
    tpdts: Seq<TPDT>,
    outs: Seq<Seq<Frame>>,
    rs: Seq<Option<Frame>>,
    j: nat,
)
    requires
        1 <= s.len() <= TP_MAX_SIZE,
        local != 0xFF,
        pks.len() == packet_count(s.len()) + 1,
        tpdts.len() == packet_count(s.len()),
        outs.len() == packet_count(s.len()) + 1,
        rs.len() == packet_count(s.len()),
        pks[0].in_p2p@.contains_key(pair_key(remote, local)),
        pks[0].in_p2p@[pair_key(remote, local)].data@ == Seq::<u8>::empty(),
        pks[0].in_p2p@[pair_key(remote, local)].size == s.len(),
        pks[0].in_p2p@[pair_key(remote, local)].pgn == pgn,
        pks[0].in_p2p@[pair_key(remote, local)].last_packet_index == 0,
        forall|k: int| 0 <= k < packet_count(s.len()) ==> {
            &&& (#[trigger] tpdts[k]).remote_address == remote
            &&& tpdts[k].local_address == local
            &&& tpdts[k].sequence_number == k + 1
            &&& tpdts[k].data@ == packet_payload(s, k)
            &&& tpdt_effect(pks[k], pks[k + 1], tpdts[k], outs[k], outs[k + 1], rs[k])
        },
        j < packet_count(s.len()),
    ensures
        forall|k: int| 0 <= k < j ==> rs[k] is None,
        pks[j as int].in_p2p@.contains_key(pair_key(remote, local)),
        pks[j as int].in_p2p@[pair_key(remote, local)].data@ == reassembled(s, s.len(), j),
        pks[j as int].in_p2p@[pair_key(remote, local)].size == s.len(),
        pks[j as int].in_p2p@[pair_key(remote, local)].pgn == pgn,
        pks[j as int].in_p2p@[pair_key(remote, local)].last_packet_index == j,
    decreases j,
{
    if j > 0 {
        let i = (j - 1) as nat;
        lemma_rx_packets(remote, local, pgn, s, pks, tpdts, outs, rs, i);
        assert(tpdts[i as int].remote_address == remote);
        lemma_rx_step(remote, local, pgn, s, i, pks[i as int], pks[j as int], tpdts[i as int], outs[i as int], outs[j as int], rs[i as int]);
    }
}

/// A peer-to-peer transfer of `s` (1 to 1785 bytes) on PGN `pgn` from
/// `remote` to `local` is delivered whole by the receiving sessions: after
/// the RTS opens a session, the sender's data packets 1 to n, fed in order,
/// complete nothing before the last and then deliver exactly `s`, with the
/// PGN of the RTS, priority 0 (TP does not carry the priority), and the two
/// addresses.
pub proof fn lemma_transfer_received(
    remote: u8,
    local: u8,
    pgn: PGN,
    max_packets_per_cts: u8,
    s: Seq<u8>,
    pre: TransportPackager,
    out_before: Seq<Frame>,
    pks: Seq<TransportPackager>,
    tpdts: Seq<TPDT>,
    outs: Seq<Seq<Frame>>,
    rs: Seq<Option<Frame>>,
)
    requires
        1 <= s.len() <= TP_MAX_SIZE,
        local != 0xFF,
        !pre.in_p2p@.contains_key(pair_key(remote, local)),
        pks.len() == packet_count(s.len()) + 1,
        tpdts.len() == packet_count(s.len()),
        outs.len() == packet_count(s.len()) + 1,
        rs.len() == packet_count(s.len()),
        tpcm_effect(pre, pks[0], TPCM::Rts {
            message_size: s.len() as u16,
            packet_count: packet_count(s.len()) as u8,
            max_packets_per_cts,
            pgn,
            remote_address: remote,
            local_address: local,
        }, out_before, outs[0]),
        forall|k: int| 0 <= k < packet_count(s.len()) ==> {
            &&& (#[trigger] tpdts[k]).remote_address == remote
            &&& tpdts[k].local_address == local
            &&& tpdts[k].sequence_number == k + 1
            &&& tpdts[k].data@ == packet_payload(s, k)
            &&& tpdt_effect(pks[k], pks[k + 1], tpdts[k], outs[k], outs[k + 1], rs[k])
        },
    ensures
        forall|k: int| 0 <= k < packet_count(s.len()) - 1 ==> rs[k] is None,
        rs.last() matches Some(f) && f@ == (Header {
            pgn,
            priority: 0,
            source_address: remote,
            destination_address: Some(local),
        }, s),
{
    let n = packet_count(s.len());
    assert(s.len() as u16 != 0);
    assert(pks[0].in_p2p@[pair_key(remote, local)].data@ =~= Seq::<u8>::empty());
    lemma_rx_packets(remote, local, pgn, s, pks, tpdts, outs, rs, (n - 1) as nat);
    let i = (n - 1) as nat;
    assert(tpdts[i as int].remote_address == remote);
    lemma_rx_step(remote, local, pgn, s, i, pks[i as int], pks[n as int], tpdts[i as int], outs[i as int], outs[n as int], rs[i as int]);
}

} // verus!
