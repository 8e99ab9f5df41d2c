use crate::frame::{all_short, extends, lemma_extends_trans, Frame, Header, PGN, PGN_ETP_CM, PGN_ETP_DT, PGN_TP_CM, PGN_TP_DT};
use vstd::prelude::*;

/// NMEA 2000 fast packet segmentation
pub mod fast_packet;
/// Transport protocol control and data messages
pub mod tp_frames;
/// Sessions of the J1939 transport protocol
pub mod transport_packager;

use self::fast_packet::{fp_rx_effect, fp_send_effect, fp_tick_effect, FastPacketCoder, FpReceiver, FpTransmitter, FP_MAX_SIZE};
use self::tp_frames::{tpcm_decode, TPCM, TPDT};
use self::transport_packager::{BroadcastReceiver, P2PReceiver, P2PSender, out_transfer_effect, tp_tick_effect, tpcm_effect, tpdt_effect, TransportPackager, TP_MAX_SIZE};

verus! {

/// Why a frame could not be sent
#[derive(Debug, PartialEq, Eq, Structural, Clone, Copy)]
pub enum SendError {
    /// longer than its transport protocol carries (extended TP is not supported)
    TooLong,
}

/// Routes frames of the transport protocols to the TP sessions or the fast-packet coder
pub struct TransportManager {
    /// TP sessions
    pub transport_packager: TransportPackager,
    /// fast-packet coder
    pub fast_packet: FastPacketCoder,
}

/// Whether a PGN belongs to the transport protocol itself.
pub open spec fn is_tp_pgn(pgn: u32) -> bool {
    pgn == PGN_ETP_CM || pgn == PGN_ETP_DT || pgn == PGN_TP_CM || pgn == PGN_TP_DT
}

/// What a received frame of a transport protocol does to the manager and the
/// outgoing frames, and the message `r` it completes.
pub open spec fn handle_effect(pre: TransportManager, post: TransportManager, header: Header, data: Seq<u8>, out0: Seq<Frame>, out1: Seq<Frame>, r: Option<Frame>) -> bool {
    &&& (post.fast_packet.pgns == pre.fast_packet.pgns)
    &&& (extends(out0, out1))
    &&& (header.pgn.0 == PGN_TP_CM ==> post.fast_packet == pre.fast_packet && r is None)
    &&& (header.pgn.0 == PGN_TP_CM ==> match (if header.destination_address is Some && data.len() >= 8 {
        tpcm_decode(header.source_address, header.destination_address->Some_0, data)
    } else {
        None
    }) {
        Some(v) => tpcm_effect(pre.transport_packager, post.transport_packager, v, out0, out1),
        None => post.transport_packager == pre.transport_packager && out1 == out0,
    })
    &&& ((header.pgn.0 == PGN_TP_DT && header.destination_address is Some && data.len() >= 8) ==> exists|t: TPDT| {
        &&& t.remote_address == header.source_address
        &&& t.local_address == header.destination_address->Some_0
        &&& t.sequence_number == data[0]
        &&& t.data@ == data.subrange(1, 8)
        &&& tpdt_effect(pre.transport_packager, post.transport_packager, t, out0, out1, r)
    })
    &&& ((!is_tp_pgn(header.pgn.0) && pre.fast_packet.pgns@.contains(header.pgn))
        ==> fp_rx_effect(pre.fast_packet, post.fast_packet, header, data, r))
    &&& (header.pgn.0 == PGN_TP_DT ==> post.fast_packet == pre.fast_packet)
    &&& ((header.pgn.0 == PGN_TP_DT && (header.destination_address is None || data.len() < 8)) ==> {
        &&& post.transport_packager == pre.transport_packager
        &&& out1 == out0
        &&& r is None
    })
    &&& (!is_tp_pgn(header.pgn.0) ==> {
        &&& post.transport_packager == pre.transport_packager
        &&& out1 == out0
    })
    &&& ((header.pgn.0 == PGN_ETP_CM || header.pgn.0 == PGN_ETP_DT
        || (!is_tp_pgn(header.pgn.0) && !pre.fast_packet.pgns@.contains(header.pgn))) ==> {
        &&& post == pre
        &&& out1 == out0
        &&& r is None
    })
}

impl TransportManager {
    /// Invariant of both parts
    pub open spec fn wf(&self) -> bool {
        self.transport_packager.wf() && self.fast_packet.wf()
    }

    /// No session open, nothing being sent, no sequence counter used
    pub open spec fn is_idle(&self) -> bool {
        &&& self.transport_packager.in_broadcast@ == Map::<u8, BroadcastReceiver>::empty()
        &&& self.transport_packager.out_broadcast is None
        &&& self.transport_packager.in_p2p@ == Map::<u16, P2PReceiver>::empty()
        &&& self.transport_packager.out_p2p@ == Seq::<P2PSender>::empty()
        &&& self.fast_packet.receiver@ == Map::<u32, FpReceiver>::empty()
        &&& self.fast_packet.transmitter@ == Seq::<FpTransmitter>::empty()
        &&& self.fast_packet.last_used_sequence@ == Map::<u32, u8>::empty()
    }

    /// A manager whose fast-packet PGNs are `pgns`
    pub fn new(pgns: &[PGN]) -> (r: Self)
        ensures
            r.wf(),
            r.is_idle(),
            r.fast_packet.pgns@ == pgns@,
    {
        Self { transport_packager: TransportPackager::new(), fast_packet: FastPacketCoder::new(pgns) }
    }

    /// Whether frames on `pgn` are handled here
    pub fn is_tp_frame(&self, pgn: PGN) -> (r: bool)
        ensures
            r == (is_tp_pgn(pgn.0) || self.fast_packet.pgns@.contains(pgn)),
    {
        pgn.0 == PGN_ETP_CM || pgn.0 == PGN_ETP_DT || pgn.0 == PGN_TP_CM || pgn.0 == PGN_TP_DT
            || self.fast_packet.is_fastpacket(&pgn)
    }

    /// Hands a received frame to its protocol: TP control and data frames to
    /// the TP sessions (malformed ones are dropped), frames of a fast-packet
    /// PGN to the fast-packet coder. Extended TP is not supported: its frames
    /// are dropped. Returns the message that the frame completes.
    pub fn handle_frame(&mut self, header: Header, data: &[u8], out: &mut Vec<Frame>) -> (r: Option<Frame>)
        requires
            old(self).wf(),
        ensures
            all_short(old(out)@) ==> all_short(final(out)@),
            final(self).wf(),
            handle_effect(*old(self), *final(self), header, data@, old(out)@, final(out)@, r),
    {
        assert(old(out)@.subrange(0, old(out)@.len() as int) =~= old(out)@);
        let pgn = header.pgn.0;
        if pgn == PGN_TP_CM {
            match TPCM::from_frame(header, data) {
                Some(tpcm) => self.transport_packager.process_tpcm(tpcm, out),
                None => {},
            }
            None
        } else if pgn == PGN_TP_DT {
            if header.destination_address.is_some() && data.len() >= 8 {
                let tpdt = TPDT::from_frame(header, data);
                self.transport_packager.process_tpdt(tpdt, out)
            } else {
                None
            }
        } else if pgn == PGN_ETP_CM || pgn == PGN_ETP_DT {
            None
        } else if self.fast_packet.is_fastpacket(&header.pgn) {
            self.fast_packet.handle_frame(header, data)
        } else {
            None
        }
    }

    /// One tick of both protocols: TP sessions first, then fast packet
    pub fn process(&mut self, out: &mut Vec<Frame>)
        requires
            old(self).wf(),
        ensures
            all_short(old(out)@) ==> all_short(final(out)@),
            final(self).wf(),
            final(self).fast_packet.pgns == old(self).fast_packet.pgns,
            extends(old(out)@, final(out)@),
            exists|mid: Seq<Frame>| {
                &&& tp_tick_effect(old(self).transport_packager, final(self).transport_packager, old(out)@, mid)
                &&& fp_tick_effect(old(self).fast_packet, final(self).fast_packet, mid, final(out)@)
            },
    {
        self.transport_packager.process_out_transfers(out);
        let ghost mid = out@;
        self.fast_packet.process_out_transfers(out);
        proof {
            lemma_extends_trans(old(out)@, mid, out@);
        }
    }

    /// Starts sending a frame: by fast packet when its PGN is one of those,
    /// else over TP. Fails, changing nothing, when it is longer than that
    /// protocol carries (223 and 1785 bytes).
    pub fn send_frame(&mut self, frame: Frame, out: &mut Vec<Frame>) -> (r: Result<(), SendError>)
        requires
            old(self).wf(),
        ensures
            all_short(old(out)@) ==> all_short(final(out)@),
            final(self).wf(),
            final(self).fast_packet.pgns == old(self).fast_packet.pgns,
            extends(old(out)@, final(out)@),
            r is Err <==> (if old(self).fast_packet.pgns@.contains(frame@.0.pgn) {
                frame@.1.len() > FP_MAX_SIZE
            } else {
                frame@.1.len() > TP_MAX_SIZE
            }),
            r is Err ==> *final(self) == *old(self) && final(out)@ == old(out)@,
            r is Ok && old(self).fast_packet.pgns@.contains(frame@.0.pgn)
                ==> final(self).transport_packager == old(self).transport_packager
                && fp_send_effect(old(self).fast_packet, final(self).fast_packet, frame@, old(out)@, final(out)@),
            r is Ok && !old(self).fast_packet.pgns@.contains(frame@.0.pgn)
                ==> final(self).fast_packet == old(self).fast_packet
                && out_transfer_effect(old(self).transport_packager, final(self).transport_packager, frame@, old(out)@, final(out)@),
    {
        assert(old(out)@.subrange(0, old(out)@.len() as int) =~= old(out)@);
        let pgn = frame.header().pgn;
        if self.fast_packet.is_fastpacket(&pgn) {
            if frame.data().len() > FP_MAX_SIZE {
                return Err(SendError::TooLong);
            }
            self.fast_packet.send_frame(frame, out);
            Ok(())
        } else {
            if frame.data().len() > TP_MAX_SIZE {
                return Err(SendError::TooLong);
            }
            self.transport_packager.new_out_transfer(frame, out);
            Ok(())
        }
    }
}

} // verus!
