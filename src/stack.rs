use crate::address::{monitor_effect, AddressMonitor};
use crate::control_function::{
    cf_frame_effect, cf_process_effect, request_claims_view, AddressState, ControlFunction, NameConflict, REQUEST_TIMEOUT_MS,
    VETO_TIMEOUT_MS,
};
use crate::time::elapsed_spec;
use crate::frame::{all_short, appended, decode_id, extends, lemma_extends_trans, Frame, Header, PGN, PGN_ADDRESSCLAIM, PGN_REQUEST};
use crate::name::{le64, Name};
use crate::queue::{bounded_push, force_push, lemma_bounded_push_len, new_queue, pop, queue_capacity, queued, queued_views, QUEUE_CAPACITY};
use crate::transport::fast_packet::{fp_send_effect, fp_tick_effect, FP_MAX_SIZE};
use crate::transport::transport_packager::{out_transfer_effect, tp_tick_effect, TP_MAX_SIZE};
use crate::transport::{handle_effect, is_tp_pgn, SendError, TransportManager};
use crate::transport::transport_packager::send;
use crossbeam_queue::ArrayQueue;
use std::collections::BTreeMap;
use vstd::prelude::*;

verus! {

/// Why a step of the stack stopped
#[derive(Debug, PartialEq, Eq, Structural, Clone, Copy)]
pub enum StackError {
    /// an address claim carried the NAME of one of our control functions
    NameConflict,
    /// a frame was longer than its transport protocol carries
    TooLong,
}

/// Handle to identify a control function of a stack
#[derive(Debug, PartialEq, Eq, Structural, Clone, Copy)]
pub struct ControlFunctionHandle(usize);

impl View for ControlFunctionHandle {
    type V = nat;

    closed spec fn view(&self) -> nat {
        self.0 as nat
    }
}

impl ControlFunctionHandle {
    /// Index of the control function, in order of registration
    pub fn index(&self) -> (r: usize)
        ensures
            r == self@,
    {
        self.0
    }
}

/// A J1939 stack: it runs the transport protocols, the control functions'
/// address management, and filters received frames by destination. The
/// frames it sends collect in an outbox for the CAN driver; `process` must
/// be called regularly.
pub struct Stack {
    received_frames: ArrayQueue<Frame>,
    accept_all_da: bool,
    transport: TransportManager,
    cf: Vec<ControlFunction>,
    address_monitor: AddressMonitor,
    outbox: Vec<Frame>,
}

/// Whether the stack's own queue keeps a frame for `da`.
pub open spec fn stack_keeps(accept_all: bool, da: Option<u8>) -> bool {
    match da {
        Some(d) => d == 0xFF || accept_all,
        None => true,
    }
}

/// Whether `f` is an address claim carrying the NAME of one of `cfs`.
pub open spec fn claims_local_name(cfs: Seq<ControlFunction>, f: (Header, Seq<u8>)) -> bool {
    &&& f.0.pgn.0 == PGN_ADDRESSCLAIM
    &&& f.1.len() == 8
    &&& exists|j: int| 0 <= j < cfs.len() && (#[trigger] cfs[j]).spec_name().raw == le64(f.1)
}

/// Whether a frame is too long for the protocol that would carry it.
pub open spec fn too_long(fast_packet_pgns: Seq<PGN>, f: (Header, Seq<u8>)) -> bool {
    if fast_packet_pgns.contains(f.0.pgn) {
        f.1.len() > FP_MAX_SIZE
    } else {
        f.1.len() > TP_MAX_SIZE
    }
}

/// What sending the frame `f` does to a stack: up to 8 bytes go straight to
/// the outbox; longer frames start a fast-packet or TP transfer, or fail as
/// too long, changing nothing.
pub open spec fn send_effect(pre: Stack, post: Stack, f: (Header, Seq<u8>), r: Result<(), StackError>) -> bool {
    &&& post.cfs() == pre.cfs()
    &&& post.received() == pre.received()
    &&& post.monitor() == pre.monitor()
    &&& post.accept_all() == pre.accept_all()
    &&& post.fast_packet_pgns() == pre.fast_packet_pgns()
    &&& if f.1.len() <= 8 {
        &&& r is Ok
        &&& post.transport() == pre.transport()
        &&& appended(pre.outbox(), post.outbox(), seq![f])
    } else if too_long(pre.fast_packet_pgns(), f) {
        &&& r == Err::<(), StackError>(StackError::TooLong)
        &&& post.transport() == pre.transport()
        &&& post.outbox() == pre.outbox()
    } else if pre.fast_packet_pgns().contains(f.0.pgn) {
        &&& r is Ok
        &&& post.transport().transport_packager == pre.transport().transport_packager
        &&& fp_send_effect(pre.transport().fast_packet, post.transport().fast_packet, f, pre.outbox(), post.outbox())
    } else {
        &&& r is Ok
        &&& post.transport().fast_packet == pre.transport().fast_packet
        &&& out_transfer_effect(pre.transport().transport_packager, post.transport().transport_packager, f,
            pre.outbox(), post.outbox())
    }
}

/// What showing a new frame `f` at time `now` to the control functions (all
/// but the one at `skip`, in order) and then to the stack itself does. It
/// fails only on an address claim carrying the NAME of a local control
/// function, which one of them then reports.
pub open spec fn show_effect(
    pre: Stack,
    post: Stack,
    f: (Header, Seq<u8>),
    skip: Option<usize>,
    now: u64,
    r: Result<(), StackError>,
) -> bool {
    &&& post.outbox() == pre.outbox()
    &&& post.transport() == pre.transport()
    &&& post.accept_all() == pre.accept_all()
    &&& post.fast_packet_pgns() == pre.fast_packet_pgns()
    &&& post.cfs().len() == pre.cfs().len()
    &&& r is Err ==> r == Err::<(), StackError>(StackError::NameConflict) && claims_local_name(pre.cfs(), f)
    &&& !claims_local_name(pre.cfs(), f) ==> r is Ok
    &&& r is Ok ==> {
        &&& forall|j: int| 0 <= j < pre.cfs().len() ==> if skip == Some(j as usize) {
            post.cfs()[j] == pre.cfs()[j]
        } else {
            cf_frame_effect(pre.cfs()[j], #[trigger] post.cfs()[j], f, now, Ok(()))
        }
        &&& monitor_effect(pre.monitor(), post.monitor(), f)
        &&& post.received() == if stack_keeps(pre.accept_all(), f.0.destination_address) {
            bounded_push(pre.received(), QUEUE_CAPACITY as nat, f)
        } else {
            pre.received()
        }
    }
}

/// A control function whose queued frames were taken out: the same, with an
/// empty send queue.
pub open spec fn drained(c: ControlFunction, d: ControlFunction) -> bool {
    &&& d.sent() == Seq::<(Header, Seq<u8>)>::empty()
    &&& d.received() == c.received()
    &&& d.spec_state() == c.spec_state()
    &&& d.spec_address() == c.spec_address()
    &&& d.spec_name() == c.spec_name()
    &&& d.spec_configurable() == c.spec_configurable()
}

/// One frame queued by control function `i`: sent, then (if that worked)
/// shown to the other control functions and to the stack.
pub open spec fn frame_turn(pre: Stack, post: Stack, f: (Header, Seq<u8>), i: usize, now: u64, r: Result<(), StackError>) -> bool {
    exists|m: Stack, r1: Result<(), StackError>| {
        &&& #[trigger] send_effect(pre, m, f, r1)
        &&& if r1 is Err {
            post == m && r == r1
        } else {
            show_effect(m, post, f, Some(i), now, r)
        }
    }
}

/// The states `states` and running results `rs` of a stack going through
/// `frames` of control function `i` in turn: after an error the rest is
/// skipped, so the state and the error stay.
pub open spec fn frames_chain(
    frames: Seq<(Header, Seq<u8>)>,
    states: Seq<Stack>,
    rs: Seq<Result<(), StackError>>,
    i: usize,
    now: u64,
) -> bool {
    &&& states.len() == frames.len() + 1
    &&& rs.len() == frames.len() + 1
    &&& rs[0] is Ok
    &&& forall|k: int| 0 <= k < frames.len() ==> if rs[k] is Err {
        #[trigger] states[k + 1] == states[k] && rs[k + 1] == rs[k]
    } else {
        frame_turn(states[k], states[k + 1], frames[k], i, now, rs[k + 1])
    }
}

/// The frames queued by control function `i`, each in turn, stopping at the
/// first error.
pub open spec fn frames_turn(
    pre: Stack,
    post: Stack,
    frames: Seq<(Header, Seq<u8>)>,
    i: usize,
    now: u64,
    r: Result<(), StackError>,
) -> bool {
    exists|states: Seq<Stack>, rs: Seq<Result<(), StackError>>| {
        &&& #[trigger] frames_chain(frames, states, rs, i, now)
        &&& states[0] == pre
        &&& post == states.last()
        &&& r == rs.last()
    }
}

/// The start of control function `i`'s turn: its address-management step at
/// time `now` gives `c`, whose queued frames are then taken out, giving `m`.
pub open spec fn turn_start(pre: Stack, c: ControlFunction, m: Stack, i: usize, now: u64) -> bool {
    &&& i < pre.cfs().len()
    &&& cf_process_effect(pre.cfs()[i as int], c, pre.monitor(), now)
    &&& m.cfs().len() == pre.cfs().len()
    &&& forall|j: int| 0 <= j < pre.cfs().len() && j != i ==> #[trigger] m.cfs()[j] == pre.cfs()[j]
    &&& drained(c, m.cfs()[i as int])
    &&& m.received() == pre.received()
    &&& m.monitor() == pre.monitor()
    &&& m.accept_all() == pre.accept_all()
    &&& m.transport() == pre.transport()
    &&& m.outbox() == pre.outbox()
    &&& m.fast_packet_pgns() == pre.fast_packet_pgns()
}

/// Control function `i`'s turn in `process`: its address management, then its
/// queued frames.
pub open spec fn cf_turn(pre: Stack, post: Stack, i: usize, now: u64, r: Result<(), StackError>) -> bool {
    exists|c: ControlFunction, m: Stack| #[trigger] turn_start(pre, c, m, i, now) && frames_turn(m, post, c.sent(), i, now, r)
}

/// The states and running results of the turns of the first `k` control
/// functions, in registration order; after an error the rest is skipped.
pub open spec fn turns_chain(k: nat, states: Seq<Stack>, rs: Seq<Result<(), StackError>>, now: u64) -> bool {
    &&& states.len() == k + 1
    &&& rs.len() == k + 1
    &&& rs[0] is Ok
    &&& forall|j: int| 0 <= j < k ==> if rs[j] is Err {
        #[trigger] states[j + 1] == states[j] && rs[j + 1] == rs[j]
    } else {
        cf_turn(states[j], states[j + 1], j as usize, now, rs[j + 1])
    }
}

/// The turns of the first `k` control functions, stopping at the first error.
pub open spec fn turns(pre: Stack, post: Stack, k: nat, now: u64, r: Result<(), StackError>) -> bool {
    exists|states: Seq<Stack>, rs: Seq<Result<(), StackError>>| {
        &&& #[trigger] turns_chain(k, states, rs, now)
        &&& states[0] == pre
        &&& post == states.last()
        &&& r == rs.last()
    }
}

/// After an error at step `k`, the chain of `frames` runs out unchanged.
proof fn lemma_frames_chain_stop(
    frames: Seq<(Header, Seq<u8>)>,
    states: Seq<Stack>,
    rs: Seq<Result<(), StackError>>,
    k: int,
    i: usize,
    now: u64,
) -> (full: (Seq<Stack>, Seq<Result<(), StackError>>))
    requires
        0 <= k < frames.len(),
        frames_chain(frames.take(k + 1), states, rs, i, now),
        rs.last() is Err,
    ensures
        frames_chain(frames, full.0, full.1, i, now),
        full.0[0] == states[0],
        full.0.last() == states.last(),
        full.1.last() == rs.last(),
{
    let pad = frames.len() - (k + 1);
    let st = states + Seq::new(pad as nat, |x: int| states.last());
    let rr = rs + Seq::new(pad as nat, |x: int| rs.last());
    assert forall|j: int| 0 <= j < frames.len() implies if rr[j] is Err {
        #[trigger] st[j + 1] == st[j] && rr[j + 1] == rr[j]
    } else {
        frame_turn(st[j], st[j + 1], frames[j], i, now, rr[j + 1])
    } by {
        if j < k + 1 {
            assert(frames.take(k + 1)[j] == frames[j]);
        }
    }
    (st, rr)
}

/// After an error at turn `k`, the turns of all `n` control functions run out unchanged.
proof fn lemma_turns_chain_stop(
    states: Seq<Stack>,
    rs: Seq<Result<(), StackError>>,
    k: nat,
    n: nat,
    now: u64,
) -> (full: (Seq<Stack>, Seq<Result<(), StackError>>))
    requires
        k <= n,
        turns_chain(k, states, rs, now),
        rs.last() is Err,
    ensures
        turns_chain(n, full.0, full.1, now),
        full.0[0] == states[0],
        full.0.last() == states.last(),
        full.1.last() == rs.last(),
{
    let pad = n - k;
    let st = states + Seq::new(pad as nat, |x: int| states.last());
    let rr = rs + Seq::new(pad as nat, |x: int| rs.last());
    assert forall|j: int| 0 <= j < n implies if rr[j] is Err {
        #[trigger] st[j + 1] == st[j] && rr[j + 1] == rr[j]
    } else {
        cf_turn(st[j], st[j + 1], j as usize, now, rr[j + 1])
    } by {}
    (st, rr)
}

/// A chain of frames grows by one frame.
proof fn lemma_frames_chain_push(
    frames: Seq<(Header, Seq<u8>)>,
    states: Seq<Stack>,
    rs: Seq<Result<(), StackError>>,
    k: int,
    next: Stack,
    r: Result<(), StackError>,
    i: usize,
    now: u64,
)
    requires
        0 <= k < frames.len(),
        frames_chain(frames.take(k), states, rs, i, now),
        rs.last() is Ok,
        frame_turn(states.last(), next, frames[k], i, now, r),
    ensures
        frames_chain(frames.take(k + 1), states.push(next), rs.push(r), i, now),
{
    let st = states.push(next);
    let rr = rs.push(r);
    assert forall|j: int| 0 <= j < k + 1 implies if rr[j] is Err {
        #[trigger] st[j + 1] == st[j] && rr[j + 1] == rr[j]
    } else {
        frame_turn(st[j], st[j + 1], frames.take(k + 1)[j], i, now, rr[j + 1])
    } by {
        if j < k {
            assert(frames.take(k)[j] == frames.take(k + 1)[j]);
        }
    }
}

/// A chain of turns grows by one control function.
proof fn lemma_turns_chain_push(
    k: nat,
    states: Seq<Stack>,
    rs: Seq<Result<(), StackError>>,
    next: Stack,
    r: Result<(), StackError>,
    now: u64,
)
    requires
        turns_chain(k, states, rs, now),
        rs.last() is Ok,
        cf_turn(states.last(), next, k as usize, now, r),
    ensures
        turns_chain(k + 1, states.push(next), rs.push(r), now),
{
    let st = states.push(next);
    let rr = rs.push(r);
    assert forall|j: int| 0 <= j < k + 1 implies if rr[j] is Err {
        #[trigger] st[j + 1] == st[j] && rr[j + 1] == rr[j]
    } else {
        cf_turn(st[j], st[j + 1], j as usize, now, rr[j + 1])
    } by {
        if j < k {
            assert(st[j + 1] == states[j + 1] && st[j] == states[j]);
            assert(rr[j + 1] == rs[j + 1] && rr[j] == rs[j]);
        }
    }
}

/// What one `process` step at time `now` does: the control functions' turns
/// in registration order, stopping at the first error, then the transport
/// protocols' tick.
pub open spec fn process_effect(pre: Stack, post: Stack, now: u64, r: Result<(), StackError>) -> bool {
    &&& (post.cfs().len() == pre.cfs().len())
    &&& (post.accept_all() == pre.accept_all())
    &&& (exists|m: Stack, r1: Result<(), StackError>| {
        &&& #[trigger] turns(pre, m, pre.cfs().len() as nat, now, r1)
        &&& if r1 is Err {
            post == m && r == r1
        } else {
            &&& r is Ok
            &&& post.cfs() == m.cfs()
            &&& post.received() == m.received()
            &&& post.monitor() == m.monitor()
            &&& post.accept_all() == m.accept_all()
            &&& exists|mid: Seq<Frame>| {
                &&& tp_tick_effect(m.transport().transport_packager, post.transport().transport_packager,
                    m.outbox(), mid)
                &&& fp_tick_effect(m.transport().fast_packet, post.transport().fast_packet, mid,
                    post.outbox())
            }
        }
    })
}

/// A frame of control function `i`'s turn failed with `e`: `process` stops there.
proof fn lemma_process_stops(
    tst: Seq<Stack>,
    trs: Seq<Result<(), StackError>>,
    i: nat,
    n: nat,
    c: ControlFunction,
    m: Stack,
    fst: Seq<Stack>,
    frs: Seq<Result<(), StackError>>,
    k: int,
    now: u64,
)
    requires
        i < n,
        turns_chain(i, tst, trs, now),
        trs.last() is Ok,
        turn_start(tst.last(), c, m, i as usize, now),
        0 <= k < c.sent().len(),
        frames_chain(c.sent().take(k + 1), fst, frs, i as usize, now),
        fst[0] == m,
        frs.last() is Err,
    ensures
        turns(tst[0], fst.last(), n, now, frs.last()),
{
    let full = lemma_frames_chain_stop(c.sent(), fst, frs, k, i as usize, now);
    assert(frames_turn(m, fst.last(), c.sent(), i as usize, now, frs.last()));
    assert(cf_turn(tst.last(), fst.last(), i as usize, now, frs.last()));
    lemma_turns_chain_push(i, tst, trs, fst.last(), frs.last(), now);
    let t2 = tst.push(fst.last());
    let r2 = trs.push(frs.last());
    let tfull = lemma_turns_chain_stop(t2, r2, i + 1, n, now);
    assert(turns(tst[0], fst.last(), n, now, frs.last()));
}

impl Stack {
    /// Invariant of the parts
    pub closed spec fn wf(&self) -> bool {
        &&& queue_capacity(self.received_frames) == QUEUE_CAPACITY
        &&& queued(self.received_frames).len() <= QUEUE_CAPACITY
        &&& self.transport.wf()
        &&& forall|i: int| 0 <= i < self.cf@.len() ==> (#[trigger] self.cf@[i]).wf()
        &&& all_short(self.outbox@)
    }

    /// Frames received for the application, oldest first
    pub closed spec fn received(&self) -> Seq<(Header, Seq<u8>)> {
        queued_views(self.received_frames)
    }

    /// Frames to hand to the CAN driver, in order; each has at most 8 data
    /// bytes (see `lemma_outbox_short`)
    pub closed spec fn outbox(&self) -> Seq<Frame> {
        self.outbox@
    }

    /// The control functions, in order of registration
    pub closed spec fn cfs(&self) -> Seq<ControlFunction> {
        self.cf@
    }

    /// Whether frames for any destination are kept
    pub closed spec fn accept_all(&self) -> bool {
        self.accept_all_da
    }

    /// The addresses in use on the bus
    pub closed spec fn monitor(&self) -> Map<u8, Name> {
        self.address_monitor@
    }

    /// The transport protocols' state
    pub closed spec fn transport(&self) -> TransportManager {
        self.transport
    }

    /// The fast-packet PGNs
    pub closed spec fn fast_packet_pgns(&self) -> Seq<PGN> {
        self.transport.fast_packet.pgns@
    }

    /// Every frame waiting for the CAN driver fits one CAN frame.
    pub proof fn lemma_outbox_short(&self)
        requires
            self.wf(),
        ensures
            forall|i: int| 0 <= i < self.outbox().len() ==> (#[trigger] self.outbox()[i])@.1.len() <= 8,
    {
    }

    /// A stack without fast-packet PGNs
    pub fn new() -> (r: Self)
        ensures
            r.wf(),
            r.received() == Seq::<(Header, Seq<u8>)>::empty(),
            r.outbox() == Seq::<Frame>::empty(),
            r.cfs() == Seq::<ControlFunction>::empty(),
            !r.accept_all(),
            r.monitor() == Map::<u8, Name>::empty(),
            r.fast_packet_pgns() == Seq::<PGN>::empty(),
            r.transport().is_idle(),
    {
        let none: [PGN; 0] = [];
        Self::new_with_nema2000(&none)
    }

    /// A stack that sends and receives the PGNs `pgns` by fast packet
    pub fn new_with_nema2000(pgns: &[PGN]) -> (r: Self)
        ensures
            r.wf(),
            r.received() == Seq::<(Header, Seq<u8>)>::empty(),
            r.outbox() == Seq::<Frame>::empty(),
            r.cfs() == Seq::<ControlFunction>::empty(),
            !r.accept_all(),
            r.monitor() == Map::<u8, Name>::empty(),
            r.fast_packet_pgns() == pgns@,
            r.transport().is_idle(),
    {
        let r = Self {
            received_frames: new_queue(QUEUE_CAPACITY),
            accept_all_da: false,
            transport: TransportManager::new(pgns),
            cf: Vec::new(),
            address_monitor: AddressMonitor::new(),
            outbox: Vec::new(),
        };
        assert(r.received() =~= Seq::<(Header, Seq<u8>)>::empty());
        r
    }

    /// The control functions on the bus: NAME by source address
    pub fn control_function_list(&self) -> (r: &BTreeMap<u8, Name>)
        ensures
            r@ == self.monitor(),
    {
        self.address_monitor.control_function_list()
    }

    /// Adds a control function with a preferred address and NAME and returns its handle
    pub fn register_control_function(&mut self, preferred_address: u8, name: Name) -> (r: ControlFunctionHandle)
        requires
            old(self).wf(),
        ensures
            final(self).wf(),
            r@ == old(self).cfs().len(),
            final(self).cfs().len() == old(self).cfs().len() + 1,
            final(self).cfs().drop_last() == old(self).cfs(),
            final(self).cfs().last().spec_name() == name,
            final(self).cfs().last().spec_address() == preferred_address,
            final(self).cfs().last().spec_state() == crate::control_function::AddressState::Preferred,
            final(self).cfs().last().spec_configurable() == (name.raw >= 0x8000_0000_0000_0000),
            final(self).cfs().last().sent() == Seq::<(Header, Seq<u8>)>::empty(),
            final(self).cfs().last().received() == Seq::<(Header, Seq<u8>)>::empty(),
            final(self).received() == old(self).received(),
            final(self).outbox() == old(self).outbox(),
            final(self).accept_all() == old(self).accept_all(),
            final(self).monitor() == old(self).monitor(),
            final(self).transport() == old(self).transport(),
    {
        let ghost before = self.cf@;
        self.cf.push(ControlFunction::new(name, preferred_address));
        assert(self.cf@.drop_last() =~= before);
        ControlFunctionHandle(self.cf.len() - 1)
    }

    /// Number of registered control functions
    pub fn control_function_count(&self) -> (r: usize)
        ensures
            r == self.cfs().len(),
    {
        self.cf.len()
    }

    /// The control function of a handle
    pub fn control_function(&mut self, handle: &ControlFunctionHandle) -> (r: &mut ControlFunction)
        requires
            handle@ < old(self).cfs().len(),
        ensures
            final(self).transport() == old(self).transport(),
            *r == old(self).cfs()[handle@ as int],
            final(self).cfs() == old(self).cfs().update(handle@ as int, *final(r)),
            final(self).received() == old(self).received(),
            final(self).outbox() == old(self).outbox(),
            final(self).accept_all() == old(self).accept_all(),
            final(self).monitor() == old(self).monitor(),
    {
        &mut self.cf[handle.0]
    }

    /// Takes the oldest frame received for the application, if any. By
    /// default these are the frames without destination or for the global
    /// address; frames longer than 8 bytes come reassembled
    pub fn get_frame(&mut self) -> (r: Option<Frame>)
        requires
            old(self).wf(),
        ensures
            final(self).transport() == old(self).transport(),
            final(self).monitor() == old(self).monitor(),
            final(self).accept_all() == old(self).accept_all(),
            final(self).wf(),
            old(self).received().len() == 0 ==> r is None && final(self).received() == old(self).received(),
            old(self).received().len() > 0 ==> (r matches Some(f) && f@ == old(self).received()[0]
                && final(self).received() == old(self).received().drop_first()),
            final(self).outbox() == old(self).outbox(),
            final(self).cfs() == old(self).cfs(),
    {
        let r = pop(&mut self.received_frames);
        assert(self.received() =~= if old(self).received().len() > 0 {
            old(self).received().drop_first()
        } else {
            old(self).received()
        });
        r
    }

    /// Takes the frames to transmit, in order, leaving the outbox empty; each
    /// has at most 8 data bytes
    pub fn take_transmit(&mut self) -> (r: Vec<Frame>)
        ensures
            final(self).transport() == old(self).transport(),
            r@ == old(self).outbox(),
            final(self).outbox() == Seq::<Frame>::empty(),
            old(self).wf() ==> final(self).wf() && all_short(r@),
            final(self).accept_all() == old(self).accept_all(),
            final(self).monitor() == old(self).monitor(),
            final(self).received() == old(self).received(),
            final(self).cfs() == old(self).cfs(),
    {
        let mut r: Vec<Frame> = Vec::new();
        std::mem::swap(&mut r, &mut self.outbox);
        assert(self.received_frames == old(self).received_frames);
        assert(self.transport == old(self).transport);
        assert(self.cf == old(self).cf);
        r
    }

    /// Sends a frame: up to 8 bytes directly, longer ones by fast packet or
    /// TP. Frames sent here are not seen by the control functions
    pub fn send_frame(&mut self, frame: Frame) -> (r: Result<(), StackError>)
        requires
            old(self).wf(),
        ensures
            final(self).wf(),
            send_effect(*old(self), *final(self), frame@, r),
            extends(old(self).outbox(), final(self).outbox()),
    {
        if frame.data().len() > 8 {
            match self.transport.send_frame(frame, &mut self.outbox) {
                Ok(()) => Ok(()),
                Err(SendError::TooLong) => Err(StackError::TooLong),
            }
        } else {
            send(&mut self.outbox, frame);
            Ok(())
        }
    }

    /// Whether frames for any destination reach the stack's own queue (by
    /// default only those without destination or for the global address);
    /// this does not change what the control functions receive
    pub fn set_accepted_all(&mut self, accept_all: bool)
        requires
            old(self).wf(),
        ensures
            final(self).transport() == old(self).transport(),
            final(self).wf(),
            final(self).accept_all() == accept_all,
            final(self).received() == old(self).received(),
            final(self).outbox() == old(self).outbox(),
            final(self).cfs() == old(self).cfs(),
            final(self).monitor() == old(self).monitor(),
    {
        self.accept_all_da = accept_all;
    }
    /// The stack's own look at a new frame: address claims and requests
    /// update the list of addresses in use, and the frame is kept for the
    /// application when it has no destination, is for the global address, or
    /// frames for any destination are kept
    fn handle_new_frame_stack(&mut self, frame: Frame)
        requires
            old(self).wf(),
        ensures
            final(self).wf(),
            final(self).received() == if stack_keeps(old(self).accept_all(), frame@.0.destination_address) {
                bounded_push(old(self).received(), QUEUE_CAPACITY as nat, frame@)
            } else {
                old(self).received()
            },
            monitor_effect(old(self).monitor(), final(self).monitor(), frame@),
            final(self).transport() == old(self).transport(),
            final(self).outbox() == old(self).outbox(),
            final(self).cfs() == old(self).cfs(),
            final(self).accept_all() == old(self).accept_all(),
            final(self).fast_packet_pgns() == old(self).fast_packet_pgns(),
    {
        let h = *frame.header();
        if h.pgn.0 == PGN_ADDRESSCLAIM || h.pgn.0 == PGN_REQUEST {
            self.address_monitor.handle_frame(&frame);
        }
        let keep = match h.destination_address {
            Some(da) => da == 0xFF || self.accept_all_da,
            None => true,
        };
        if keep {
            proof {
                lemma_bounded_push_len(queued(self.received_frames), QUEUE_CAPACITY as nat, frame);
            }
            let ghost before = queued(self.received_frames);
            let ghost view = frame@;
            force_push(&mut self.received_frames, frame);
            assert(self.received() =~= bounded_push(old(self).received(), QUEUE_CAPACITY as nat, view)) by {
                if before.len() >= QUEUE_CAPACITY {
                    assert(before.drop_first().map_values(|g: Frame| g@) =~= before.map_values(|g: Frame| g@).drop_first());
                }
            }
        }
    }

    /// Shows a new frame to every control function but the one at `skip`
    /// (if any), then to the stack itself
    fn handle_new_frame(&mut self, frame: Frame, skip: Option<usize>, now: u64) -> (r: Result<(), StackError>)
        requires
            old(self).wf(),
        ensures
            final(self).wf(),
            show_effect(*old(self), *final(self), frame@, skip, now, r),
    {
        let n = self.cf.len();
        let mut i: usize = 0;
        while i < n
            invariant
                self.wf(),
                n == self.cf@.len(),
                n == old(self).cf@.len(),
                i <= n,
                self.received() == old(self).received(),
                self.outbox() == old(self).outbox(),
                self.transport() == old(self).transport(),
                self.monitor() == old(self).monitor(),
                self.accept_all() == old(self).accept_all(),
                self.fast_packet_pgns() == old(self).fast_packet_pgns(),
                forall|j: int| i <= j < n ==> #[trigger] self.cf@[j] == old(self).cf@[j],
                forall|j: int| 0 <= j < i ==> if skip == Some(j as usize) {
                    self.cf@[j] == old(self).cf@[j]
                } else {
                    cf_frame_effect(old(self).cf@[j], #[trigger] self.cf@[j], frame@, now, Ok(()))
                },
            decreases n - i,
        {
            if skip != Some(i) {
                let ghost before = self.cf@;
                let mut cf = self.cf.remove(i);
                let res = cf.handle_new_frame(&frame, now);
                self.cf.insert(i, cf);
                assert forall|j: int| 0 <= j < self.cf@.len() implies (#[trigger] self.cf@[j]).wf() by {
                    if j != i {
                        assert(self.cf@[j] == before[j]);
                    }
                }
                assert forall|j: int| 0 <= j < n && j != i implies #[trigger] self.cf@[j] == before[j] by {}
                if res.is_err() {
                    assert(old(self).cfs()[i as int].spec_name().raw == le64(frame@.1));
                    return Err(StackError::NameConflict);
                }
            }
            i = i + 1;
        }
        let ghost view = frame@;
        self.handle_new_frame_stack(frame);
        assert forall|j: int| 0 <= j < old(self).cfs().len() implies if skip == Some(j as usize) {
            self.cfs()[j] == old(self).cfs()[j]
        } else {
            cf_frame_effect(old(self).cfs()[j], #[trigger] self.cfs()[j], view, now, Ok(()))
        } by {
            assert(self.cf@[j] == self.cfs()[j]);
        }
        Ok(())
    }

    /// Whether a received frame for `da` concerns this stack: no destination,
    /// the global address, the address of an online control function, or
    /// frames for any destination are kept
    fn check_destination(&self, destination_address: Option<u8>) -> (r: bool)
        ensures
            r == match destination_address {
                Some(da) => self.accept_all() || da == 0xFF || exists|i: int| 0 <= i < self.cfs().len()
                    && (#[trigger] self.cfs()[i]).spec_state() == crate::control_function::AddressState::AddressClaimed
                    && self.cfs()[i].spec_address() == da,
                None => true,
            },
    {
        match destination_address {
            Some(da) => {
                if self.accept_all_da || da == 0xFF {
                    return true;
                }
                let mut i: usize = 0;
                while i < self.cf.len()
                    invariant
                        destination_address == Some(da),
                        !self.accept_all_da,
                        da != 0xFF,
                        i <= self.cf@.len(),
                        forall|j: int| 0 <= j < i ==> !((#[trigger] self.cf@[j]).spec_state()
                            == crate::control_function::AddressState::AddressClaimed && self.cf@[j].spec_address() == da),
                    decreases self.cf@.len() - i,
                {
                    if self.cf[i].is_online() == Some(da) {
                        assert(self.cfs()[i as int].spec_state() == crate::control_function::AddressState::AddressClaimed);
                        return true;
                    }
                    i = i + 1;
                }
                false
            },
            None => true,
        }
    }

    /// Takes in a frame that the CAN driver received with the 29-bit
    /// identifier `id`, at time `now`. Frames for another destination are
    /// dropped; transport protocol frames go to their sessions (their replies
    /// go to the outbox), and every complete frame is shown to the control
    /// functions and the stack
    pub fn push_can_frame(&mut self, id: u32, data: &[u8], now: u64) -> (r: Result<(), StackError>)
        requires
            old(self).wf(),
        ensures
            final(self).wf(),
            final(self).cfs().len() == old(self).cfs().len(),
            final(self).accept_all() == old(self).accept_all(),
            extends(old(self).outbox(), final(self).outbox()),
            ({
                let h = decode_id(id);
                let for_us = match h.destination_address {
                    Some(da) => old(self).accept_all() || da == 0xFF || exists|i: int| 0 <= i < old(self).cfs().len()
                        && (#[trigger] old(self).cfs()[i]).spec_state() == crate::control_function::AddressState::AddressClaimed
                        && old(self).cfs()[i].spec_address() == da,
                    None => true,
                };
                let transport = is_tp_pgn(h.pgn.0) || old(self).fast_packet_pgns().contains(h.pgn);
                &&& !for_us ==> *final(self) == *old(self) && r is Ok
                &&& (for_us && !transport) ==> show_effect(*old(self), *final(self), (h, data@), None, now, r)
                &&& (for_us && transport) ==> exists|m: Stack, done: Option<Frame>| {
                    &&& #[trigger] handle_effect(old(self).transport(), m.transport(), h, data@, old(self).outbox(), m.outbox(), done)
                    &&& m.cfs() == old(self).cfs()
                    &&& m.received() == old(self).received()
                    &&& m.monitor() == old(self).monitor()
                    &&& m.accept_all() == old(self).accept_all()
                    &&& m.fast_packet_pgns() == old(self).fast_packet_pgns()
                    &&& match done {
                        None => *final(self) == m && r is Ok,
                        Some(f) => show_effect(m, *final(self), f@, None, now, r),
                    }
                }
            }),
    {
        assert(self.outbox@.subrange(0, self.outbox@.len() as int) =~= self.outbox@);
        let header = Header::from_id(id);
        if !self.check_destination(header.destination_address) {
            return Ok(());
        }
        if self.transport.is_tp_frame(header.pgn) {
            let ghost before = self.outbox@;
            let decoded = self.transport.handle_frame(header, data, &mut self.outbox);
            let ghost mid = self.outbox@;
            let ghost m = *self;
            assert(handle_effect(old(self).transport(), m.transport(), header, data@, old(self).outbox(), m.outbox(), decoded));
            match decoded {
                Some(f) => {
                    let r = self.handle_new_frame(f, None, now);
                    proof {
                        assert(mid.subrange(0, mid.len() as int) =~= mid);
                        lemma_extends_trans(before, mid, self.outbox@);
                    }
                    r
                },
                None => Ok(()),
            }
        } else {
            assert(self.outbox@.subrange(0, self.outbox@.len() as int) =~= self.outbox@);
            self.handle_new_frame(Frame::new(header, data), None, now)
        }
    }

    /// One step at time `now`: each control function in turn does its
    /// address management and sends what it queued (each frame is also shown
    /// to the other control functions and to the stack); then the transport
    /// protocols send their next packets
    pub fn process(&mut self, now: u64) -> (r: Result<(), StackError>)
        requires
            old(self).wf(),
        ensures
            final(self).wf(),
            process_effect(*old(self), *final(self), now, r),
    {
        let n = self.cf.len();
        let ghost mut tst: Seq<Stack> = seq![*self];
        let ghost mut trs: Seq<Result<(), StackError>> = seq![Ok(())];
        let mut i: usize = 0;
        while i < n
            invariant
                self.wf(),
                n == self.cf@.len(),
                n == old(self).cf@.len(),
                i <= n,
                self.accept_all() == old(self).accept_all(),
                turns_chain(i as nat, tst, trs, now),
                tst[0] == *old(self),
                tst.last() == *self,
                trs.last() is Ok,
            decreases n - i,
        {
            let ghost s0 = *self;
            let mut cf = self.cf.remove(i);
            cf.process(&self.address_monitor, now);
            let ghost c = cf;
            let mut pending: Vec<Frame> = Vec::new();
            let mut drained_all = false;
            while !drained_all
                invariant
                    cf.wf(),
                    pending@.map_values(|f: Frame| f@) + cf.sent() == c.sent(),
                    cf.received() == c.received(),
                    cf.spec_state() == c.spec_state(),
                    cf.spec_address() == c.spec_address(),
                    cf.spec_name() == c.spec_name(),
                    cf.spec_configurable() == c.spec_configurable(),
                    drained_all ==> cf.sent().len() == 0,
                decreases cf.sent().len() + if drained_all { 0int } else { 1int },
            {
                let ghost before = pending@.map_values(|f: Frame| f@);
                let ghost sent_before = cf.sent();
                match cf.pop_sent() {
                    Some(f) => {
                        pending.push(f);
                        assert(pending@.map_values(|g: Frame| g@) =~= before.push(sent_before[0]));
                        assert(before.push(sent_before[0]) + cf.sent() =~= before + sent_before);
                    },
                    None => {
                        drained_all = true;
                    },
                }
            }
            assert(pending@.map_values(|f: Frame| f@) =~= c.sent());
            self.cf.insert(i, cf);
            let ghost m = *self;
            assert forall|j: int| 0 <= j < self.cf@.len() implies (#[trigger] self.cf@[j]).wf() by {
                if j != i {
                    assert(self.cf@[j] == s0.cf@[j]);
                }
            }
            assert(m.cfs()[i as int].sent() =~= Seq::<(Header, Seq<u8>)>::empty());
            assert(drained(c, m.cfs()[i as int]));
            assert(turn_start(s0, c, m, i, now));
            let ghost mut fst: Seq<Stack> = seq![*self];
            let ghost mut frs: Seq<Result<(), StackError>> = seq![Ok(())];
            assert(c.sent().take(0) =~= Seq::<(Header, Seq<u8>)>::empty());
            let mut k: usize = 0;
            while k < pending.len()
                invariant
                    self.wf(),
                    n == self.cf@.len(),
                    n == old(self).cf@.len(),
                    i < n,
                    k <= pending@.len(),
                    pending@.map_values(|f: Frame| f@) == c.sent(),
                    self.accept_all() == old(self).accept_all(),
                    turns_chain(i as nat, tst, trs, now),
                    tst[0] == *old(self),
                    tst.last() == s0,
                    trs.last() is Ok,
                    turn_start(s0, c, m, i, now),
                    frames_chain(c.sent().take(k as int), fst, frs, i, now),
                    fst[0] == m,
                    fst.last() == *self,
                    frs.last() is Ok,
                decreases pending@.len() - k,
            {
                let ghost s1 = *self;
                let ghost fv = c.sent()[k as int];
                let f = pending[k].duplicate();
                let copy = pending[k].duplicate();
                assert(f@ == fv);
                let sent = self.send_frame(f);
                let ghost s2 = *self;
                assert(send_effect(s1, s2, fv, sent));
                if sent.is_err() {
                    proof {
                        assert(frame_turn(s1, s2, fv, i, now, sent));
                        lemma_frames_chain_push(c.sent(), fst, frs, k as int, s2, sent, i, now);
                        lemma_process_stops(tst, trs, i as nat, n as nat, c, m, fst.push(s2), frs.push(sent), k as int, now);
                        assert(turns(*old(self), *self, old(self).cfs().len() as nat, now, sent));
                    }
                    return sent;
                }
                let res = self.handle_new_frame(copy, Some(i), now);
                proof {
                    assert(frame_turn(s1, *self, fv, i, now, res));
                    lemma_frames_chain_push(c.sent(), fst, frs, k as int, *self, res, i, now);
                    fst = fst.push(*self);
                    frs = frs.push(res);
                }
                if res.is_err() {
                    proof {
                        lemma_process_stops(tst, trs, i as nat, n as nat, c, m, fst, frs, k as int, now);
                        assert(turns(*old(self), *self, old(self).cfs().len() as nat, now, res));
                    }
                    return res;
                }
                k = k + 1;
            }
            proof {
                assert(c.sent().take(k as int) =~= c.sent());
                assert(frames_turn(m, *self, c.sent(), i, now, frs.last()));
                assert(cf_turn(s0, *self, i, now, frs.last()));
                lemma_turns_chain_push(i as nat, tst, trs, *self, frs.last(), now);
                tst = tst.push(*self);
                trs = trs.push(frs.last());
            }
            i = i + 1;
        }
        let ghost m = *self;
        assert(turns(*old(self), m, old(self).cfs().len() as nat, now, trs.last()));
        let ghost t0 = self.transport;
        let ghost o0 = self.outbox@;
        self.transport.process(&mut self.outbox);
        assert(exists|mid: Seq<Frame>| {
            &&& tp_tick_effect(t0.transport_packager, self.transport.transport_packager, o0, mid)
            &&& fp_tick_effect(t0.fast_packet, self.transport.fast_packet, mid, self.outbox@)
        });
        assert(self.cfs() == m.cfs());
        assert(m.transport() == t0 && m.outbox() == o0);
        assert(self.transport() == self.transport && self.outbox() == self.outbox@);
        assert(exists|mid: Seq<Frame>| {
            &&& tp_tick_effect(m.transport().transport_packager, self.transport().transport_packager, m.outbox(), mid)
            &&& fp_tick_effect(m.transport().fast_packet, self.transport().fast_packet, mid, self.outbox())
        });
        Ok(())
    }
}

/// One successful `process` step of a stack with a single control function
/// whose send queue is empty: the control function takes its address step
/// (giving `c`), ends with an empty send queue, and the stack's list of
/// addresses learns from the frame the step queued, if any.
proof fn lemma_single_cf_step(pre: Stack, post: Stack, now: u64) -> (c: ControlFunction)
    requires
        process_effect(pre, post, now, Ok(())),
        pre.cfs().len() == 1,
        pre.cfs()[0].sent().len() == 0,
    ensures
        cf_process_effect(pre.cfs()[0], c, pre.monitor(), now),
        c.sent().len() <= 1,
        post.cfs().len() == 1,
        post.cfs()[0].spec_state() == c.spec_state(),
        post.cfs()[0].spec_address() == c.spec_address(),
        post.cfs()[0].spec_name() == c.spec_name(),
        post.cfs()[0].spec_configurable() == c.spec_configurable(),
        post.cfs()[0].sent().len() == 0,
        c.sent().len() == 0 ==> post.monitor() == pre.monitor(),
        c.sent().len() == 1 ==> monitor_effect(pre.monitor(), post.monitor(), c.sent()[0]),
{
    let (m, r1) = choose|m: Stack, r1: Result<(), StackError>| {
        &&& #[trigger] turns(pre, m, pre.cfs().len() as nat, now, r1)
        &&& if r1 is Err {
            post == m && Ok::<(), StackError>(()) == r1
        } else {
            &&& post.cfs() == m.cfs()
            &&& post.received() == m.received()
            &&& post.monitor() == m.monitor()
            &&& post.accept_all() == m.accept_all()
            &&& exists|mid: Seq<Frame>| {
                &&& tp_tick_effect(m.transport().transport_packager, post.transport().transport_packager,
                    m.outbox(), mid)
                &&& fp_tick_effect(m.transport().fast_packet, post.transport().fast_packet, mid,
                    post.outbox())
            }
        }
    };
    assert(r1 is Ok);
    let (tst, trs) = choose|states: Seq<Stack>, rs: Seq<Result<(), StackError>>| {
        &&& #[trigger] turns_chain(1, states, rs, now)
        &&& states[0] == pre
        &&& m == states.last()
        &&& r1 == rs.last()
    };
    assert(cf_turn(tst[0], tst[1], 0, now, trs[1]));
    let (c, m0) = choose|c: ControlFunction, m0: Stack| #[trigger] turn_start(pre, c, m0, 0, now)
        && frames_turn(m0, m, c.sent(), 0, now, r1);
    let (fst, frs) = choose|states: Seq<Stack>, rs: Seq<Result<(), StackError>>| {
        &&& #[trigger] frames_chain(c.sent(), states, rs, 0, now)
        &&& states[0] == m0
        &&& m == states.last()
        &&& r1 == rs.last()
    };
    assert(c.sent().len() <= 1);
    if c.sent().len() == 1 {
        assert(frame_turn(fst[0], fst[1], c.sent()[0], 0, now, frs[1]));
        let (m1, rr) = choose|m1: Stack, rr: Result<(), StackError>| {
            &&& #[trigger] send_effect(m0, m1, c.sent()[0], rr)
            &&& if rr is Err {
                m == m1 && r1 == rr
            } else {
                show_effect(m1, m, c.sent()[0], Some(0usize), now, r1)
            }
        };
        assert(rr is Ok);
        assert(m.cfs()[0] == m1.cfs()[0]);
    }
    c
}

/// A stack with one control function of configurable address whose
/// preferred address nobody else uses puts it online at that address after
/// three successful `process` steps: at `t0`, more than 1500 ms later, and
/// more than 250 ms after that (gaps of more than half the clock's range read
/// as a clock that went back).
pub proof fn lemma_stack_claim_liveness(st: Seq<Stack>, t0: u64, t1: u64, t2: u64)
    requires
        st.len() == 4,
        st[0].cfs().len() == 1,
        st[0].cfs()[0].spec_state() == AddressState::Preferred,
        st[0].cfs()[0].spec_configurable(),
        st[0].cfs()[0].sent().len() == 0,
        process_effect(st[0], st[1], t0, Ok(())),
        process_effect(st[1], st[2], t1, Ok(())),
        process_effect(st[2], st[3], t2, Ok(())),
        t0 <= t1 <= t2,
        REQUEST_TIMEOUT_MS < t1 - t0 <= 0x7FFF_FFFF_FFFF_FFFF,
        VETO_TIMEOUT_MS < t2 - t1 <= 0x7FFF_FFFF_FFFF_FFFF,
    ensures
        st[3].cfs()[0].spec_state() == AddressState::AddressClaimed,
        st[3].cfs()[0].spec_address() == st[0].cfs()[0].spec_address(),
{
    let c0 = lemma_single_cf_step(st[0], st[1], t0);
    assert(c0.sent() =~= seq![request_claims_view()]);
    assert(st[1].monitor() == Map::<u8, Name>::empty());
    let c1 = lemma_single_cf_step(st[1], st[2], t1);
    assert(elapsed_spec(t1, t0) == Some((t1 - t0) as u64));
    assert(elapsed_spec(t2, t1) == Some((t2 - t1) as u64));
    assert(c1.spec_state() == AddressState::WaitForVeto(t1));
    lemma_single_cf_step(st[2], st[3], t2);
}

} // verus!
