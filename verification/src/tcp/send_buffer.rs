//! The sending half of a stream: what the application wrote is kept until it is acked, cut into
//! segments as the window allows, and sent again when its retry time has come. Times are in
//! nanoseconds since an arbitrary origin.

use std::collections::VecDeque;

use vstd::arithmetic::power2::{lemma2_to64, pow2};
use vstd::prelude::*;

use super::tcp_stream::{msgs_view, SendThreadMsg, StreamSendThreadMsg};
use super::{MAX_WINDOW_SIZE, MTU, TCP_BUF_SIZE};

verus! {

/// Note: in a weird implementation quirk Syn and Fin messages are retried 1 fewer times
pub const MAX_RETRIES: u8 = 4;

pub const RTO_LBOUND: u64 = 20_000_000;

pub const RTO_UBOUND: u64 = 60_000_000_000;

pub const INITIAL_SRTT: u64 = 1_500_000_000;

/// How many times longer a retry waits than a round trip takes.
pub const RTO_BETA: u64 = 2;

pub const ZERO_WINDOW_PROBE_TIMEOUT: u64 = 1_000_000_000;

pub const MAX_RETRY_TIMEOUT: u64 = 1_000_000_000;

/// How far back a retry is dated that is to happen at once.
pub const FAST_RETRY_AGE: u64 = 10_000_000_000;

pub const SEND_BUFFER_MAX_WINDOW_SIZE: usize = 32 * MTU;

/// Later times than this leave no room for the longest wait before a retry.
pub const MAX_TIME: u64 = 0xffff_ffff_ffff_ffff - 16 * RTO_UBOUND;

#[derive(Debug, Clone, Copy, PartialEq, Eq, Structural)]
pub enum WindowElementType {
    Data,
    Syn,
    Fin,
}

#[derive(Debug, Clone, Copy)]
pub enum CongestionControlStrategy {
    No,
    Reno(CongestionControlInfo),
}

#[derive(Debug, Clone, Copy)]
pub struct CongestionControlInfo {
    pub curr_start: u32,
    pub curr_window_size: usize,
    /// used for detecting dup acks
    pub last_ack: u32,
    pub dup_ack_count: u8,
    pub ssthresh: usize,
    pub drop_in_curr_window: bool,
}

#[derive(Debug, Clone, Copy, PartialEq, Eq, Structural)]
pub enum SendBufferState {
    /// Initial state. Transitions to SynSent when syn is sent
    Init,
    /// Syn has not been acked yet, data should be queued. Transitions to Ready when syn is acked
    SynSent,
    /// Syn has been acked and data can be sent. Transitions to Queueing while messages are being
    /// queued. Transitions to FinSent when Fin is queued
    Ready,
    /// Data is in the send buffer which is not in the window. Transitions to Ready when all of it
    /// is
    Queueing,
    /// Fin has been sent. Transitions to closed when Fin is acked or hits max retries
    FinSent,
    /// SendBuffer is dead
    _Closed,
}

#[derive(Debug, Clone, Copy)]
pub struct WindowElement {
    pub msg_type: WindowElementType,
    pub num_retries: u8,
    pub last_time_sent: u64,
    pub time_to_retry: u64,
    pub size: u32,
}

pub struct SendWindow {
    pub elems: VecDeque<WindowElement>,
    /// Refers to the first byte refered to by the first element of the sliding_window
    /// This should in general correspond to the last ack number received
    pub starting_sequence: u32,
    /// Number of bytes currently referenced by elements in the window
    pub bytes_in_window: usize,
    /// max_size is the max we are willing to send
    pub max_size: usize,
    pub congestion_control: CongestionControlStrategy,
    /// recv_window_size is the max they are willing to recveive
    pub recv_window_size: u16,
    pub zero_window_probing: bool,
    /// Smoothed Round Trip Time
    pub srtt: u64,
}

pub struct SendBuffer {
    pub state: SendBufferState,
    pub buf: SendData,
    /// Fields for sliding window
    pub window: SendWindow,
}

/// Why the send buffer turned a request down.
#[derive(Debug, Clone, Copy, PartialEq, Eq, Structural)]
pub enum SendBufferError {
    ConnectionClosing,
    UnexpectedAckOfSyn,
    AlreadyEstablished,
}

/// What an ack did.
pub struct AckOutcome {
    pub bytes_acked: u32,
    /// Whether the send thread has to be woken up
    pub wake_send_thread: bool,
    /// For each element that was acked as a whole the time since it was last sent
    pub rtts: Vec<u64>,
}

/// What a run of the timeout thread decides.
pub struct TimeoutStep {
    /// Whether an element is overdue, in which case the send thread has to be woken up
    pub expired: bool,
    /// Whether a closed window is being probed, in which case the send thread has to be woken up
    /// (too) and one pending wakeup of the timeout thread is to be ignored
    pub probing: bool,
    /// How long to wait for a wakeup
    pub timeout: u64,
}

/// What a run of the send thread did.
pub struct SendStep {
    /// What to send, in order
    pub messages: Vec<StreamSendThreadMsg>,
    /// Whether something was retried too often, in which case the thread ends
    pub stopped: bool,
}

pub struct SendData {
    pub data: VecDeque<u8>,
    /// sequence number of the byte returned by data.pop()
    pub first_sequnce_number: u32,
}

impl CongestionControlInfo {
    pub fn new() -> (info: CongestionControlInfo)
        ensures
            info == (CongestionControlInfo {
                curr_start: 0,
                curr_window_size: MTU,
                last_ack: 0,
                dup_ack_count: 0,
                ssthresh: usize::MAX,
                drop_in_curr_window: false,
            }),
    {
        CongestionControlInfo {
            // curr_start and last_ack are initialized in SendBuffer::new()
            curr_start: 0u32,
            curr_window_size: MTU,
            last_ack: 0u32,
            dup_ack_count: 0u8,
            ssthresh: usize::MAX,
            drop_in_curr_window: false,
        }
    }

    /// Whether `ack_num` is the fourth ack in a row that acks nothing new.
    pub open spec fn fast_retry(self, ack_num: u32) -> bool {
        ack_num == self.last_ack && self.dup_ack_count == 3
    }

    /// The window once a fast retry has halved it.
    pub open spec fn recovered_window(self, ack_num: u32) -> int {
        if !self.fast_retry(ack_num) {
            self.curr_window_size as int
        } else if self.curr_window_size / 2 < MTU {
            MTU as int
        } else {
            self.curr_window_size as int / 2
        }
    }

    /// Whether `ack_num` acks the whole window that was current when the round began.
    pub open spec fn round_over(self, ack_num: u32) -> bool {
        ack_num >= self.curr_start.wrapping_add(self.recovered_window(ack_num) as u32)
    }

    /// Whether the counters have room for another ack.
    pub open spec fn can_count(self, ack_num: u32) -> bool {
        &&& ack_num == self.last_ack ==> self.dup_ack_count < u8::MAX
        &&& self.round_over(ack_num) && !self.drop_in_curr_window ==> {
            let window = self.recovered_window(ack_num);
            if window < self.ssthresh {
                2 * window <= usize::MAX
            } else {
                window + MTU <= usize::MAX
            }
        }
    }

    /// `post` is this state after an ack of `ack_num`.
    pub open spec fn counts(self, ack_num: u32, post: CongestionControlInfo) -> bool {
        let window = self.recovered_window(ack_num);
        &&& post.last_ack == ack_num
        &&& post.dup_ack_count == if ack_num == self.last_ack {
            self.dup_ack_count + 1
        } else {
            0
        }
        &&& if !self.round_over(ack_num) {
            &&& post.curr_start == self.curr_start
            &&& post.curr_window_size == window
            &&& post.ssthresh == self.ssthresh
            &&& post.drop_in_curr_window == self.drop_in_curr_window
        } else {
            &&& post.curr_start == ack_num
            &&& !post.drop_in_curr_window
            &&& post.ssthresh == if self.drop_in_curr_window && window != MTU {
                window / 2
            } else {
                self.ssthresh as int
            }
            &&& post.curr_window_size == if self.drop_in_curr_window {
                MTU as int
            } else if window >= self.ssthresh {
                window + MTU
            } else if 2 * window < SEND_BUFFER_MAX_WINDOW_SIZE {
                2 * window
            } else {
                SEND_BUFFER_MAX_WINDOW_SIZE as int
            }
        }
    }

    /// Counts an ack: duplicates halve the window, and at the end of each round the window starts
    /// over if something had to be retried in it, else doubles up to `ssthresh` and grows by one
    /// segment from there on. Returns whether to fast retry.
    pub fn handle_ack(&mut self, ack_num: u32) -> (fast_retry: bool)
        requires
            old(self).can_count(ack_num),
        ensures
            fast_retry == old(self).fast_retry(ack_num),
            old(self).counts(ack_num, *final(self)),
            old(self).curr_window_size >= MTU ==> final(self).curr_window_size >= MTU,
    {
        let mut fast_retry = false;
        if ack_num == self.last_ack {
            if self.dup_ack_count == 3 {
                self.curr_window_size = self.curr_window_size / 2;
                if self.curr_window_size < MTU {
                    self.curr_window_size = MTU;
                }
                fast_retry = true;
            }
            self.dup_ack_count = self.dup_ack_count + 1;
        } else {
            self.last_ack = ack_num;
            self.dup_ack_count = 0;
        }

        if ack_num >= self.curr_start.wrapping_add(self.curr_window_size as u32) {
            self.curr_start = ack_num;
            if self.drop_in_curr_window {
                if self.curr_window_size != MTU {
                    self.ssthresh = self.curr_window_size / 2;
                }
                self.curr_window_size = MTU;
            } else if self.curr_window_size < self.ssthresh {
                self.curr_window_size = self.curr_window_size * 2;
                if self.curr_window_size > SEND_BUFFER_MAX_WINDOW_SIZE {
                    self.curr_window_size = SEND_BUFFER_MAX_WINDOW_SIZE;
                }
            } else {
                self.curr_window_size = self.curr_window_size + MTU;
            }
            self.drop_in_curr_window = false;
        }
        fast_retry
    }
}

/// The bytes that the elements refer to.
pub open spec fn total_size(elems: Seq<WindowElement>) -> int
    decreases elems.len(),
{
    if elems.len() == 0 {
        0
    } else {
        total_size(elems.drop_last()) + elems.last().size
    }
}

pub proof fn lemma_total_size_concat(a: Seq<WindowElement>, b: Seq<WindowElement>)
    ensures
        total_size(a + b) == total_size(a) + total_size(b),
    decreases b.len(),
{
    if b.len() == 0 {
        assert(a + b =~= a);
    } else {
        assert((a + b).drop_last() =~= a + b.drop_last());
        lemma_total_size_concat(a, b.drop_last());
    }
}

pub proof fn lemma_total_size_split(elems: Seq<WindowElement>, m: int)
    requires
        0 <= m <= elems.len(),
    ensures
        total_size(elems) == total_size(elems.take(m)) + total_size(elems.skip(m)),
{
    assert(elems =~= elems.take(m) + elems.skip(m));
    lemma_total_size_concat(elems.take(m), elems.skip(m));
}

pub proof fn lemma_total_size_nonnegative(elems: Seq<WindowElement>)
    ensures
        total_size(elems) >= 0,
    decreases elems.len(),
{
    if elems.len() > 0 {
        lemma_total_size_nonnegative(elems.drop_last());
    }
}

/// The elements before index `m` are no larger than all of them.
pub proof fn lemma_total_size_prefix(elems: Seq<WindowElement>, m: int)
    requires
        0 <= m < elems.len(),
    ensures
        0 <= total_size(elems.take(m)),
        total_size(elems.take(m + 1)) == total_size(elems.take(m)) + elems[m].size,
        total_size(elems.take(m + 1)) <= total_size(elems),
{
    lemma_total_size_nonnegative(elems.take(m));
    lemma_total_size_split(elems, m + 1);
    lemma_total_size_nonnegative(elems.skip(m + 1));
    assert(elems.take(m + 1).drop_last() =~= elems.take(m));
}

/// `post` are the elements `pre` without their first `k` bytes: `m` of them are gone and the next
/// one may have lost a part.
pub open spec fn drops_bytes(
    pre: Seq<WindowElement>,
    post: Seq<WindowElement>,
    k: int,
    m: int,
) -> bool {
    let rest = k - total_size(pre.take(m));
    &&& 0 <= m <= pre.len()
    &&& 0 <= rest
    &&& m > 0 ==> total_size(pre.take(m - 1)) < k
    &&& if rest == 0 {
        post == pre.skip(m)
    } else {
        &&& m < pre.len()
        &&& rest < pre[m].size
        &&& post == pre.skip(m).update(
            0,
            WindowElement { size: (pre[m].size - rest) as u32, ..pre[m] },
        )
    }
}

impl SendWindow {
    /// The elements stand for the data in flight in order, at most followed by a fin. A syn stands
    /// alone.
    pub open spec fn wf(self) -> bool {
        &&& self.bytes_in_window <= MAX_WINDOW_SIZE
        &&& total_size(self.elems@) == self.bytes_in_window + if self.fin_queued() {
            1int
        } else {
            0
        }
        &&& forall|i: int|
            0 <= i < self.elems@.len() ==> {
                let elem = #[trigger] self.elems@[i];
                match elem.msg_type {
                    WindowElementType::Data => elem.size > 0,
                    WindowElementType::Syn => elem.size == 0 && self.elems@.len() == 1,
                    WindowElementType::Fin => elem.size == 1 && i == self.elems@.len() - 1,
                }
            }
    }

    /// Whether no element has been retried too often.
    pub open spec fn retries_left(self) -> bool {
        forall|i: int|
            0 <= i < self.elems@.len() ==> (#[trigger] self.elems@[i]).num_retries <= MAX_RETRIES
    }

    pub open spec fn fin_queued(self) -> bool {
        self.elems@.len() > 0 && self.elems@.last().msg_type == WindowElementType::Fin
    }

    /// Whether all elements are data, or else a fin that comes last.
    pub open spec fn no_syn(self) -> bool {
        forall|i: int|
            0 <= i < self.elems@.len() ==> (#[trigger] self.elems@[i]).msg_type
                != WindowElementType::Syn
    }

    /// How many bytes of the window an ack of `ack_num` acks, wherever in the sequence space the
    /// window lies. An ack of what is not in the window acks nothing.
    pub open spec fn acked(self, ack_num: u32) -> int {
        let k = ack_num.wrapping_sub(self.starting_sequence);
        if k <= self.bytes_in_window {
            k as int
        } else {
            0
        }
    }

    /// The time to wait for an ack before a retry.
    pub open spec fn retry_timeout(self) -> u64 {
        let scaled = RTO_BETA * self.srtt;
        if scaled < RTO_LBOUND {
            RTO_LBOUND
        } else if scaled > RTO_UBOUND {
            RTO_UBOUND
        } else {
            scaled as u64
        }
    }

    /// The elements once a fast retry has made the first of them due.
    pub open spec fn elems_after_fast_retry(self, fast_retry: bool, now: u64) -> Seq<
        WindowElement,
    > {
        if fast_retry && self.elems@.len() > 0 {
            self.elems@.update(
                0,
                WindowElement {
                    time_to_retry: if now < FAST_RETRY_AGE {
                        0
                    } else {
                        (now - FAST_RETRY_AGE) as u64
                    },
                    ..self.elems@[0]
                },
            )
        } else {
            self.elems@
        }
    }

    pub fn rto(&self) -> (rto: u64)
        ensures
            rto == self.retry_timeout(),
            RTO_LBOUND <= rto <= RTO_UBOUND,
    {
        // does not overflow below the upper bound
        if self.srtt > RTO_UBOUND / RTO_BETA {
            return RTO_UBOUND;
        }
        let scaled: u64 = self.srtt * RTO_BETA;
        if scaled < RTO_LBOUND {
            RTO_LBOUND
        } else {
            scaled
        }
    }

    pub fn send_syn(&mut self, now: u64)
        ensures
            final(self).elems@ == old(self).elems@.push(
                WindowElement {
                    msg_type: WindowElementType::Syn,
                    num_retries: 0,
                    last_time_sent: now,
                    time_to_retry: now,
                    size: 0,
                },
            ),
            old(self).same_but_elems(*final(self)),
    {
        self.elems.push_back(
            WindowElement {
                msg_type: WindowElementType::Syn,
                num_retries: 0u8,
                last_time_sent: now,
                time_to_retry: now,
                size: 0u32,
            },
        )
    }

    pub fn send_fin(&mut self, now: u64)
        ensures
            final(self).elems@ == old(self).elems@.push(
                WindowElement {
                    msg_type: WindowElementType::Fin,
                    num_retries: 0,
                    last_time_sent: now,
                    time_to_retry: now,
                    size: 1,
                },
            ),
            old(self).same_but_elems(*final(self)),
    {
        self.elems.push_back(
            WindowElement {
                msg_type: WindowElementType::Fin,
                num_retries: 0u8,
                last_time_sent: now,
                time_to_retry: now,
                size: 1u32,
            },
        )
    }

    /// Whether `post` differs from this window in its elements only.
    pub open spec fn same_but_elems(self, post: SendWindow) -> bool {
        &&& post.starting_sequence == self.starting_sequence
        &&& post.bytes_in_window == self.bytes_in_window
        &&& post.max_size == self.max_size
        &&& post.congestion_control == self.congestion_control
        &&& post.recv_window_size == self.recv_window_size
        &&& post.zero_window_probing == self.zero_window_probing
        &&& post.srtt == self.srtt
    }

    pub fn handle_ack_of_syn(&mut self, window_size: u16)
        requires
            old(self).elems@.len() == 1,
            old(self).elems@[0].msg_type == WindowElementType::Syn,
        ensures
            final(self).elems@ == Seq::<WindowElement>::empty(),
            (SendWindow { recv_window_size: window_size, ..*old(self) }).same_but_elems(
                *final(self),
            ),
    {
        self.recv_window_size = window_size;
        let _ = self.elems.pop_front();
        assert(self.elems@ =~= Seq::<WindowElement>::empty());
    }

    pub fn handle_ack_of_fin(&mut self)
        requires
            old(self).fin_queued(),
        ensures
            final(self).elems@ == old(self).elems@.drop_last(),
            old(self).same_but_elems(*final(self)),
    {
        // Pop from the back because we might have old messages we are still retrying
        let _ = self.elems.pop_back();
        assert(self.elems@ =~= old(self).elems@.drop_last());
    }

    /// Whether the counters of the congestion control have room for another ack.
    pub open spec fn can_count(self, ack_num: u32) -> bool {
        match self.congestion_control {
            CongestionControlStrategy::No => true,
            CongestionControlStrategy::Reno(info) => info.can_count(ack_num),
        }
    }

    /// Whether the counters of the congestion control have room for another ack.
    pub fn can_count_ack(&self, ack_num: u32) -> (can: bool)
        ensures
            can == self.can_count(ack_num),
    {
        match &self.congestion_control {
            CongestionControlStrategy::No => true,
            CongestionControlStrategy::Reno(info) => {
                let mut window: usize = info.curr_window_size;
                if ack_num == info.last_ack {
                    if info.dup_ack_count == u8::MAX {
                        return false;
                    }
                    if info.dup_ack_count == 3 {
                        window = if window / 2 < MTU {
                            MTU
                        } else {
                            window / 2
                        };
                    }
                }
                if ack_num < info.curr_start.wrapping_add(window as u32)
                    || info.drop_in_curr_window {
                    true
                } else if window < info.ssthresh {
                    window <= usize::MAX / 2
                } else {
                    window <= usize::MAX - MTU
                }
            },
        }
    }

    pub open spec fn fast_retry(self, ack_num: u32) -> bool {
        match self.congestion_control {
            CongestionControlStrategy::No => false,
            CongestionControlStrategy::Reno(info) => info.fast_retry(ack_num),
        }
    }

    /// How many bytes are taken to be acked by an ack that comes while the peer's closed window is
    /// being probed.
    pub open spec fn acked_or_probed(self, ack_num: u32) -> int {
        if self.acked(ack_num) > 0 {
            self.acked(ack_num)
        } else if self.zero_window_probing {
            1
        } else {
            0
        }
    }

    /// `post` is this window after an ack of `ack_num`, and `rtts` are the times since the elements
    /// popped were last sent.
    pub open spec fn acks(
        self,
        post: SendWindow,
        ack_num: u32,
        window_size: u16,
        now: u64,
        rtts: Seq<u64>,
    ) -> bool {
        let due = self.elems_after_fast_retry(self.fast_retry(ack_num), now);
        &&& post.starting_sequence == self.starting_sequence.wrapping_add(
            self.acked_or_probed(ack_num) as u32,
        )
        &&& post.bytes_in_window == self.bytes_in_window - self.acked(ack_num)
        &&& post.recv_window_size == window_size
        &&& post.zero_window_probing == (self.zero_window_probing && self.acked(ack_num) > 0)
        &&& post.srtt == self.srtt
        &&& drops_bytes(due, post.elems@, self.acked(ack_num), rtts.len() as int)
        &&& forall|i: int|
            0 <= i < rtts.len() ==> #[trigger] rtts[i] == if now < self.elems@[i].last_time_sent {
                0
            } else {
                now - self.elems@[i].last_time_sent
            }
        &&& match self.congestion_control {
            CongestionControlStrategy::No => {
                &&& post.congestion_control == self.congestion_control
                &&& post.max_size == self.max_size
            },
            CongestionControlStrategy::Reno(info) => {
                let counted = post.congestion_control->Reno_0;
                &&& post.congestion_control is Reno
                &&& info.counts(ack_num, counted)
                &&& post.max_size == counted.curr_start.wrapping_add(
                    counted.curr_window_size as u32,
                ).wrapping_sub(self.starting_sequence) as usize
            },
        }
    }

    /// Returns the number of bytes popped off of the window, whether to fast retry, and for each
    /// element popped the time since it was last sent
    #[verifier::spinoff_prover]
    #[verifier::rlimit(60)]
    pub fn handle_ack(&mut self, ack_num: u32, window_size: u16, now: u64) -> (acked: (
        u32,
        bool,
        Vec<u64>,
    ))
        requires
            old(self).wf(),
            old(self).can_count(ack_num),
        ensures
            final(self).wf(),
            acked.0 == old(self).acked_or_probed(ack_num),
            acked.1 == old(self).fast_retry(ack_num),
            old(self).acks(*final(self), ack_num, window_size, now, acked.2@),
            final(self).fin_queued() == old(self).fin_queued(),
            old(self).no_syn() ==> final(self).no_syn(),
            old(self).retries_left() ==> final(self).retries_left(),
    {
        let starting_sequence: u32 = self.starting_sequence;
        let mut fast_retry = false;
        match &self.congestion_control {
            CongestionControlStrategy::No => (),
            CongestionControlStrategy::Reno(info) => {
                let mut info = *info;
                fast_retry = info.handle_ack(ack_num);
                self.max_size = info.curr_start.wrapping_add(
                    info.curr_window_size as u32,
                ).wrapping_sub(starting_sequence) as usize;
                self.congestion_control = CongestionControlStrategy::Reno(info);
            },
        }

        if fast_retry {
            if let Some(elem) = self.elems.pop_front() {
                let mut elem = elem;
                elem.time_to_retry = now.saturating_sub(FAST_RETRY_AGE);
                self.elems.push_front(elem);
                assert(self.elems@ =~= old(self).elems_after_fast_retry(fast_retry, now));
            }
        }
        let ghost due = self.elems@;
        assert(due == old(self).elems_after_fast_retry(fast_retry, now));
        proof {
            lemma_same_sizes(old(self).elems@, due);
        }

        self.recv_window_size = window_size;
        let window_start: u32 = self.starting_sequence;
        let window_end: u32 = window_start.wrapping_add(self.bytes_in_window as u32);
        let in_window_no_wrapping: bool = ack_num > window_start && ack_num <= window_end;
        let in_window_wrapping: bool = window_end < window_start && (ack_num > window_start
            || ack_num <= window_end);
        if !(in_window_wrapping || in_window_no_wrapping) {
            assert(due.skip(0) =~= due);
            if self.zero_window_probing {
                self.zero_window_probing = false;
                // zero window probe byte not in window
                self.starting_sequence = self.starting_sequence.wrapping_add(1);
                return (1u32, fast_retry, Vec::new());
            }
            return (0u32, fast_retry, Vec::new());
        }
        let bytes_acked: u32 = ack_num.wrapping_sub(window_start);
        let mut bytes_popped: u32 = 0u32;
        let mut rtts: Vec<u64> = Vec::new();
        let ghost unpopped = *self;
        let ghost mut m: int = 0;
        assert(due.skip(0) =~= due);
        while bytes_popped < bytes_acked
            invariant_except_break
                self.elems@ == due.skip(m),
                bytes_popped == total_size(due.take(m)),
            invariant
                unpopped.same_but_elems(*self),
                due == old(self).elems_after_fast_retry(fast_retry, now),
                0 <= m <= due.len(),
                m == rtts@.len(),
                bytes_popped <= bytes_acked,
                m > 0 ==> total_size(due.take(m - 1)) < bytes_acked,
                bytes_acked <= total_size(due) <= u32::MAX,
                forall|i: int|
                    0 <= i < m ==> #[trigger] rtts@[i] == if now
                        < old(self).elems@[i].last_time_sent {
                        0
                    } else {
                        now - old(self).elems@[i].last_time_sent
                    },
            ensures
                bytes_popped == bytes_acked,
                drops_bytes(due, self.elems@, bytes_acked as int, m),
            decreases due.len() - m,
        {
            proof {
                if m == due.len() {
                    assert(due.take(m) =~= due);
                } else {
                    lemma_total_size_prefix(due, m);
                }
            }
            let curr_elem = self.elems.pop_front().unwrap();
            assert(curr_elem == due[m]);
            // handles case where ack a part of a packet
            if bytes_popped + curr_elem.size > bytes_acked {
                // the round trip time is not sampled here since something weird happened
                let bytes_to_ack_from_curr: u32 = bytes_acked - bytes_popped;
                let mut curr_elem = curr_elem;
                curr_elem.size = curr_elem.size - bytes_to_ack_from_curr;
                bytes_popped = bytes_popped + bytes_to_ack_from_curr;
                self.elems.push_front(curr_elem);
                assert(self.elems@ =~= due.skip(m).update(0, curr_elem));
                break;
            } else {
                rtts.push(now.saturating_sub(curr_elem.last_time_sent));
                bytes_popped = bytes_popped + curr_elem.size;
                proof {
                    m = m + 1;
                    assert(self.elems@ =~= due.skip(m));
                }
            }
        }

        self.starting_sequence = self.starting_sequence.wrapping_add(bytes_popped);
        self.bytes_in_window = self.bytes_in_window - bytes_popped as usize;
        proof {
            lemma_drops_bytes_wf(*old(self), *self, due, bytes_acked as int, m);
        }
        (bytes_popped, fast_retry, rtts)
    }
}

/// Whether the element at `i` is the first whose retry time has come.
pub open spec fn first_due(elems: Seq<WindowElement>, now: u64, i: int) -> bool {
    &&& 0 <= i < elems.len()
    &&& elems[i].time_to_retry <= now
    &&& forall|j: int| 0 <= j < i ==> (#[trigger] elems[j]).time_to_retry > now
}

/// The element as it stands after another retry.
pub open spec fn retried_elem(elem: WindowElement, now: u64, rto: u64) -> WindowElement {
    let num_retries = (elem.num_retries + 1) as u8;
    if num_retries > MAX_RETRIES {
        WindowElement { num_retries, ..elem }
    } else {
        WindowElement {
            num_retries,
            last_time_sent: now,
            time_to_retry: (now + rto * pow2(num_retries as nat)) as u64,
            ..elem
        }
    }
}

/// 2 to the power of the number of retries.
fn backoff(num_retries: u8) -> (factor: u64)
    requires
        num_retries <= MAX_RETRIES,
    ensures
        factor == pow2(num_retries as nat),
        factor <= 16,
{
    proof {
        lemma2_to64();
    }
    match num_retries {
        0 => 1,
        1 => 2,
        2 => 4,
        3 => 8,
        _ => 16,
    }
}

impl SendWindow {
    /// The sequence number of the first byte of the element at `i`.
    pub open spec fn sequence_of(self, i: int) -> u32 {
        self.starting_sequence.wrapping_add(total_size(self.elems@.take(i)) as u32)
    }

    /// The message that sends the element at `i` again.
    pub open spec fn retry_msg(self, buf: SendData, i: int) -> SendThreadMsg {
        let seq = self.sequence_of(i);
        match self.elems@[i].msg_type {
            WindowElementType::Syn => SendThreadMsg::Syn,
            WindowElementType::Data => SendThreadMsg::Outgoing(
                seq,
                buf.data@.subrange(
                    buf.offset(seq),
                    buf.offset(seq) + self.elems@[i].size,
                ),
            ),
            WindowElementType::Fin => SendThreadMsg::Fin(seq),
        }
    }

    /// Whether the element at `i` can be retried: it has not been retried too often, and the buffer
    /// holds its data.
    pub open spec fn retriable(self, buf: SendData, i: int) -> bool {
        &&& self.elems@[i].num_retries <= MAX_RETRIES
        &&& self.elems@[i].msg_type == WindowElementType::Data ==> buf.offset(self.sequence_of(i))
            + self.elems@[i].size <= buf.data@.len()
    }

    /// The sequence number past the last element.
    pub fn end_sequence(&self) -> (seq: u32)
        requires
            self.wf(),
        ensures
            seq == self.sequence_of(self.elems@.len() as int),
            seq == self.starting_sequence.wrapping_add(
                (self.bytes_in_window + if self.fin_queued() {
                    1int
                } else {
                    0
                }) as u32,
            ),
    {
        let n: usize = self.elems.len();
        let mut curr_seq: u32 = self.starting_sequence;
        let mut i: usize = 0;
        while i < n
            invariant
                i <= n,
                n == self.elems@.len(),
                total_size(self.elems@) <= u32::MAX,
                curr_seq == self.sequence_of(i as int),
            decreases n - i,
        {
            proof {
                lemma_total_size_prefix(self.elems@, i as int);
            }
            curr_seq = curr_seq.wrapping_add(self.elems[i].size);
            i += 1;
        }
        assert(self.elems@.take(n as int) =~= self.elems@);
        curr_seq
    }

    /// Retries the first element whose time has come, if there is one. Returns its index, the
    /// message to send and whether it has now been retried too often.
    pub fn retry_due(&mut self, buf: &SendData, now: u64) -> (retry: Option<
        (usize, StreamSendThreadMsg, bool),
    >)
        requires
            old(self).wf(),
            now <= MAX_TIME,
            forall|i: int|
                first_due(old(self).elems@, now, i) ==> #[trigger] old(self).retriable(*buf, i),
        ensures
            match retry {
                None => {
                    &&& *final(self) == *old(self)
                    &&& forall|i: int| !first_due(old(self).elems@, now, i)
                },
                Some((index, msg, exhausted)) => {
                    &&& first_due(old(self).elems@, now, index as int)
                    &&& msg@ == old(self).retry_msg(*buf, index as int)
                    &&& exhausted == (old(self).elems@[index as int].num_retries == MAX_RETRIES)
                    &&& old(self).same_but_elems(*final(self))
                    &&& final(self).elems@ == old(self).elems@.update(
                        index as int,
                        retried_elem(
                            old(self).elems@[index as int],
                            now,
                            old(self).retry_timeout(),
                        ),
                    )
                },
            },
    {
        let n: usize = self.elems.len();
        let rto: u64 = self.rto();
        let mut curr_seq: u32 = self.starting_sequence;
        let mut i: usize = 0;
        while i < n && self.elems[i].time_to_retry > now
            invariant
                i <= n,
                n == self.elems@.len(),
                total_size(self.elems@) <= u32::MAX,
                curr_seq == self.sequence_of(i as int),
                forall|j: int| 0 <= j < i ==> (#[trigger] self.elems@[j]).time_to_retry > now,
            decreases n - i,
        {
            proof {
                lemma_total_size_prefix(self.elems@, i as int);
            }
            curr_seq = curr_seq.wrapping_add(self.elems[i].size);
            i += 1;
        }
        if i == n {
            return None;
        }
        assert(first_due(self.elems@, now, i as int));
        assert(self.retriable(*buf, i as int));
        let mut elem = self.elems[i];
        let msg = match elem.msg_type {
            WindowElementType::Syn => StreamSendThreadMsg::Syn,
            WindowElementType::Data => StreamSendThreadMsg::Outgoing(
                curr_seq,
                buf.read(curr_seq, elem.size as usize),
            ),
            WindowElementType::Fin => StreamSendThreadMsg::Fin(curr_seq),
        };
        elem.num_retries = elem.num_retries + 1;
        let exhausted: bool = elem.num_retries > MAX_RETRIES;
        if !exhausted {
            let factor: u64 = backoff(elem.num_retries);
            assert(0 <= rto * factor <= 16 * RTO_UBOUND) by (nonlinear_arith)
                requires
                    0 <= rto <= RTO_UBOUND,
                    0 <= factor <= 16,
            ;
            elem.last_time_sent = now;
            elem.time_to_retry = now + rto * factor;
        }
        let _ = self.elems.remove(i);
        self.elems.insert(i, elem);
        assert(self.elems@ =~= old(self).elems@.update(i as int, elem));
        Some((i, msg, exhausted))
    }
}

/// The number of segments that `n` bytes are cut into.
pub open spec fn segment_count(n: int) -> nat {
    ((n + MTU - 1) / (MTU as int)) as nat
}

/// The size of segment `j` of `n` bytes: all are full but the last.
pub open spec fn segment_size(n: int, j: int) -> int {
    if n - j * MTU < MTU {
        n - j * MTU
    } else {
        MTU as int
    }
}

/// The window elements for `n` bytes that are sent for the first time.
pub open spec fn segment_elems(n: int, now: u64, rto: u64) -> Seq<WindowElement> {
    Seq::new(
        segment_count(n),
        |j: int|
            WindowElement {
                msg_type: WindowElementType::Data,
                num_retries: 0,
                last_time_sent: now,
                time_to_retry: (now + rto) as u64,
                size: segment_size(n, j) as u32,
            },
    )
}

impl SendBuffer {
    pub open spec fn wf(self) -> bool {
        &&& self.buf.wf()
        &&& self.window.wf()
        &&& self.window.starting_sequence == self.buf.first_sequnce_number
        &&& self.window.fin_queued() ==> {
            &&& self.state == SendBufferState::FinSent || self.state == SendBufferState::_Closed
            &&& self.buf.data@.len() <= self.window.bytes_in_window
        }
        &&& self.state == SendBufferState::FinSent ==> self.window.fin_queued()
        &&& match self.state {
            SendBufferState::Init => self.window.elems@.len() == 0 && self.buf.data@.len() == 0,
            SendBufferState::SynSent => {
                &&& self.window.elems@.len() == 1
                &&& self.window.elems@[0].msg_type == WindowElementType::Syn
                &&& self.buf.data@.len() == 0
            },
            SendBufferState::Ready | SendBufferState::FinSent => {
                &&& self.window.no_syn()
                &&& self.buf.data@.len() <= self.window.bytes_in_window
            },
            SendBufferState::Queueing => self.window.no_syn(),
            SendBufferState::_Closed => self.window.no_syn() || self.buf.data@.len() == 0,
        }
    }

    /// The number of bytes at the end of the buffer that are not in the window yet.
    pub open spec fn unsent(self) -> int {
        if self.window.fin_queued() || self.buf.data@.len() <= self.window.bytes_in_window {
            0
        } else {
            self.buf.data@.len() - self.window.bytes_in_window
        }
    }

    /// The smaller one of the windows that either side allows.
    pub open spec fn allowed(self) -> int {
        if self.window.max_size < self.window.recv_window_size {
            self.window.max_size as int
        } else {
            self.window.recv_window_size as int
        }
    }

    /// The number of unsent bytes that there is room for in the window.
    pub open spec fn sendable(self) -> int {
        let room = self.allowed() - self.window.bytes_in_window;
        if room <= 0 {
            0
        } else if room < self.unsent() {
            room
        } else {
            self.unsent()
        }
    }

    /// The message that sends the `size` bytes of the buffer from index `at` on.
    pub open spec fn data_msg(self, at: int, size: int) -> SendThreadMsg {
        SendThreadMsg::Outgoing(
            self.window.starting_sequence.wrapping_add(at as u32),
            self.buf.data@.subrange(at, at + size),
        )
    }

    /// The messages that send the first `n` unsent bytes.
    pub open spec fn segment_msgs(self, n: int) -> Seq<SendThreadMsg> {
        Seq::new(
            segment_count(n),
            |j: int|
                self.data_msg(self.window.bytes_in_window + j * MTU, segment_size(n, j)),
        )
    }

    /// Sends as many unsent bytes as there is room for in the window.
    fn send_segments(&mut self, now: u64, messages: &mut Vec<StreamSendThreadMsg>)
        requires
            old(self).wf(),
            now <= MAX_TIME,
        ensures
            final(self).wf(),
            final(self).state == old(self).state,
            final(self).buf == old(self).buf,
            ({
                let n = old(self).sendable();
                &&& msgs_view(final(messages)@) == msgs_view(old(messages)@) + old(
                    self,
                ).segment_msgs(n)
                &&& final(self).window.elems@ == old(self).window.elems@ + segment_elems(
                    n,
                    now,
                    old(self).window.retry_timeout(),
                )
                &&& (SendWindow {
                    bytes_in_window: (old(self).window.bytes_in_window + n) as usize,
                    recv_window_size: (old(self).window.recv_window_size - n) as u16,
                    ..old(self).window
                }).same_but_elems(final(self).window)
            }),
    {
        let ghost pre = *self;
        let ghost n = self.sendable();
        let ghost elems = segment_elems(n, now, self.window.retry_timeout());
        let ghost msgs = self.segment_msgs(n);
        let ghost start = self.window.bytes_in_window as int;
        let ghost mut j: int = 0;
        let rto: u64 = self.window.rto();
        let mut curr_seq: u32 = self.window.end_sequence();
        let mut distance_to_end: usize = match self.buf.dist_to_end_from_seq(curr_seq) {
            Some(d) => d,
            None => 0,
        };
        assert(distance_to_end == self.unsent());
        let max_window_size: usize = if self.window.max_size < self.window.recv_window_size as usize {
            self.window.max_size
        } else {
            self.window.recv_window_size as usize
        };
        assert(self.window.elems@ =~= pre.window.elems@ + elems.take(0));
        assert(msgs_view(messages@) =~= msgs_view(old(messages)@) + msgs.take(0));
        while self.window.bytes_in_window < max_window_size && distance_to_end > 0
            invariant
                pre.wf(),
                self.wf(),
                now <= MAX_TIME,
                n == pre.sendable(),
                start == pre.window.bytes_in_window,
                rto == pre.window.retry_timeout(),
                rto <= RTO_UBOUND,
                elems == segment_elems(n, now, rto),
                msgs == pre.segment_msgs(n),
                max_window_size == pre.allowed(),
                0 <= j <= segment_count(n),
                self.window.bytes_in_window - start == if j * MTU < n {
                    j * MTU
                } else {
                    n
                },
                distance_to_end == pre.unsent() - (self.window.bytes_in_window - start),
                distance_to_end > 0 ==> !pre.window.fin_queued(),
                distance_to_end > 0 ==> curr_seq == pre.window.starting_sequence.wrapping_add(
                    self.window.bytes_in_window as u32,
                ),
                self.window.elems@ == pre.window.elems@ + elems.take(j),
                msgs_view(messages@) == msgs_view(old(messages)@) + msgs.take(j),
                self.state == pre.state,
                self.buf == pre.buf,
                (SendWindow {
                    bytes_in_window: self.window.bytes_in_window,
                    recv_window_size: (pre.window.recv_window_size - (self.window.bytes_in_window
                        - start)) as u16,
                    ..pre.window
                }).same_but_elems(self.window),
            decreases distance_to_end,
        {
            let bytes_left_to_send: usize = max_window_size - self.window.bytes_in_window;
            let mut bytes_to_send: usize = if bytes_left_to_send < MTU {
                bytes_left_to_send
            } else {
                MTU
            };
            if distance_to_end < bytes_to_send {
                bytes_to_send = distance_to_end;
            }
            assert(bytes_to_send == segment_size(n, j));
            assert(j < segment_count(n));
            let data = self.buf.read(curr_seq, bytes_to_send);
            let msg = StreamSendThreadMsg::Outgoing(curr_seq, data);
            assert(msg@ == msgs[j]);
            let elem = WindowElement {
                msg_type: WindowElementType::Data,
                num_retries: 0,
                last_time_sent: now,
                time_to_retry: now + rto,
                size: bytes_to_send as u32,
            };
            assert(elem == elems[j]);
            let ghost before = self.window;
            let ghost sent = messages@;
            messages.push(msg);
            self.window.bytes_in_window = self.window.bytes_in_window + bytes_to_send;
            self.window.recv_window_size = self.window.recv_window_size - bytes_to_send as u16;
            curr_seq = curr_seq.wrapping_add(bytes_to_send as u32);
            distance_to_end = distance_to_end - bytes_to_send;
            self.window.elems.push_back(elem);
            proof {
                assert(messages@ == sent.push(msg));
                assert(msgs_view(messages@) =~= msgs_view(sent).push(msg@));
                assert(msgs.take(j + 1) =~= msgs.take(j).push(msgs[j]));
                assert(elems.take(j + 1) =~= elems.take(j).push(elems[j]));
                assert(self.window.elems@ =~= before.elems@.push(elem));
                assert(self.window.elems@.drop_last() =~= before.elems@);
                assert(self.window.elems@ =~= pre.window.elems@ + elems.take(j + 1));
                assert(msgs_view(messages@) =~= msgs_view(old(messages)@) + msgs.take(j + 1));
                j = j + 1;
            }
        }
        assert(j == segment_count(n));
        assert(msgs.take(j) =~= msgs);
        assert(elems.take(j) =~= elems);
    }
}

impl SendBuffer {
    /// Whether what a run of the send thread would retry can be retried.
    pub open spec fn retry_in_buffer(self, now: u64) -> bool {
        forall|i: int|
            first_due(self.window.elems@, now, i) ==> #[trigger] self.window.retriable(
                self.buf,
                i,
            )
    }

    /// The state after a retry at `now` of the element at `i`, which is one too many if there have
    /// been as many as there may be.
    pub open spec fn after_retry(self, post: SendBuffer, now: u64, i: int) -> bool {
        &&& post.state == if self.window.elems@[i].num_retries >= MAX_RETRIES {
            SendBufferState::_Closed
        } else {
            self.state
        }
        &&& post.buf == self.buf
        &&& self.window.same_but_elems(post.window)
        &&& post.window.elems@ == self.window.elems@.update(
            i,
            retried_elem(self.window.elems@[i], now, self.window.retry_timeout()),
        )
    }

    /// The message that probes a closed window of the peer with the first unsent byte.
    pub open spec fn probe_msgs(self) -> Seq<SendThreadMsg> {
        if self.window.recv_window_size == 0 && self.unsent() > 0 {
            seq![self.data_msg(self.window.bytes_in_window as int, 1)]
        } else {
            Seq::empty()
        }
    }

    /// `post` is this buffer once `messages` have been sent for the bytes that are not in the
    /// window: a probe where the peer's window is closed, and segments where there is room.
    /// `retried` says whether data was sent again before.
    pub open spec fn sends_new(
        self,
        post: SendBuffer,
        now: u64,
        messages: Seq<SendThreadMsg>,
        retried: bool,
    ) -> bool {
        let n = self.sendable();
        let bytes_in_window = self.window.bytes_in_window + n;
        &&& messages == self.probe_msgs() + self.segment_msgs(n)
        &&& post.buf == self.buf
        &&& post.state == if self.state == SendBufferState::Queueing && bytes_in_window
            == self.buf.data@.len() {
            SendBufferState::Ready
        } else {
            self.state
        }
        &&& post.window.elems@ == self.window.elems@ + segment_elems(
            n,
            now,
            self.window.retry_timeout(),
        )
        &&& (SendWindow {
            bytes_in_window: bytes_in_window as usize,
            recv_window_size: (self.window.recv_window_size - n) as u16,
            zero_window_probing: self.window.zero_window_probing || self.probe_msgs().len() > 0,
            congestion_control: self.window.congestion_control.noting(retried),
            ..self.window
        }).same_but_elems(post.window)
    }

    /// What a run of the send thread at `now` does: retry the first element that is due, and unless
    /// that one has been retried too often send what the window has room for.
    pub open spec fn runs(self, post: SendBuffer, now: u64, step: SendStep) -> bool {
        let sent = msgs_view(step.messages@);
        ||| {
            &&& forall|i: int| !first_due(self.window.elems@, now, i)
            &&& !step.stopped
            &&& self.sends_new(post, now, sent, false)
        }
        ||| exists|i: int|
            #![trigger self.window.elems@[i]]
            {
                let elem = self.window.elems@[i];
                let msg = self.window.retry_msg(self.buf, i);
                &&& first_due(self.window.elems@, now, i)
                &&& step.stopped == (elem.num_retries == MAX_RETRIES)
                &&& if step.stopped {
                    &&& sent == seq![msg, SendThreadMsg::Shutdown]
                    &&& self.after_retry(post, now, i)
                } else {
                    &&& sent.len() > 0
                    &&& sent[0] == msg
                    &&& exists|mid: SendBuffer| #[trigger]
                        self.after_retry(mid, now, i) && mid.sends_new(
                            post,
                            now,
                            sent.skip(1),
                            elem.msg_type == WindowElementType::Data,
                        )
                }
            }
    }

    /// Sends what is not in the window yet: a probe where the peer's window is closed, and segments
    /// where there is room.
    fn send_new(&mut self, now: u64, retried: bool) -> (messages: Vec<StreamSendThreadMsg>)
        requires
            old(self).wf(),
            now <= MAX_TIME,
        ensures
            final(self).wf(),
            old(self).sends_new(*final(self), now, msgs_view(messages@), retried),
    {
        let ghost pre = *self;
        let mut messages: Vec<StreamSendThreadMsg> = Vec::new();
        self.window.congestion_control = self.window.congestion_control.note_retry(retried);

        let curr_seq: u32 = self.window.end_sequence();
        let distance_to_end: usize = match self.buf.dist_to_end_from_seq(curr_seq) {
            Some(d) => d,
            None => 0,
        };
        assert(distance_to_end == pre.unsent());
        if self.window.recv_window_size == 0 && distance_to_end > 0 {
            self.window.zero_window_probing = true;
            let msg = StreamSendThreadMsg::Outgoing(curr_seq, self.buf.read(curr_seq, 1));
            assert(msg@ == pre.data_msg(pre.window.bytes_in_window as int, 1));
            messages.push(msg);
        }
        assert(msgs_view(messages@) =~= pre.probe_msgs());
        assert(self.sendable() == pre.sendable());
        assert(self.segment_msgs(self.sendable()) =~= pre.segment_msgs(pre.sendable()));
        self.send_segments(now, &mut messages);
        if self.window.bytes_in_window == self.buf.data.len() && self.state
            == SendBufferState::Queueing {
            self.state = SendBufferState::Ready;
        }
        messages
    }

    /// Whether what a run of the send thread would retry can be retried.
    pub fn can_retry(&self, now: u64) -> (can: bool)
        requires
            self.wf(),
        ensures
            can == self.retry_in_buffer(now),
    {
        let n: usize = self.window.elems.len();
        let mut curr_seq: u32 = self.window.starting_sequence;
        let mut i: usize = 0;
        while i < n && self.window.elems[i].time_to_retry > now
            invariant
                i <= n,
                n == self.window.elems@.len(),
                total_size(self.window.elems@) <= u32::MAX,
                curr_seq == self.window.sequence_of(i as int),
                forall|j: int|
                    0 <= j < i ==> (#[trigger] self.window.elems@[j]).time_to_retry > now,
            decreases n - i,
        {
            proof {
                lemma_total_size_prefix(self.window.elems@, i as int);
            }
            curr_seq = curr_seq.wrapping_add(self.window.elems[i].size);
            i += 1;
        }
        if i == n {
            return true;
        }
        let elem = self.window.elems[i];
        let offset: u32 = curr_seq.wrapping_sub(self.buf.first_sequnce_number);
        let can: bool = elem.num_retries <= MAX_RETRIES && (elem.msg_type
            != WindowElementType::Data || offset as u64 + elem.size as u64
            <= self.buf.data.len() as u64);
        proof {
            assert(first_due(self.window.elems@, now, i as int));
            assert(can == self.window.retriable(self.buf, i as int));
            assert forall|k: int| first_due(self.window.elems@, now, k) implies k == i by {
                if k > i {
                    assert(self.window.elems@[i as int].time_to_retry > now);
                }
            }
        }
        can
    }

    /// One run of the send thread, which it makes whenever it is woken up.
    pub fn send_step(&mut self, now: u64) -> (step: SendStep)
        requires
            old(self).wf(),
            now <= MAX_TIME,
            old(self).retry_in_buffer(now),
        ensures
            final(self).wf(),
            old(self).settled() && !step.stopped ==> final(self).settled(),
            old(self).runs(*final(self), now, step),
            final(self).window.fin_queued() == old(self).window.fin_queued(),
            step.stopped ==> final(self).state == SendBufferState::_Closed,
            !step.stopped ==> final(self).state == old(self).state || old(self).state
                == SendBufferState::Queueing,
    {
        let ghost pre = *self;
        match self.window.retry_due(&self.buf, now) {
            None => {
                let messages = self.send_new(now, false);
                SendStep { messages, stopped: false }
            },
            Some((index, msg, exhausted)) => {
                if exhausted {
                    self.state = SendBufferState::_Closed;
                }
                let ghost mid = *self;
                let ghost i = index as int;
                let mut messages: Vec<StreamSendThreadMsg> = Vec::new();
                messages.push(msg);
                assert(pre.window.retriable(pre.buf, i));
                proof {
                    lemma_retry_keeps_wf(pre, mid, now, i);
                }
                if exhausted {
                    messages.push(StreamSendThreadMsg::Shutdown);
                    assert(msgs_view(messages@) =~= seq![msg@, SendThreadMsg::Shutdown]);
                    return SendStep { messages, stopped: true };
                }
                let retried: bool = self.window.elems[index].msg_type == WindowElementType::Data;
                let mut rest = self.send_new(now, retried);
                let ghost rest_view = rest@;
                messages.append(&mut rest);
                let step = SendStep { messages, stopped: false };
                proof {
                    let sent = msgs_view(step.messages@);
                    assert(sent.skip(1) =~= msgs_view(rest_view));
                    assert(pre.after_retry(mid, now, i));
                    assert(first_due(pre.window.elems@, now, i));
                    assert(pre.window.elems@[i].msg_type == mid.window.elems@[i].msg_type);
                }
                step
            },
        }
    }
}

impl SendBuffer {
    /// Whether this is a buffer that nothing was done with yet.
    pub open spec fn is_new(
        self,
        initial_sequence_number: u32,
        congestion_control: CongestionControlStrategy,
    ) -> bool {
        &&& self.state == SendBufferState::Init
        &&& self.buf.data@.len() == 0
        &&& self.buf.first_sequnce_number == initial_sequence_number.wrapping_add(1)
        &&& self.window.elems@.len() == 0
        &&& self.window.starting_sequence == initial_sequence_number.wrapping_add(1)
        &&& self.window.bytes_in_window == 0
        &&& self.window.recv_window_size == 0
        &&& !self.window.zero_window_probing
        &&& self.window.srtt == INITIAL_SRTT
        &&& match congestion_control {
            CongestionControlStrategy::No => {
                &&& self.window.congestion_control == congestion_control
                &&& self.window.max_size == 5 * MTU
            },
            CongestionControlStrategy::Reno(info) => {
                &&& self.window.congestion_control == CongestionControlStrategy::Reno(
                    CongestionControlInfo {
                        last_ack: initial_sequence_number,
                        curr_start: initial_sequence_number,
                        ..info
                    },
                )
                &&& self.window.max_size == MTU
            },
        }
    }

    pub fn new(
        initial_sequence_number: u32,
        congestion_control: CongestionControlStrategy,
    ) -> (buffer: SendBuffer)
        ensures
            buffer.wf(),
            buffer.settled(),
            buffer.is_new(initial_sequence_number, congestion_control),
    {
        let first_seq: u32 = initial_sequence_number.wrapping_add(1);
        let mut initial_max_size: usize = MTU * 5;
        let mut congestion_control = congestion_control;
        if let CongestionControlStrategy::Reno(info) = congestion_control {
            congestion_control =
            CongestionControlStrategy::Reno(
                CongestionControlInfo {
                    last_ack: initial_sequence_number,
                    curr_start: initial_sequence_number,
                    ..info
                },
            );
            initial_max_size = MTU;
        }
        SendBuffer {
            state: SendBufferState::Init,
            buf: SendData {
                data: VecDeque::with_capacity(TCP_BUF_SIZE),
                first_sequnce_number: first_seq,
            },
            window: SendWindow {
                elems: VecDeque::with_capacity(MAX_WINDOW_SIZE),
                starting_sequence: first_seq,
                bytes_in_window: 0usize,
                max_size: initial_max_size,
                congestion_control,
                // This will be initialized when we receive SYNACK/ACK
                recv_window_size: 0,
                zero_window_probing: false,
                srtt: INITIAL_SRTT,
            },
        }
    }

    /// The window refers to no more bytes than the buffer holds, and none of them has been retried
    /// too often.
    pub open spec fn settled(self) -> bool {
        &&& self.window.bytes_in_window <= self.buf.data@.len()
        &&& self.window.retries_left()
    }

    /// `post` is this buffer after an ack of its syn, which is unexpected unless one was sent.
    pub open spec fn takes_ack_of_syn(self, post: SendBuffer, window_size: u16) -> bool {
        if self.state == SendBufferState::SynSent {
            &&& post.buf == self.buf
            &&& post.state == SendBufferState::Ready
            &&& post.window.elems@ == Seq::<WindowElement>::empty()
            &&& (SendWindow { recv_window_size: window_size, ..self.window }).same_but_elems(
                post.window,
            )
        } else {
            post == self
        }
    }

    /// `post` is this buffer after an ack of its fin, which is ignored unless one was sent.
    pub open spec fn takes_ack_of_fin(self, post: SendBuffer) -> bool {
        if self.state == SendBufferState::FinSent {
            &&& post.state == SendBufferState::_Closed
            &&& post.buf == self.buf
            &&& post.window.elems@ == self.window.elems@.drop_last()
            &&& self.window.same_but_elems(post.window)
        } else {
            post == self
        }
    }

    /// `post` is this buffer after an ack of `ack_num`, and `rtts` are the times since the elements
    /// acked were last sent.
    pub open spec fn takes_ack(
        self,
        post: SendBuffer,
        ack_num: u32,
        window_size: u16,
        now: u64,
        rtts: Seq<u64>,
    ) -> bool {
        let acked = self.window.acked_or_probed(ack_num);
        &&& post.state == self.state
        &&& self.window.acks(post.window, ack_num, window_size, now, rtts)
        &&& post.buf.first_sequnce_number == self.buf.first_sequnce_number.wrapping_add(
            acked as u32,
        )
        &&& post.buf.data@ == if acked <= self.buf.data@.len() {
            self.buf.data@.skip(acked)
        } else {
            Seq::<u8>::empty()
        }
    }

    /// `post` is this buffer after a syn was queued, which happens once.
    pub open spec fn queues_syn(self, post: SendBuffer, now: u64) -> bool {
        if self.state == SendBufferState::Init {
            &&& post.buf == self.buf
            &&& post.state == SendBufferState::SynSent
            &&& post.window.elems@ == seq![
                WindowElement {
                    msg_type: WindowElementType::Syn,
                    num_retries: 0,
                    last_time_sent: now,
                    time_to_retry: now,
                    size: 0,
                },
            ]
            &&& self.window.same_but_elems(post.window)
        } else {
            post == self
        }
    }

    /// `post` is this buffer after a fin was queued, which waits until all data is in the window.
    pub open spec fn queues_fin(self, post: SendBuffer, now: u64) -> bool {
        if self.state == SendBufferState::Ready {
            &&& post.buf == self.buf
            &&& post.state == SendBufferState::FinSent
            &&& post.window.elems@ == self.window.elems@.push(
                WindowElement {
                    msg_type: WindowElementType::Fin,
                    num_retries: 0,
                    last_time_sent: now,
                    time_to_retry: now,
                    size: 1,
                },
            )
            &&& self.window.same_but_elems(post.window)
        } else {
            post == self
        }
    }

    pub fn handle_ack_of_syn(&mut self, window_size: u16) -> (result: Result<(), SendBufferError>)
        requires
            old(self).wf(),
        ensures
            final(self).wf(),
            old(self).settled() ==> final(self).settled(),
            result == if old(self).state == SendBufferState::SynSent {
                Ok::<(), SendBufferError>(())
            } else {
                Err(SendBufferError::UnexpectedAckOfSyn)
            },
            old(self).takes_ack_of_syn(*final(self), window_size),
    {
        match self.state {
            SendBufferState::SynSent => {
                proof {
                    assert(self.window.elems@.drop_last() =~= Seq::<WindowElement>::empty());
                    reveal_with_fuel(total_size, 2);
                }
                self.window.handle_ack_of_syn(window_size);
                self.state = SendBufferState::Ready;
                Ok(())
            },
            _ => Err(SendBufferError::UnexpectedAckOfSyn),
        }
    }

    /// Stops retrying the fin, after which the buffer is dead. Ignored unless a fin has been sent.
    pub fn handle_ack_of_fin(&mut self)
        requires
            old(self).wf(),
        ensures
            final(self).wf(),
            old(self).settled() ==> final(self).settled(),
            old(self).takes_ack_of_fin(*final(self)),
    {
        match self.state {
            SendBufferState::FinSent => {
                let ghost before = self.window.elems@;
                self.state = SendBufferState::_Closed;
                self.window.handle_ack_of_fin();
                proof {
                    let after = self.window.elems@;
                    assert forall|i: int| 0 <= i < after.len() implies #[trigger] after[i]
                        == before[i] by {}
                    if after.len() > 0 {
                        assert(after.last() == before[before.len() - 2]);
                    }
                }
            },
            _ => (),
        }
    }

    pub fn handle_ack(&mut self, ack_num: u32, window_size: u16, now: u64) -> (outcome: AckOutcome)
        requires
            old(self).wf(),
            old(self).window.can_count(ack_num),
        ensures
            final(self).wf(),
            old(self).takes_ack(*final(self), ack_num, window_size, now, outcome.rtts@),
            outcome.bytes_acked == old(self).window.acked_or_probed(ack_num),
            outcome.wake_send_thread == (outcome.bytes_acked > 0 || old(self).window.fast_retry(
                ack_num,
            )),
            old(self).settled() && (outcome.bytes_acked == old(self).window.acked(ack_num) || old(
                self,
            ).window.bytes_in_window < old(self).buf.data@.len()) ==> final(self).settled(),
            final(self).window.fin_queued() == old(self).window.fin_queued(),
    {
        let ghost pre = *self;
        let (bytes_acked, fast_retry, rtts) = self.window.handle_ack(ack_num, window_size, now);
        proof {
            assert(pre.buf.data@.skip(0) =~= pre.buf.data@);
            if pre.state == SendBufferState::SynSent {
                let due = pre.window.elems_after_fast_retry(fast_retry, now);
                reveal_with_fuel(total_size, 2);
                assert(pre.window.elems@.drop_last() =~= Seq::<WindowElement>::empty());
                assert(rtts@.len() == 0) by {
                    if rtts@.len() > 0 {
                        lemma_total_size_nonnegative(due.take(rtts@.len() - 1));
                    }
                }
                assert(due.take(0) =~= Seq::<WindowElement>::empty());
                assert(self.window.elems@ =~= due);
            }
            if pre.state == SendBufferState::Init {
                assert(self.window.elems@.len() == 0);
            }
        }
        if bytes_acked > 0u32 {
            self.buf.ack(bytes_acked);
        }
        AckOutcome { bytes_acked, wake_send_thread: bytes_acked > 0 || fast_retry, rtts }
    }

    /// `post` is this buffer after an attempt to write `data`, and `result` is what came of it: how
    /// much there was room for, none where the connection is not established yet, an error where it
    /// is closing.
    pub open spec fn writes(
        self,
        post: SendBuffer,
        data: Seq<u8>,
        result: Result<Option<usize>, SendBufferError>,
    ) -> bool {
        match self.state {
            SendBufferState::Init | SendBufferState::SynSent => {
                &&& result == Ok::<Option<usize>, SendBufferError>(None)
                &&& post == self
            },
            SendBufferState::Ready | SendBufferState::Queueing => {
                let n = if data.len() <= self.buf.room() {
                    data.len() as int
                } else {
                    self.buf.room()
                };
                &&& result == Ok::<Option<usize>, SendBufferError>(Some(n as usize))
                &&& post.state == SendBufferState::Queueing
                &&& post.window == self.window
                &&& post.buf.data@ == self.buf.data@ + data.take(n)
                &&& post.buf.first_sequnce_number == self.buf.first_sequnce_number
            },
            SendBufferState::FinSent | SendBufferState::_Closed => {
                &&& result == Err::<Option<usize>, SendBufferError>(
                    SendBufferError::ConnectionClosing,
                )
                &&& post == self
            },
        }
    }

    /// Queues data to be sent. Returns how much of it there was room for, or none if the caller has
    /// to wait until the connection is established.
    pub fn write_data(&mut self, data: &[u8]) -> (result: Result<Option<usize>, SendBufferError>)
        requires
            old(self).wf(),
        ensures
            final(self).wf(),
            old(self).settled() ==> final(self).settled(),
            old(self).writes(*final(self), data@, result),
    {
        match self.state {
            SendBufferState::Init | SendBufferState::SynSent => Ok(None),
            SendBufferState::Ready | SendBufferState::Queueing => {
                self.state = SendBufferState::Queueing;
                let written: usize = self.buf.write(data);
                Ok(Some(written))
            },
            _ => Err(SendBufferError::ConnectionClosing),
        }
    }

    pub fn window_size(&self) -> (size: u16)
        ensures
            size == if self.window.max_size < self.window.bytes_in_window {
                0
            } else {
                (self.window.max_size - self.window.bytes_in_window) as u16
            },
    {
        #[verifier::truncate]
        (self.window.max_size.saturating_sub(self.window.bytes_in_window) as u16)
    }

    pub fn their_recv_window_size(&self) -> (size: u16)
        ensures
            size == self.window.recv_window_size,
    {
        self.window.recv_window_size
    }

    /// Queues a syn. Returns whether the send thread has to be woken up.
    pub fn send_syn(&mut self, now: u64) -> (result: Result<bool, SendBufferError>)
        requires
            old(self).wf(),
        ensures
            final(self).wf(),
            old(self).settled() ==> final(self).settled(),
            old(self).queues_syn(*final(self), now),
            result == match old(self).state {
                SendBufferState::Init => Ok::<bool, SendBufferError>(true),
                SendBufferState::SynSent => Ok(false),
                _ => Err(SendBufferError::AlreadyEstablished),
            },
    {
        match self.state {
            SendBufferState::Init => {
                self.window.send_syn(now);
                self.state = SendBufferState::SynSent;
                proof {
                    reveal_with_fuel(total_size, 2);
                    assert(self.window.elems@.drop_last() =~= Seq::<WindowElement>::empty());
                    assert(old(self).window.elems@ =~= Seq::<WindowElement>::empty());
                }
                Ok(true)
            },
            SendBufferState::SynSent => {
                // called more than once, ignoring
                Ok(false)
            },
            _ => Err(SendBufferError::AlreadyEstablished),
        }
    }

    /// Queues a fin once all data is in the window. Returns false if the caller has to wait for
    /// that; when it returns true the send thread has to be woken up.
    pub fn send_fin(&mut self, now: u64) -> (result: Result<bool, SendBufferError>)
        requires
            old(self).wf(),
            old(self).state != SendBufferState::Init,
        ensures
            final(self).wf(),
            old(self).settled() ==> final(self).settled(),
            old(self).queues_fin(*final(self), now),
            result == match old(self).state {
                SendBufferState::Ready => Ok::<bool, SendBufferError>(true),
                SendBufferState::Init | SendBufferState::SynSent | SendBufferState::Queueing => Ok(
                    false,
                ),
                SendBufferState::FinSent | SendBufferState::_Closed => Err(
                    SendBufferError::ConnectionClosing,
                ),
            },
    {
        match self.state {
            SendBufferState::Ready => {
                let ghost before = self.window.elems@;
                self.state = SendBufferState::FinSent;
                self.window.send_fin(now);
                proof {
                    let after = self.window.elems@;
                    assert(after.drop_last() =~= before);
                    assert forall|i: int| 0 <= i < before.len() implies #[trigger] after[i]
                        == before[i] by {}
                }
                Ok(true)
            },
            SendBufferState::Init | SendBufferState::SynSent | SendBufferState::Queueing => Ok(
                false,
            ),
            _ => Err(SendBufferError::ConnectionClosing),
        }
    }

    pub fn _srtt(&self) -> (srtt: u64)
        ensures
            srtt == self.window.srtt,
    {
        self.window.srtt
    }

    pub fn _rto(&self) -> (rto: u64)
        ensures
            rto == self.window.retry_timeout(),
    {
        self.window.rto()
    }

    /// Takes a newly smoothed round trip time.
    pub fn set_srtt(&mut self, srtt: u64)
        requires
            old(self).wf(),
        ensures
            final(self).wf(),
            final(self).state == old(self).state,
            final(self).buf == old(self).buf,
            final(self).window == (SendWindow { srtt, ..old(self).window }),
    {
        self.window.srtt = srtt;
    }

    /// One run of the timeout thread: checks what the shortest time in the window currently is.
    pub fn timeout_step(&self, now: u64) -> (step: TimeoutStep)
        ensures
            ({
                let elems = self.window.elems@;
                &&& step.expired == exists|i: int|
                    #![trigger elems[i]]
                    0 <= i < elems.len() && elems[i].time_to_retry < now
                &&& step.probing == self.window.zero_window_probing
                &&& if step.probing {
                    step.timeout == ZERO_WINDOW_PROBE_TIMEOUT
                } else if elems.len() == 0 {
                    step.timeout == MAX_RETRY_TIMEOUT
                } else if step.expired {
                    step.timeout == 0
                } else {
                    &&& forall|i: int|
                        0 <= i < elems.len() ==> now + step.timeout <= (
                        #[trigger] elems[i]).time_to_retry
                    &&& exists|i: int|
                        #![trigger elems[i]]
                        0 <= i < elems.len() && now + step.timeout == elems[i].time_to_retry
                }
            }),
    {
        let n: usize = self.window.elems.len();
        let mut expired: bool = false;
        let mut timeout: u64 = MAX_RETRY_TIMEOUT;
        if n > 0 {
            let mut most_urgent: usize = 0;
            let mut i: usize = 1;
            while i < n
                invariant
                    1 <= i <= n,
                    n == self.window.elems@.len(),
                    most_urgent < i,
                    forall|j: int|
                        0 <= j < i ==> self.window.elems@[most_urgent as int].time_to_retry <= (
                        #[trigger] self.window.elems@[j]).time_to_retry,
                decreases n - i,
            {
                if self.window.elems[i].time_to_retry <= self.window.elems[most_urgent].time_to_retry {
                    most_urgent = i;
                }
                i += 1;
            }
            let time_to_retry: u64 = self.window.elems[most_urgent].time_to_retry;
            if time_to_retry < now {
                expired = true;
                timeout = 0;
            } else {
                timeout = time_to_retry - now;
            }
        }
        let probing: bool = self.window.zero_window_probing;
        if probing {
            timeout = ZERO_WINDOW_PROBE_TIMEOUT;
        }
        TimeoutStep { expired, probing, timeout }
    }
}

impl CongestionControlStrategy {
    /// The strategy after a run of the send thread that did or did not retry data.
    pub open spec fn noting(self, retried: bool) -> CongestionControlStrategy {
        match self {
            CongestionControlStrategy::No => CongestionControlStrategy::No,
            CongestionControlStrategy::Reno(info) => CongestionControlStrategy::Reno(
                CongestionControlInfo {
                    drop_in_curr_window: info.drop_in_curr_window || retried,
                    ..info
                },
            ),
        }
    }

    fn note_retry(self, retried: bool) -> (noted: CongestionControlStrategy)
        ensures
            noted == self.noting(retried),
    {
        match self {
            CongestionControlStrategy::No => CongestionControlStrategy::No,
            CongestionControlStrategy::Reno(info) => CongestionControlStrategy::Reno(
                CongestionControlInfo {
                    drop_in_curr_window: info.drop_in_curr_window || retried,
                    ..info
                },
            ),
        }
    }
}

impl SendBuffer {
    /// The buffer holds what the application wrote: of the bytes `stream(0)`, `stream(1)`, .. that
    /// it wrote so far, those from index `start` on have not been acked.
    pub open spec fn holds(self, stream: spec_fn(int) -> u8, start: int) -> bool {
        forall|i: int| 0 <= i < self.buf.data@.len() ==> #[trigger] self.buf.data@[i] == stream(
            start + i,
        )
    }

    /// Whether a message that carries data carries a stretch of the application's bytes that has
    /// not been acked, under the sequence number of its first byte. The first byte that has not
    /// been acked is `stream(start)`.
    pub open spec fn sends_stretch(
        self,
        stream: spec_fn(int) -> u8,
        start: int,
        msg: SendThreadMsg,
    ) -> bool {
        msg matches SendThreadMsg::Outgoing(seq, bytes) ==> {
            let offset = self.buf.offset(seq);
            &&& offset + bytes.len() <= self.buf.data@.len()
            &&& forall|i: int| 0 <= i < bytes.len() ==> #[trigger] bytes[i] == stream(
                start + offset + i,
            )
        }
    }
}

/// As long as the window refers to no more than the buffer holds, whatever is due can be retried.
pub proof fn law_settled_can_retry(buffer: SendBuffer, now: u64)
    requires
        buffer.wf(),
        buffer.settled(),
    ensures
        buffer.retry_in_buffer(now),
{
    assert forall|i: int| first_due(buffer.window.elems@, now, i) implies #[trigger]
        buffer.window.retriable(buffer.buf, i) by {
        let elems = buffer.window.elems@;
        lemma_total_size_prefix(elems, i);
        if elems[i].msg_type == WindowElementType::Data && buffer.window.fin_queued() {
            let n = elems.len() as int;
            assert(elems[n - 1].size == 1);
            assert(elems.drop_last() =~= elems.take(n - 1));
            lemma_total_size_prefix(elems.take(n - 1), i);
            assert(elems.take(n - 1).take(i + 1) =~= elems.take(i + 1));
        }
    }
}

/// What was sent before is not sent once it is acked, and every segment carries the bytes that the
/// application wrote at its place, whether it is sent for the first time, again or as a probe.
pub proof fn law_sends_what_was_written(
    pre: SendBuffer,
    post: SendBuffer,
    now: u64,
    step: SendStep,
    stream: spec_fn(int) -> u8,
    start: int,
    j: int,
)
    requires
        pre.wf(),
        pre.retry_in_buffer(now),
        pre.holds(stream, start),
        pre.runs(post, now, step),
        0 <= j < step.messages@.len(),
    ensures
        pre.sends_stretch(stream, start, step.messages@[j]@),
        post.holds(stream, start),
{
    let sent = msgs_view(step.messages@);
    assert(sent[j] == step.messages@[j]@);
    if exists|i: int| first_due(pre.window.elems@, now, i) {
        let i = choose|i: int|
            #![trigger pre.window.elems@[i]]
            {
                let elem = pre.window.elems@[i];
                let msg = pre.window.retry_msg(pre.buf, i);
                &&& first_due(pre.window.elems@, now, i)
                &&& step.stopped == (elem.num_retries == MAX_RETRIES)
                &&& if step.stopped {
                    &&& sent == seq![msg, SendThreadMsg::Shutdown]
                    &&& pre.after_retry(post, now, i)
                } else {
                    &&& sent.len() > 0
                    &&& sent[0] == msg
                    &&& exists|mid: SendBuffer| #[trigger]
                        pre.after_retry(mid, now, i) && mid.sends_new(
                            post,
                            now,
                            sent.skip(1),
                            elem.msg_type == WindowElementType::Data,
                        )
                }
            };
        assert(pre.window.retriable(pre.buf, i));
        let seq = pre.window.sequence_of(i);
        let elem = pre.window.elems@[i];
        if elem.msg_type == WindowElementType::Data {
            let bytes = pre.buf.data@.subrange(
                pre.buf.offset(seq),
                pre.buf.offset(seq) + elem.size,
            );
            assert forall|b: int| 0 <= b < bytes.len() implies #[trigger] bytes[b] == stream(
                start + pre.buf.offset(seq) + b,
            ) by {
                assert(bytes[b] == pre.buf.data@[pre.buf.offset(seq) + b]);
            }
        }
        assert(pre.sends_stretch(stream, start, pre.window.retry_msg(pre.buf, i)));
        if !step.stopped {
            let mid = choose|mid: SendBuffer| #[trigger]
                pre.after_retry(mid, now, i) && mid.sends_new(
                    post,
                    now,
                    sent.skip(1),
                    elem.msg_type == WindowElementType::Data,
                );
            lemma_retry_keeps_wf(pre, mid, now, i);
            if j > 0 {
                lemma_new_sends_stretch(
                    mid,
                    post,
                    now,
                    sent.skip(1),
                    elem.msg_type == WindowElementType::Data,
                    stream,
                    start,
                    j - 1,
                );
                assert(sent.skip(1)[j - 1] == sent[j]);
            }
        }
    } else {
        lemma_new_sends_stretch(pre, post, now, sent, false, stream, start, j);
    }
}

proof fn lemma_new_sends_stretch(
    pre: SendBuffer,
    post: SendBuffer,
    now: u64,
    sent: Seq<SendThreadMsg>,
    retried: bool,
    stream: spec_fn(int) -> u8,
    start: int,
    j: int,
)
    requires
        pre.wf(),
        pre.holds(stream, start),
        pre.sends_new(post, now, sent, retried),
        0 <= j < sent.len(),
    ensures
        pre.sends_stretch(stream, start, sent[j]),
{
    let n = pre.sendable();
    let probes = pre.probe_msgs();
    let (at, size) = if j < probes.len() {
        (pre.window.bytes_in_window as int, 1int)
    } else {
        let k = j - probes.len();
        (pre.window.bytes_in_window + k * MTU, segment_size(n, k))
    };
    assert(sent[j] == pre.data_msg(at, size));
    assert(0 <= at && 0 <= size && at + size <= pre.buf.data@.len());
    let bytes = pre.buf.data@.subrange(at, at + size);
    assert(pre.buf.offset(pre.window.starting_sequence.wrapping_add(at as u32)) == at);
    assert forall|b: int| 0 <= b < bytes.len() implies #[trigger] bytes[b] == stream(
        start + at + b,
    ) by {
        assert(bytes[b] == pre.buf.data@[at + b]);
    }
}

/// New segments never take the data in flight past the window that either side allows.
pub proof fn law_window_is_respected(
    pre: SendBuffer,
    post: SendBuffer,
    now: u64,
    sent: Seq<SendThreadMsg>,
    retried: bool,
)
    requires
        pre.wf(),
        pre.sends_new(post, now, sent, retried),
    ensures
        post.window.bytes_in_window > pre.window.bytes_in_window ==> {
            &&& post.window.bytes_in_window <= pre.window.max_size
            &&& post.window.bytes_in_window <= pre.window.recv_window_size
        },
        forall|j: int|
            0 <= j < sent.len() ==> {
                &&& (#[trigger] sent[j]) is Outgoing
                &&& 0 < sent[j]->Outgoing_1.len() <= MTU
            },
{
    let n = pre.sendable();
    let probes = pre.probe_msgs();
    assert forall|j: int| 0 <= j < sent.len() implies {
        &&& (#[trigger] sent[j]) is Outgoing
        &&& 0 < sent[j]->Outgoing_1.len() <= MTU
    } by {
        if j >= probes.len() {
            let k = j - probes.len();
            assert(sent[j] == pre.data_msg(
                pre.window.bytes_in_window + k * MTU,
                segment_size(n, k),
            ));
        }
    }
}

/// A fin takes the sequence number right after the last byte that was written.
pub proof fn law_fin_follows_all_data(buffer: SendBuffer)
    requires
        buffer.wf(),
        buffer.settled(),
        buffer.window.fin_queued(),
    ensures
        buffer.window.retry_msg(buffer.buf, buffer.window.elems@.len() - 1) == SendThreadMsg::Fin(
            buffer.buf.first_sequnce_number.wrapping_add(buffer.buf.data@.len() as u32),
        ),
{
    let elems = buffer.window.elems@;
    assert(elems.drop_last() =~= elems.take(elems.len() - 1));
    assert(elems[elems.len() - 1].size == 1);
}

/// An ack leaves exactly the bytes after those that it acks to be sent again.
pub proof fn law_ack_drops_what_was_acked(
    pre: SendBuffer,
    post: SendBuffer,
    ack_num: u32,
    window_size: u16,
    now: u64,
    rtts: Seq<u64>,
    stream: spec_fn(int) -> u8,
    start: int,
)
    requires
        pre.wf(),
        pre.holds(stream, start),
        pre.takes_ack(post, ack_num, window_size, now, rtts),
        pre.window.acked_or_probed(ack_num) <= pre.buf.data@.len(),
    ensures
        post.holds(stream, start + pre.window.acked_or_probed(ack_num)),
        post.buf.data@.len() == pre.buf.data@.len() - pre.window.acked_or_probed(ack_num),
        post.window.bytes_in_window == pre.window.bytes_in_window - pre.window.acked(ack_num),
{
    let acked = pre.window.acked_or_probed(ack_num);
    assert forall|i: int| 0 <= i < post.buf.data@.len() implies #[trigger] post.buf.data@[i]
        == stream(start + acked + i) by {
        assert(post.buf.data@[i] == pre.buf.data@[i + acked]);
    }
}

/// An ack takes bytes off the front of the window only. What is left ends where it ended: each
/// element that stays still reaches up to the same byte, and while no closed window is probed the
/// window as a whole reaches up to the same sequence number.
pub proof fn law_ack_keeps_the_rest_of_the_window(
    pre: SendWindow,
    post: SendWindow,
    ack_num: u32,
    window_size: u16,
    now: u64,
    rtts: Seq<u64>,
)
    requires
        pre.wf(),
        pre.acks(post, ack_num, window_size, now, rtts),
    ensures
        post.wf(),
        0 <= pre.acked(ack_num) <= pre.bytes_in_window,
        post.bytes_in_window == pre.bytes_in_window - pre.acked(ack_num),
        post.recv_window_size == window_size,
        total_size(post.elems@) == total_size(pre.elems@) - pre.acked(ack_num),
        post.elems@.len() == pre.elems@.len() - rtts.len(),
        forall|i: int|
            0 <= i < post.elems@.len() ==> (#[trigger] post.elems@[i]).msg_type == pre.elems@[i
                + rtts.len()].msg_type,
        forall|i: int|
            0 < i <= post.elems@.len() ==> pre.acked(ack_num) + #[trigger] total_size(
                post.elems@.take(i),
            ) == total_size(pre.elems@.take(i + rtts.len())),
        !pre.zero_window_probing ==> {
            &&& post.starting_sequence == pre.starting_sequence.wrapping_add(
                pre.acked(ack_num) as u32,
            )
            &&& post.starting_sequence.wrapping_add(post.bytes_in_window as u32)
                == pre.starting_sequence.wrapping_add(pre.bytes_in_window as u32)
        },
{
    let due = pre.elems_after_fast_retry(pre.fast_retry(ack_num), now);
    let k = pre.acked(ack_num);
    let m = rtts.len() as int;
    lemma_same_sizes(pre.elems@, due);
    lemma_total_size_nonnegative(due.take(m));
    if k == 0 {
        if m > 0 {
            lemma_total_size_nonnegative(due.take(m - 1));
        }
        assert(due.skip(0) =~= due);
        assert(post.elems@.len() > 0 ==> post.elems@.last().msg_type
            == pre.elems@.last().msg_type);
        assert forall|i: int| 0 <= i < due.len() implies {
            &&& (#[trigger] due[i]).size == pre.elems@[i].size
            &&& due[i].msg_type == pre.elems@[i].msg_type
        } by {}
        assert(post.wf());
    } else {
        lemma_drops_bytes_wf(pre, post, due, k, m);
    }
    let rest = k - total_size(due.take(m));
    let tail = due.skip(m);
    assert forall|i: int| 0 < i <= post.elems@.len() implies k + #[trigger] total_size(
        post.elems@.take(i),
    ) == total_size(pre.elems@.take(i + m)) by {
        lemma_cut_front(tail, post.elems@, rest, i);
        lemma_same_sizes(pre.elems@.take(i + m), due.take(i + m));
        assert(due.take(i + m) =~= due.take(m) + tail.take(i));
        lemma_total_size_concat(due.take(m), tail.take(i));
    }
}

/// Cutting `rest` bytes off the first element takes them off every stretch that begins with it.
proof fn lemma_cut_front(pre: Seq<WindowElement>, post: Seq<WindowElement>, rest: int, i: int)
    requires
        0 < i <= pre.len(),
        post.len() == pre.len(),
        post[0].size == pre[0].size - rest,
        forall|j: int| 0 < j < pre.len() ==> (#[trigger] post[j]).size == pre[j].size,
    ensures
        total_size(post.take(i)) == total_size(pre.take(i)) - rest,
    decreases i,
{
    assert(pre.take(i).drop_last() =~= pre.take(i - 1));
    assert(post.take(i).drop_last() =~= post.take(i - 1));
    if i > 1 {
        lemma_cut_front(pre, post, rest, i - 1);
    } else {
        assert(pre.take(0) =~= Seq::<WindowElement>::empty());
        assert(post.take(0) =~= Seq::<WindowElement>::empty());
        reveal_with_fuel(total_size, 2);
    }
}

/// Of an ack that is repeated, once it has acked something new, the fourth repeat asks for a fast
/// retry and no other does. `infos` are the counts before, between and after the repeats.
pub proof fn law_fourth_repeat_counts(infos: Seq<CongestionControlInfo>, ack_num: u32, i: int)
    requires
        forall|k: int|
            0 <= k < infos.len() - 1 ==> (#[trigger] infos[k]).counts(ack_num, infos[k + 1]),
        infos[0].last_ack == ack_num,
        infos[0].dup_ack_count == 0,
        0 <= i < infos.len(),
    ensures
        infos[i].fast_retry(ack_num) <==> i == 3,
        infos[i].last_ack == ack_num,
        infos[i].dup_ack_count == i,
    decreases i,
{
    if i > 0 {
        law_fourth_repeat_counts(infos, ack_num, i - 1);
        assert(infos[i - 1].counts(ack_num, infos[i - 1 + 1]));
    }
}

/// `windows` are a window before, between and after acks of one and the same number.
pub open spec fn acks_in_turn(
    windows: Seq<SendWindow>,
    ack_num: u32,
    window_sizes: Seq<u16>,
    times: Seq<u64>,
    rtts: Seq<Seq<u64>>,
) -> bool {
    forall|i: int|
        0 <= i < windows.len() - 1 ==> (#[trigger] windows[i]).acks(
            windows[i + 1],
            ack_num,
            window_sizes[i],
            times[i],
            rtts[i],
        )
}

/// A window under congestion control retries fast on the fourth repeat of an ack, and on no other.
pub proof fn law_fourth_repeat_retries_fast(
    windows: Seq<SendWindow>,
    ack_num: u32,
    window_sizes: Seq<u16>,
    times: Seq<u64>,
    rtts: Seq<Seq<u64>>,
    i: int,
)
    requires
        acks_in_turn(windows, ack_num, window_sizes, times, rtts),
        0 <= i < windows.len(),
        match windows[0].congestion_control {
            CongestionControlStrategy::No => false,
            CongestionControlStrategy::Reno(info) => info.last_ack == ack_num && info.dup_ack_count
                == 0,
        },
    ensures
        windows[i].fast_retry(ack_num) <==> i == 3,
        match windows[i].congestion_control {
            CongestionControlStrategy::No => false,
            CongestionControlStrategy::Reno(info) => info.last_ack == ack_num && info.dup_ack_count
                == i,
        },
    decreases i,
{
    if i > 0 {
        law_fourth_repeat_retries_fast(windows, ack_num, window_sizes, times, rtts, i - 1);
        assert(windows[i - 1].acks(
            windows[i - 1 + 1],
            ack_num,
            window_sizes[i - 1],
            times[i - 1],
            rtts[i - 1],
        ));
    }
}

/// Without congestion control no repeat of an ack asks for a fast retry.
pub proof fn law_no_fast_retry_without_congestion_control(
    windows: Seq<SendWindow>,
    ack_num: u32,
    window_sizes: Seq<u16>,
    times: Seq<u64>,
    rtts: Seq<Seq<u64>>,
    i: int,
)
    requires
        acks_in_turn(windows, ack_num, window_sizes, times, rtts),
        0 <= i < windows.len(),
        windows[0].congestion_control == CongestionControlStrategy::No,
    ensures
        !windows[i].fast_retry(ack_num),
        windows[i].congestion_control == CongestionControlStrategy::No,
    decreases i,
{
    if i > 0 {
        law_no_fast_retry_without_congestion_control(
            windows,
            ack_num,
            window_sizes,
            times,
            rtts,
            i - 1,
        );
        assert(windows[i - 1].acks(
            windows[i - 1 + 1],
            ack_num,
            window_sizes[i - 1],
            times[i - 1],
            rtts[i - 1],
        ));
    }
}

/// An ack that repeats the last one counts as a repeat and any other starts the count over. The
/// fourth repeat asks for a fast retry.
pub proof fn law_repeats_are_counted(
    info: &mut CongestionControlInfo,
    ack_num: u32,
    fast_retry: bool,
)
    requires
        call_ensures(CongestionControlInfo::handle_ack, (info, ack_num), fast_retry),
    ensures
        final(info).last_ack == ack_num,
        ack_num == old(info).last_ack ==> final(info).dup_ack_count == old(info).dup_ack_count + 1,
        ack_num != old(info).last_ack ==> final(info).dup_ack_count == 0,
        fast_retry <==> ack_num == old(info).last_ack && final(info).dup_ack_count == 4,
{
}

/// Fast recovery: an ack that asks for a fast retry within a round halves the window, but leaves it
/// at a full segment at least. So a window of more than one segment gets smaller.
pub proof fn law_fast_recovery_halves_the_window(info: &mut CongestionControlInfo, ack_num: u32)
    requires
        call_ensures(CongestionControlInfo::handle_ack, (info, ack_num), true),
        ({
            let window = old(info).curr_window_size;
            let halved: int = if window / 2 < 1408 {
                1408
            } else {
                window as int / 2
            };
            ack_num < old(info).curr_start.wrapping_add(halved as u32)
        }),
    ensures
        old(info).curr_window_size >= 2816 ==> final(info).curr_window_size == old(info).curr_window_size / 2,
        old(info).curr_window_size < 2816 ==> final(info).curr_window_size == 1408,
        old(info).curr_window_size > 1408 ==> final(info).curr_window_size < old(info).curr_window_size,
        final(info).curr_start == old(info).curr_start,
        final(info).ssthresh == old(info).ssthresh,
        final(info).drop_in_curr_window == old(info).drop_in_curr_window,
{
}

/// Within a round an ack that does not ask for a fast retry leaves the window as it is.
pub proof fn law_window_holds_within_a_round(info: &mut CongestionControlInfo, ack_num: u32)
    requires
        call_ensures(CongestionControlInfo::handle_ack, (info, ack_num), false),
        ack_num < old(info).curr_start.wrapping_add(old(info).curr_window_size as u32),
    ensures
        final(info).curr_window_size == old(info).curr_window_size,
        final(info).curr_start == old(info).curr_start,
        final(info).ssthresh == old(info).ssthresh,
        final(info).drop_in_curr_window == old(info).drop_in_curr_window,
{
}

/// Slow start: a round without a drop doubles a window below the threshold, up to 32 segments.
pub proof fn law_slow_start_doubles_the_window(info: &mut CongestionControlInfo, ack_num: u32)
    requires
        call_ensures(CongestionControlInfo::handle_ack, (info, ack_num), false),
        ack_num >= old(info).curr_start.wrapping_add(old(info).curr_window_size as u32),
        !old(info).drop_in_curr_window,
        old(info).curr_window_size < old(info).ssthresh,
    ensures
        old(info).curr_window_size <= 16 * 1408 ==> final(info).curr_window_size == 2 * old(info).curr_window_size,
        old(info).curr_window_size > 16 * 1408 ==> final(info).curr_window_size == 32 * 1408,
        final(info).curr_start == ack_num,
        final(info).ssthresh == old(info).ssthresh,
        !final(info).drop_in_curr_window,
{
}

/// Congestion avoidance: from the threshold on, a round without a drop adds one segment to the
/// window.
pub proof fn law_congestion_avoidance_adds_a_segment(
    info: &mut CongestionControlInfo,
    ack_num: u32,
)
    requires
        call_ensures(CongestionControlInfo::handle_ack, (info, ack_num), false),
        ack_num >= old(info).curr_start.wrapping_add(old(info).curr_window_size as u32),
        !old(info).drop_in_curr_window,
        old(info).curr_window_size >= old(info).ssthresh,
    ensures
        final(info).curr_window_size == old(info).curr_window_size + 1408,
        final(info).curr_start == ack_num,
        final(info).ssthresh == old(info).ssthresh,
        !final(info).drop_in_curr_window,
{
}

/// A round in which something was dropped starts the window over at one segment, with half of what
/// it was as the threshold, unless it was one segment only.
pub proof fn law_drop_restarts_slow_start(info: &mut CongestionControlInfo, ack_num: u32)
    requires
        call_ensures(CongestionControlInfo::handle_ack, (info, ack_num), false),
        ack_num >= old(info).curr_start.wrapping_add(old(info).curr_window_size as u32),
        old(info).drop_in_curr_window,
    ensures
        final(info).curr_window_size == 1408,
        old(info).curr_window_size != 1408 ==> final(info).ssthresh == old(info).curr_window_size
            / 2,
        old(info).curr_window_size == 1408 ==> final(info).ssthresh == old(info).ssthresh,
        final(info).curr_start == ack_num,
        !final(info).drop_in_curr_window,
{
}

/// Where the ack that asks for a fast retry ends the round as well, the round is counted with the
/// halved window.
pub proof fn law_fast_recovery_at_the_end_of_a_round(
    info: &mut CongestionControlInfo,
    ack_num: u32,
)
    requires
        call_ensures(CongestionControlInfo::handle_ack, (info, ack_num), true),
        ({
            let window = old(info).curr_window_size;
            let halved: int = if window / 2 < 1408 {
                1408
            } else {
                window as int / 2
            };
            ack_num >= old(info).curr_start.wrapping_add(halved as u32)
        }),
    ensures
        ({
            let window = old(info).curr_window_size;
            let halved: int = if window / 2 < 1408 {
                1408
            } else {
                window as int / 2
            };
            &&& final(info).curr_start == ack_num
            &&& !final(info).drop_in_curr_window
            &&& old(info).drop_in_curr_window ==> final(info).curr_window_size == 1408
            &&& !old(info).drop_in_curr_window && halved >= old(info).ssthresh ==> final(info).curr_window_size == halved + 1408
            &&& !old(info).drop_in_curr_window && halved < old(info).ssthresh ==> final(info).curr_window_size == if halved <= 16 * 1408 {
                2 * halved
            } else {
                32 * 1408int
            }
            &&& final(info).ssthresh == if old(info).drop_in_curr_window && halved != 1408 {
                halved / 2
            } else {
                old(info).ssthresh as int
            }
        }),
{
}

/// Congestion control starts with one segment and no threshold.
pub proof fn law_slow_start_begins_with_a_segment(info: CongestionControlInfo)
    requires
        call_ensures(CongestionControlInfo::new, (), info),
    ensures
        info.curr_window_size == 1408,
        info.ssthresh == usize::MAX,
        info.dup_ack_count == 0,
        !info.drop_in_curr_window,
{
}

/// An ack of bytes in flight takes just these off the window, with its elements that are acked as a
/// whole. An ack of anything else takes none, unless a closed window is being probed: then the probe
/// is taken to be acked. Either way the peer's window is what the ack says.
pub proof fn law_acks_slide_the_window(
    window: &mut SendWindow,
    ack_num: u32,
    window_size: u16,
    now: u64,
    acked: (u32, bool, Vec<u64>),
)
    requires
        old(window).wf(),
        call_ensures(SendWindow::handle_ack, (window, ack_num, window_size, now), acked),
    ensures
        ({
            let k = ack_num.wrapping_sub(old(window).starting_sequence) as int;
            let in_flight = 0 < k <= old(window).bytes_in_window;
            &&& final(window).recv_window_size == window_size
            &&& in_flight ==> {
                &&& acked.0 == k
                &&& final(window).starting_sequence == ack_num
                &&& final(window).bytes_in_window == old(window).bytes_in_window - k
                &&& total_size(final(window).elems@) == total_size(old(window).elems@) - k
                &&& final(window).elems@.len() == old(window).elems@.len() - acked.2@.len()
                &&& total_size(old(window).elems@.take(acked.2@.len() as int)) <= k
                &&& acked.2@.len() < old(window).elems@.len() ==> k < total_size(
                    old(window).elems@.take(acked.2@.len() as int + 1),
                )
                &&& final(window).zero_window_probing == old(window).zero_window_probing
            }
            &&& !in_flight ==> {
                let probes: int = if old(window).zero_window_probing {
                    1
                } else {
                    0
                };
                &&& acked.0 == probes
                &&& acked.2@.len() == 0
                &&& final(window).starting_sequence == old(window).starting_sequence.wrapping_add(
                    probes as u32,
                )
                &&& final(window).bytes_in_window == old(window).bytes_in_window
                &&& final(window).elems@.len() == old(window).elems@.len()
                &&& total_size(final(window).elems@) == total_size(old(window).elems@)
                &&& !final(window).zero_window_probing
            }
            &&& forall|i: int|
                0 <= i < acked.2@.len() ==> #[trigger] acked.2@[i] == if now
                    < old(window).elems@[i].last_time_sent {
                    0
                } else {
                    now - old(window).elems@[i].last_time_sent
                }
        }),
{
    let pre = *old(window);
    let post = *final(window);
    let due = pre.elems_after_fast_retry(pre.fast_retry(ack_num), now);
    let k = pre.acked(ack_num);
    let m = acked.2@.len() as int;
    law_ack_keeps_the_rest_of_the_window(pre, post, ack_num, window_size, now, acked.2@);
    lemma_same_sizes(pre.elems@.take(m), due.take(m));
    if k == 0 && m > 0 {
        lemma_total_size_nonnegative(due.take(m - 1));
    }
    if m < pre.elems@.len() {
        lemma_total_size_prefix(due, m);
        lemma_same_sizes(pre.elems@.take(m + 1), due.take(m + 1));
        assert(pre.elems@[m].size == due[m].size);
        if k > 0 && k == total_size(due.take(m)) {
            assert(pre.elems@[m].size > 0) by {
                if pre.elems@[m].msg_type == WindowElementType::Syn {
                    assert(m == 0);
                    assert(due.take(0) =~= Seq::<WindowElement>::empty());
                }
            }
        }
    }
}

/// With congestion control, what we are willing to have in flight after an ack reaches from the
/// window's old start up to the end of the round's congestion window; without, it stays.
pub proof fn law_acks_set_the_limit(
    window: &mut SendWindow,
    ack_num: u32,
    window_size: u16,
    now: u64,
    acked: (u32, bool, Vec<u64>),
)
    requires
        call_ensures(SendWindow::handle_ack, (window, ack_num, window_size, now), acked),
    ensures
        match old(window).congestion_control {
            CongestionControlStrategy::No => {
                &&& final(window).congestion_control == CongestionControlStrategy::No
                &&& final(window).max_size == old(window).max_size
                &&& !acked.1
            },
            CongestionControlStrategy::Reno(info) => {
                &&& final(window).congestion_control is Reno
                &&& info.counts(ack_num, final(window).congestion_control->Reno_0)
                &&& acked.1 == info.fast_retry(ack_num)
                &&& final(window).max_size == (
                final(window).congestion_control->Reno_0).curr_start.wrapping_add(
                    (final(window).congestion_control->Reno_0).curr_window_size as u32,
                ).wrapping_sub(old(window).starting_sequence) as usize
            },
        },
{
}

/// A fast retry makes the first element in flight due at once, whatever time it had left.
pub proof fn law_fast_retry_is_due_at_once(
    window: &mut SendWindow,
    ack_num: u32,
    window_size: u16,
    now: u64,
    acked: (u32, bool, Vec<u64>),
)
    requires
        old(window).elems@.len() > 0,
        ack_num == old(window).starting_sequence,
        call_ensures(SendWindow::handle_ack, (window, ack_num, window_size, now), acked),
    ensures
        acked.1 ==> {
            &&& final(window).elems@.len() == old(window).elems@.len()
            &&& final(window).elems@[0].size == old(window).elems@[0].size
            &&& final(window).elems@[0].msg_type == old(window).elems@[0].msg_type
            &&& final(window).elems@[0].num_retries == old(window).elems@[0].num_retries
            &&& final(window).elems@[0].time_to_retry <= now
            &&& first_due(final(window).elems@, now, 0)
        },
        !acked.1 ==> final(window).elems@ == old(window).elems@,
{
    let pre = *old(window);
    let due = pre.elems_after_fast_retry(pre.fast_retry(ack_num), now);
    let m = acked.2@.len() as int;
    assert(pre.acked(ack_num) == 0);
    lemma_total_size_nonnegative(due.take(m));
    if m > 0 {
        lemma_total_size_nonnegative(due.take(m - 1));
    }
    assert(due.skip(0) =~= due);
}

/// A run of the send thread in which the element at `i` is the first one due.
proof fn lemma_run_with_retry(
    pre: SendBuffer,
    post: SendBuffer,
    now: u64,
    step: SendStep,
    i: int,
) -> (mid: SendBuffer)
    requires
        pre.runs(post, now, step),
        first_due(pre.window.elems@, now, i),
    ensures
        ({
            let sent = msgs_view(step.messages@);
            let elem = pre.window.elems@[i];
            let msg = pre.window.retry_msg(pre.buf, i);
            &&& step.stopped == (elem.num_retries == MAX_RETRIES)
            &&& if step.stopped {
                &&& sent == seq![msg, SendThreadMsg::Shutdown]
                &&& pre.after_retry(post, now, i)
            } else {
                &&& sent.len() > 0
                &&& sent[0] == msg
                &&& pre.after_retry(mid, now, i)
                &&& mid.sends_new(
                    post,
                    now,
                    sent.skip(1),
                    elem.msg_type == WindowElementType::Data,
                )
            }
        }),
{
    let sent = msgs_view(step.messages@);
    let k = choose|k: int|
        #![trigger pre.window.elems@[k]]
        {
            let elem = pre.window.elems@[k];
            let msg = pre.window.retry_msg(pre.buf, k);
            &&& first_due(pre.window.elems@, now, k)
            &&& step.stopped == (elem.num_retries == MAX_RETRIES)
            &&& if step.stopped {
                &&& sent == seq![msg, SendThreadMsg::Shutdown]
                &&& pre.after_retry(post, now, k)
            } else {
                &&& sent.len() > 0
                &&& sent[0] == msg
                &&& exists|mid: SendBuffer| #[trigger]
                    pre.after_retry(mid, now, k) && mid.sends_new(
                        post,
                        now,
                        sent.skip(1),
                        elem.msg_type == WindowElementType::Data,
                    )
            }
        };
    assert(k == i) by {
        if k < i {
            assert(pre.window.elems@[k].time_to_retry > now);
        }
        if i < k {
            assert(pre.window.elems@[i].time_to_retry > now);
        }
    }
    if step.stopped {
        pre
    } else {
        choose|mid: SendBuffer| #[trigger]
            pre.after_retry(mid, now, k) && mid.sends_new(
                post,
                now,
                sent.skip(1),
                pre.window.elems@[k].msg_type == WindowElementType::Data,
            )
    }
}

/// What is due is sent again: a run of the send thread begins with the first element whose time has
/// come, under its own sequence number and with all of its bytes, and then waits for its ack twice
/// as long as before. After four retries it is sent a last time, and the buffer is shut down.
pub proof fn law_due_elements_are_sent_again(
    buffer: &mut SendBuffer,
    now: u64,
    step: SendStep,
    i: int,
)
    requires
        old(buffer).wf(),
        old(buffer).retry_in_buffer(now),
        now <= MAX_TIME,
        0 <= i < old(buffer).window.elems@.len(),
        old(buffer).window.elems@[i].time_to_retry <= now,
        forall|j: int|
            0 <= j < i ==> (#[trigger] old(buffer).window.elems@[j]).time_to_retry > now,
        call_ensures(SendBuffer::send_step, (buffer, now), step),
    ensures
        ({
            let elem = old(buffer).window.elems@[i];
            let at = total_size(old(buffer).window.elems@.take(i));
            let seq = old(buffer).window.starting_sequence.wrapping_add(at as u32);
            &&& step.messages@.len() > 0
            &&& step.messages@[0]@ == match elem.msg_type {
                WindowElementType::Syn => SendThreadMsg::Syn,
                WindowElementType::Data => SendThreadMsg::Outgoing(
                    seq,
                    old(buffer).buf.data@.subrange(at, at + elem.size),
                ),
                WindowElementType::Fin => SendThreadMsg::Fin(seq),
            }
            &&& elem.msg_type == WindowElementType::Data ==> at + elem.size <= old(buffer).buf.data@.len()
            &&& final(buffer).buf == old(buffer).buf
            &&& step.stopped == (elem.num_retries == 4)
        }),
        step.stopped ==> {
            &&& step.messages@.len() == 2
            &&& step.messages@[1] is Shutdown
            &&& final(buffer).state == SendBufferState::_Closed
        },
        !step.stopped ==> {
            let elem = old(buffer).window.elems@[i];
            let retried = final(buffer).window.elems@[i];
            let rto = old(buffer).window.retry_timeout();
            &&& retried.msg_type == elem.msg_type
            &&& retried.size == elem.size
            &&& retried.num_retries == elem.num_retries + 1
            &&& retried.last_time_sent == now
            &&& retried.time_to_retry == now + rto * (if elem.num_retries == 0 {
                2int
            } else if elem.num_retries == 1 {
                4
            } else if elem.num_retries == 2 {
                8
            } else {
                16
            })
            &&& forall|j: int|
                0 <= j < old(buffer).window.elems@.len() && j != i ==> (
                #[trigger] final(buffer).window.elems@[j]) == old(buffer).window.elems@[j]
        },
{
    let pre = *old(buffer);
    let post = *final(buffer);
    let elems = pre.window.elems@;
    let elem = elems[i];
    assert(first_due(elems, now, i));
    assert(pre.window.retriable(pre.buf, i));
    let mid = lemma_run_with_retry(pre, post, now, step, i);
    let sent = msgs_view(step.messages@);
    assert(sent[0] == step.messages@[0]@);
    lemma_total_size_prefix(elems, i);
    if step.stopped {
        assert(sent[1] == step.messages@[1]@);
    } else {
        lemma2_to64();
        let rto = pre.window.retry_timeout();
        let k = (elem.num_retries + 1) as nat;
        assert(pow2(k) == 2 || pow2(k) == 4 || pow2(k) == 8 || pow2(k) == 16);
        assert(0 <= rto * pow2(k) <= 16 * RTO_UBOUND) by (nonlinear_arith)
            requires
                0 <= rto <= RTO_UBOUND,
                0 <= pow2(k) <= 16,
        ;
        assert(mid.window.elems@[i] == retried_elem(elem, now, rto));
        assert(post.window.elems@[i] == mid.window.elems@[i]);
        assert forall|j: int| 0 <= j < elems.len() && j != i implies (
        #[trigger] post.window.elems@[j]) == elems[j] by {
            assert(post.window.elems@[j] == mid.window.elems@[j]);
        }
    }
}

/// A retry of data within a round counts as a drop in it, and nothing else does.
pub proof fn law_retries_count_as_drops(
    buffer: &mut SendBuffer,
    now: u64,
    step: SendStep,
    info: CongestionControlInfo,
)
    requires
        old(buffer).wf(),
        old(buffer).window.congestion_control == CongestionControlStrategy::Reno(info),
        call_ensures(SendBuffer::send_step, (buffer, now), step),
        !step.stopped,
    ensures
        ({
            let elems = old(buffer).window.elems@;
            let dropped = exists|i: int|
                first_due(elems, now, i) && (#[trigger] elems[i]).msg_type
                    == WindowElementType::Data;
            final(buffer).window.congestion_control == CongestionControlStrategy::Reno(
                CongestionControlInfo {
                    drop_in_curr_window: info.drop_in_curr_window || dropped,
                    ..info
                },
            )
        }),
{
    let pre = *old(buffer);
    let post = *final(buffer);
    let elems = pre.window.elems@;
    if exists|i: int| first_due(elems, now, i) {
        let i = choose|i: int| first_due(elems, now, i);
        let mid = lemma_run_with_retry(pre, post, now, step, i);
        assert forall|k: int| first_due(elems, now, k) implies k == i by {
            if k < i {
                assert(elems[k].time_to_retry > now);
            }
            if i < k {
                assert(elems[i].time_to_retry > now);
            }
        }
        assert(first_due(elems, now, i) && elems[i].msg_type == elems[i].msg_type);
    }
}

/// The bytes that messages carry, one after the other.
pub open spec fn payloads(msgs: Seq<SendThreadMsg>) -> Seq<u8>
    decreases msgs.len(),
{
    if msgs.len() == 0 {
        Seq::empty()
    } else {
        match msgs.last() {
            SendThreadMsg::Outgoing(_, bytes) => payloads(msgs.drop_last()) + bytes,
            _ => payloads(msgs.drop_last()),
        }
    }
}

/// The messages of a run of the send thread after the retry, if there is one.
pub open spec fn new_messages(pre: SendBuffer, now: u64, step: SendStep) -> Seq<SendThreadMsg> {
    let sent = msgs_view(step.messages@);
    if exists|i: int|
        0 <= i < pre.window.elems@.len() && (#[trigger] pre.window.elems@[i]).time_to_retry <= now {
        sent.skip(1)
    } else {
        sent
    }
}

proof fn lemma_some_first_due(elems: Seq<WindowElement>, now: u64, i: int) -> (first: int)
    requires
        0 <= i < elems.len(),
        elems[i].time_to_retry <= now,
    ensures
        first_due(elems, now, first),
    decreases i,
{
    if forall|j: int| 0 <= j < i ==> (#[trigger] elems[j]).time_to_retry > now {
        i
    } else {
        let j = choose|j: int| 0 <= j < i && (#[trigger] elems[j]).time_to_retry <= now;
        lemma_some_first_due(elems, now, j)
    }
}

/// What a run sends for the first time, whether or not it retries something before.
proof fn lemma_run_sends_new(pre: SendBuffer, post: SendBuffer, now: u64, step: SendStep) -> (mid:
    SendBuffer)
    requires
        pre.wf(),
        pre.retry_in_buffer(now),
        pre.runs(post, now, step),
        !step.stopped,
    ensures
        mid.wf(),
        mid.buf == pre.buf,
        mid.state == pre.state,
        pre.window.same_but_elems(mid.window),
        mid.window.elems@.len() == pre.window.elems@.len(),
        mid.window.fin_queued() == pre.window.fin_queued(),
        mid.sends_new(post, now, new_messages(pre, now, step), true) || mid.sends_new(
            post,
            now,
            new_messages(pre, now, step),
            false,
        ),
{
    let elems = pre.window.elems@;
    if exists|i: int| 0 <= i < elems.len() && (#[trigger] elems[i]).time_to_retry <= now {
        let i = choose|i: int| 0 <= i < elems.len() && (#[trigger] elems[i]).time_to_retry <= now;
        let first = lemma_some_first_due(elems, now, i);
        let mid = lemma_run_with_retry(pre, post, now, step, first);
        assert(pre.window.retriable(pre.buf, first));
        lemma_retry_keeps_wf(pre, mid, now, first);
        mid
    } else {
        pre
    }
}

/// The bytes of the first `j` of the segments that `n` bytes are cut into.
proof fn lemma_segment_payloads(buffer: SendBuffer, n: int, j: int)
    requires
        0 <= n,
        buffer.window.bytes_in_window + n <= buffer.buf.data@.len(),
        0 <= j <= segment_count(n),
    ensures
        ({
            let at = buffer.window.bytes_in_window as int;
            let end = if j * MTU < n {
                j * MTU
            } else {
                n
            };
            payloads(buffer.segment_msgs(n).take(j)) == buffer.buf.data@.subrange(at, at + end)
        }),
    decreases j,
{
    let at = buffer.window.bytes_in_window as int;
    let msgs = buffer.segment_msgs(n);
    if j > 0 {
        lemma_segment_payloads(buffer, n, j - 1);
        assert(msgs.take(j).drop_last() =~= msgs.take(j - 1));
        assert((j - 1) * MTU < n);
        assert(msgs.take(j).last() == buffer.data_msg(
            at + (j - 1) * MTU,
            segment_size(n, j - 1),
        ));
        let end = if j * MTU < n {
            j * MTU
        } else {
            n
        };
        assert((j - 1) * MTU + segment_size(n, j - 1) == end);
        assert(buffer.buf.data@.subrange(at, at + (j - 1) * MTU) + buffer.buf.data@.subrange(
            at + (j - 1) * MTU,
            at + end,
        ) =~= buffer.buf.data@.subrange(at, at + end));
    } else {
        assert(buffer.buf.data@.subrange(at, at) =~= Seq::<u8>::empty());
        assert(msgs.take(0).len() == 0);
    }
}

/// New data goes out in order and without a gap, right after what is in flight, as far as both our
/// limit and the peer's window allow: in full segments of 1408 bytes but for the last. Each segment
/// is in flight from then on, to be acked within the retry timeout.
pub proof fn law_new_data_is_sent(buffer: &mut SendBuffer, now: u64, step: SendStep)
    requires
        old(buffer).wf(),
        old(buffer).retry_in_buffer(now),
        now <= MAX_TIME,
        call_ensures(SendBuffer::send_step, (buffer, now), step),
        !step.stopped,
        old(buffer).window.recv_window_size > 0,
    ensures
        ({
            let pre = *old(buffer);
            let at = pre.window.bytes_in_window as int;
            let limit: int = if pre.window.max_size <= pre.window.recv_window_size {
                pre.window.max_size as int
            } else {
                pre.window.recv_window_size as int
            };
            let goal: int = if pre.buf.data@.len() <= limit {
                pre.buf.data@.len() as int
            } else {
                limit
            };
            let n: int = if !pre.window.fin_queued() && at < goal {
                goal - at
            } else {
                0
            };
            let new = new_messages(pre, now, step);
            let elems = final(buffer).window.elems@;
            let old_len = pre.window.elems@.len() as int;
            &&& final(buffer).buf == pre.buf
            &&& final(buffer).window.bytes_in_window == at + n
            &&& final(buffer).window.recv_window_size == pre.window.recv_window_size - n
            &&& final(buffer).window.starting_sequence == pre.window.starting_sequence
            &&& n > 0 ==> payloads(new) == pre.buf.data@.subrange(at, at + n)
            &&& n == 0 ==> new.len() == 0
            &&& elems.len() == old_len + new.len()
            &&& forall|k: int|
                0 <= k < new.len() ==> {
                    let size = (#[trigger] new[k])->Outgoing_1.len();
                    &&& new[k] is Outgoing
                    &&& new[k]->Outgoing_0 == pre.window.starting_sequence.wrapping_add(
                        (at + 1408 * k) as u32,
                    )
                    &&& 0 < size <= 1408
                    &&& k < new.len() - 1 ==> size == 1408
                    &&& elems[old_len + k] == (WindowElement {
                        msg_type: WindowElementType::Data,
                        num_retries: 0,
                        last_time_sent: now,
                        time_to_retry: (now + pre.window.retry_timeout()) as u64,
                        size: size as u32,
                    })
                }
            &&& final(buffer).state == if pre.state == SendBufferState::Queueing && at + n
                == pre.buf.data@.len() {
                SendBufferState::Ready
            } else {
                pre.state
            }
            &&& final(buffer).window.zero_window_probing == pre.window.zero_window_probing
        }),
{
    let pre = *old(buffer);
    let post = *final(buffer);
    let mid = lemma_run_sends_new(pre, post, now, step);
    let n = mid.sendable();
    let new = new_messages(pre, now, step);
    let at = pre.window.bytes_in_window as int;
    assert(new =~= mid.segment_msgs(n));
    let count = segment_count(n) as int;
    if n > 0 {
        lemma_segment_payloads(mid, n, count);
    }
    assert(mid.segment_msgs(n).take(count) =~= mid.segment_msgs(n));
    assert(count * MTU >= n);
    assert(pre.window.retry_timeout() == mid.window.retry_timeout());
    assert forall|k: int| 0 <= k < new.len() implies {
        let size = (#[trigger] new[k])->Outgoing_1.len();
        &&& new[k] is Outgoing
        &&& new[k]->Outgoing_0 == pre.window.starting_sequence.wrapping_add(
            (at + 1408 * k) as u32,
        )
        &&& 0 < size <= 1408
        &&& k < new.len() - 1 ==> size == 1408
        &&& post.window.elems@[pre.window.elems@.len() + k] == (WindowElement {
            msg_type: WindowElementType::Data,
            num_retries: 0,
            last_time_sent: now,
            time_to_retry: (now + pre.window.retry_timeout()) as u64,
            size: size as u32,
        })
    } by {
        assert(new[k] == mid.data_msg(at + k * MTU, segment_size(n, k)));
        assert(k * MTU < n);
        if k < new.len() - 1 {
            assert((k + 1) * MTU < n);
        }
        assert(mid.buf.data@.subrange(at + k * MTU, at + k * MTU + segment_size(n, k)).len()
            == segment_size(n, k));
        assert(segment_elems(n, now, mid.window.retry_timeout())[k].size == segment_size(n, k));
    }
}

/// A closed window is probed: while the peer's window is closed and there is data that was not sent
/// yet, a run sends the first byte of it and no more, and the buffer is probing from then on.
pub proof fn law_closed_window_is_probed(buffer: &mut SendBuffer, now: u64, step: SendStep)
    requires
        old(buffer).wf(),
        old(buffer).retry_in_buffer(now),
        call_ensures(SendBuffer::send_step, (buffer, now), step),
        !step.stopped,
        old(buffer).window.recv_window_size == 0,
    ensures
        ({
            let pre = *old(buffer);
            let at = pre.window.bytes_in_window as int;
            let new = new_messages(pre, now, step);
            &&& final(buffer).buf == pre.buf
            &&& final(buffer).window.bytes_in_window == at
            &&& final(buffer).window.recv_window_size == 0
            &&& final(buffer).window.elems@.len() == pre.window.elems@.len()
            &&& if !pre.window.fin_queued() && at < pre.buf.data@.len() {
                &&& new == seq![
                    SendThreadMsg::Outgoing(
                        pre.window.starting_sequence.wrapping_add(at as u32),
                        seq![pre.buf.data@[at]],
                    ),
                ]
                &&& final(buffer).window.zero_window_probing
            } else {
                &&& new.len() == 0
                &&& final(buffer).window.zero_window_probing == pre.window.zero_window_probing
            }
        }),
{
    let pre = *old(buffer);
    let post = *final(buffer);
    let mid = lemma_run_sends_new(pre, post, now, step);
    let at = pre.window.bytes_in_window as int;
    let new = new_messages(pre, now, step);
    assert(mid.sendable() == 0);
    assert(mid.segment_msgs(0).len() == 0);
    if !pre.window.fin_queued() && at < pre.buf.data@.len() {
        assert(pre.buf.data@.subrange(at, at + 1) =~= seq![pre.buf.data@[at]]);
        assert(new =~= seq![mid.data_msg(at, 1)]);
    } else {
        assert(new =~= Seq::<SendThreadMsg>::empty());
    }
}

/// An ack while a closed window is probed, with nothing else in flight, takes the probe off the
/// data, and the peer's window is open again as far as the ack says.
pub proof fn law_acked_probe_is_taken_off(
    buffer: &mut SendBuffer,
    ack_num: u32,
    window_size: u16,
    now: u64,
    outcome: AckOutcome,
)
    requires
        old(buffer).wf(),
        old(buffer).window.zero_window_probing,
        old(buffer).window.bytes_in_window == 0,
        old(buffer).buf.data@.len() > 0,
        ack_num == old(buffer).window.starting_sequence.wrapping_add(1),
        call_ensures(SendBuffer::handle_ack, (buffer, ack_num, window_size, now), outcome),
    ensures
        outcome.bytes_acked == 1,
        outcome.wake_send_thread,
        final(buffer).buf.data@ == old(buffer).buf.data@.skip(1),
        final(buffer).buf.first_sequnce_number == ack_num,
        final(buffer).window.starting_sequence == ack_num,
        final(buffer).window.recv_window_size == window_size,
        !final(buffer).window.zero_window_probing,
{
}

/// Once a fin is queued, it is sent the first time that the send buffer is run with nothing else
/// due, under the number right after all data.
pub proof fn law_queued_fin_is_sent(
    buffer: SendBuffer,
    queued: SendBuffer,
    now: u64,
    post: SendBuffer,
    later: u64,
    step: SendStep,
)
    requires
        buffer.wf(),
        queued.wf(),
        buffer.settled(),
        buffer.state == SendBufferState::Ready,
        buffer.queues_fin(queued, now),
        now <= later,
        forall|j: int|
            0 <= j < buffer.window.elems@.len() ==> (#[trigger] buffer.window.elems@[j]).time_to_retry
                > later,
        queued.runs(post, later, step),
    ensures
        step.messages@.len() > 0,
        step.messages@[0] == StreamSendThreadMsg::Fin(
            buffer.buf.first_sequnce_number.wrapping_add(buffer.buf.data@.len() as u32),
        ),
{
    let elems = queued.window.elems@;
    let i = elems.len() - 1;
    assert forall|j: int| 0 <= j < i implies (#[trigger] elems[j]).time_to_retry > later by {
        assert(elems[j] == buffer.window.elems@[j]);
    }
    assert(first_due(elems, later, i));
    let mid = lemma_run_with_retry(queued, post, later, step, i);
    let sent = msgs_view(step.messages@);
    assert(sent[0] == step.messages@[0]@);
    assert(elems.take(i) =~= buffer.window.elems@);
}

/// The wait between two looks at the timeouts ends just when the first element is due: at once if
/// one is overdue, and after a second if nothing is in flight or a closed window is being probed.
pub proof fn law_timeouts(buffer: &SendBuffer, now: u64, step: TimeoutStep)
    requires
        call_ensures(SendBuffer::timeout_step, (buffer, now), step),
    ensures
        ({
            let elems = buffer.window.elems@;
            &&& step.probing == buffer.window.zero_window_probing
            &&& step.expired <==> exists|i: int|
                0 <= i < elems.len() && (#[trigger] elems[i]).time_to_retry < now
            &&& step.probing || elems.len() == 0 ==> step.timeout == 1_000_000_000
            &&& !step.probing && elems.len() > 0 && step.expired ==> step.timeout == 0
            &&& !step.probing && elems.len() > 0 && !step.expired ==> {
                &&& forall|i: int|
                    0 <= i < elems.len() ==> now + step.timeout <= (
                    #[trigger] elems[i]).time_to_retry
                &&& exists|i: int|
                    0 <= i < elems.len() && (#[trigger] elems[i]).time_to_retry == now
                        + step.timeout
            }
        }),
{
}

/// The syn is acked once: data may be sent from then on, as much as the peer's window takes, and
/// the syn is not sent again. An ack of a syn that was not sent is an error and changes nothing.
pub proof fn law_acked_syn_opens_the_buffer(
    buffer: &mut SendBuffer,
    window_size: u16,
    result: Result<(), SendBufferError>,
)
    requires
        call_ensures(SendBuffer::handle_ack_of_syn, (buffer, window_size), result),
    ensures
        result is Ok <==> old(buffer).state == SendBufferState::SynSent,
        result is Ok ==> {
            &&& final(buffer).state == SendBufferState::Ready
            &&& final(buffer).buf == old(buffer).buf
            &&& final(buffer).window.elems@.len() == 0
            &&& final(buffer).window.recv_window_size == window_size
            &&& final(buffer).window.starting_sequence == old(buffer).window.starting_sequence
            &&& final(buffer).window.max_size == old(buffer).window.max_size
        },
        result is Err ==> *final(buffer) == *old(buffer),
{
}

/// A new send buffer starts right after its initial sequence number, with nothing written, and is
/// willing to have five segments in flight, or one with congestion control.
pub proof fn law_new_send_buffer(
    initial_sequence_number: u32,
    congestion_control: CongestionControlStrategy,
    buffer: SendBuffer,
)
    requires
        call_ensures(SendBuffer::new, (initial_sequence_number, congestion_control), buffer),
    ensures
        buffer.state == SendBufferState::Init,
        buffer.buf.data@.len() == 0,
        buffer.window.elems@.len() == 0,
        buffer.window.bytes_in_window == 0,
        buffer.window.starting_sequence == initial_sequence_number.wrapping_add(1),
        buffer.buf.first_sequnce_number == initial_sequence_number.wrapping_add(1),
        match congestion_control {
            CongestionControlStrategy::No => {
                &&& buffer.window.max_size == 7040
                &&& buffer.window.congestion_control == CongestionControlStrategy::No
            },
            CongestionControlStrategy::Reno(info) => {
                &&& buffer.window.max_size == 1408
                &&& buffer.window.congestion_control == CongestionControlStrategy::Reno(
                    CongestionControlInfo {
                        last_ack: initial_sequence_number,
                        curr_start: initial_sequence_number,
                        ..info
                    },
                )
            },
        },
{
}

/// A syn is queued once, to be sent at once; asking again while it is not acked does nothing, and
/// asking later is an error.
pub proof fn law_syn_is_queued(
    buffer: &mut SendBuffer,
    now: u64,
    result: Result<bool, SendBufferError>,
)
    requires
        call_ensures(SendBuffer::send_syn, (buffer, now), result),
    ensures
        old(buffer).state == SendBufferState::Init ==> {
            let elems = final(buffer).window.elems@;
            &&& result == Ok::<bool, SendBufferError>(true)
            &&& final(buffer).state == SendBufferState::SynSent
            &&& final(buffer).buf == old(buffer).buf
            &&& elems.len() == 1
            &&& elems[0].msg_type == WindowElementType::Syn
            &&& elems[0].num_retries == 0
            &&& elems[0].time_to_retry == now
            &&& elems[0].size == 0
        },
        old(buffer).state != SendBufferState::Init ==> *final(buffer) == *old(buffer),
        old(buffer).state == SendBufferState::SynSent ==> result == Ok::<bool, SendBufferError>(
            false,
        ),
        old(buffer).state != SendBufferState::Init && old(buffer).state != SendBufferState::SynSent
            ==> result == Err::<bool, SendBufferError>(SendBufferError::AlreadyEstablished),
{
}

/// A fin is queued once all data is in the window, after all of it, to be sent at once. Before that
/// the caller has to wait, and once it is queued asking again is an error.
pub proof fn law_fin_is_queued(
    buffer: &mut SendBuffer,
    now: u64,
    result: Result<bool, SendBufferError>,
)
    requires
        call_ensures(SendBuffer::send_fin, (buffer, now), result),
    ensures
        old(buffer).state == SendBufferState::Ready ==> {
            let elems = final(buffer).window.elems@;
            &&& result == Ok::<bool, SendBufferError>(true)
            &&& final(buffer).state == SendBufferState::FinSent
            &&& final(buffer).buf == old(buffer).buf
            &&& elems.drop_last() == old(buffer).window.elems@
            &&& elems.last().msg_type == WindowElementType::Fin
            &&& elems.last().num_retries == 0
            &&& elems.last().time_to_retry == now
            &&& elems.last().size == 1
        },
        old(buffer).state != SendBufferState::Ready ==> *final(buffer) == *old(buffer),
        match old(buffer).state {
            SendBufferState::Init | SendBufferState::SynSent | SendBufferState::Queueing => result
                == Ok::<bool, SendBufferError>(false),
            SendBufferState::FinSent | SendBufferState::_Closed => result == Err::<
                bool,
                SendBufferError,
            >(SendBufferError::ConnectionClosing),
            SendBufferState::Ready => true,
        },
{
    if old(buffer).state == SendBufferState::Ready {
        assert(final(buffer).window.elems@.drop_last() =~= old(buffer).window.elems@);
    }
}

/// Once the fin is acked it is not sent again, and what is still in flight before it stays.
pub proof fn law_acked_fin_is_not_sent_again(buffer: &mut SendBuffer)
    requires
        call_ensures(SendBuffer::handle_ack_of_fin, (buffer,), ()),
    ensures
        final(buffer).buf == old(buffer).buf,
        old(buffer).state == SendBufferState::FinSent ==> {
            &&& final(buffer).state == SendBufferState::_Closed
            &&& final(buffer).window.elems@ == old(buffer).window.elems@.drop_last()
            &&& final(buffer).window.bytes_in_window == old(buffer).window.bytes_in_window
        },
        old(buffer).state != SendBufferState::FinSent ==> *final(buffer) == *old(buffer),
{
}

/// An ack changes the window as it would alone, takes what it acked off the front of the data, and
/// keeps the state. The send thread is woken up if anything was acked or is to be retried fast.
pub proof fn law_acks_reach_the_data(
    buffer: &mut SendBuffer,
    ack_num: u32,
    window_size: u16,
    now: u64,
    outcome: AckOutcome,
)
    requires
        old(buffer).wf(),
        call_ensures(SendBuffer::handle_ack, (buffer, ack_num, window_size, now), outcome),
    ensures
        final(buffer).state == old(buffer).state,
        old(buffer).window.acks(
            final(buffer).window,
            ack_num,
            window_size,
            now,
            outcome.rtts@,
        ),
        final(buffer).buf.first_sequnce_number == final(buffer).window.starting_sequence,
        outcome.bytes_acked <= old(buffer).buf.data@.len() ==> final(buffer).buf.data@ == old(buffer).buf.data@.skip(outcome.bytes_acked as int),
        outcome.bytes_acked > old(buffer).buf.data@.len() ==> final(buffer).buf.data@.len() == 0,
        outcome.wake_send_thread <==> outcome.bytes_acked > 0 || old(buffer).window.fast_retry(
            ack_num,
        ),
        ({
            let k = ack_num.wrapping_sub(old(buffer).window.starting_sequence) as int;
            let in_flight = 0 < k <= old(buffer).window.bytes_in_window;
            outcome.bytes_acked == if in_flight {
                k
            } else if old(buffer).window.zero_window_probing {
                1
            } else {
                0
            }
        }),
{
}

/// Writing appends as much of the data as fits into 65535 bytes, once the connection is established
/// and until it is closed.
pub proof fn law_written_data_is_kept(
    buffer: &mut SendBuffer,
    data: &[u8],
    result: Result<Option<usize>, SendBufferError>,
)
    requires
        old(buffer).wf(),
        call_ensures(SendBuffer::write_data, (buffer, data), result),
    ensures
        final(buffer).window == old(buffer).window,
        match old(buffer).state {
            SendBufferState::Ready | SendBufferState::Queueing => {
                let n = final(buffer).buf.data@.len() - old(buffer).buf.data@.len();
                &&& 0 <= n <= data@.len()
                &&& result == Ok::<Option<usize>, SendBufferError>(Some(n as usize))
                &&& final(buffer).buf.data@ == old(buffer).buf.data@ + data@.take(n)
                &&& n == data@.len() || final(buffer).buf.data@.len() == 65535
                &&& final(buffer).state == SendBufferState::Queueing
            },
            SendBufferState::Init | SendBufferState::SynSent => {
                &&& result == Ok::<Option<usize>, SendBufferError>(None)
                &&& *final(buffer) == *old(buffer)
            },
            SendBufferState::FinSent | SendBufferState::_Closed => {
                &&& result == Err::<Option<usize>, SendBufferError>(
                    SendBufferError::ConnectionClosing,
                )
                &&& *final(buffer) == *old(buffer)
            },
        },
{
}

/// A retry waits longer the longer round trips take, but never less than the lower bound or more
/// than the upper one; in between it waits for twice the round trip time.
pub proof fn law_rto_follows_round_trips(faster: SendWindow, slower: SendWindow)
    requires
        faster.srtt <= slower.srtt,
    ensures
        20_000_000 <= faster.retry_timeout() <= slower.retry_timeout() <= 60_000_000_000,
        10_000_000 <= faster.srtt <= 30_000_000_000 ==> faster.retry_timeout() == 2 * faster.srtt,
{
}

/// Until a round trip has been timed, a retry waits for three seconds.
pub proof fn law_first_rto(
    buffer: SendBuffer,
    initial_sequence_number: u32,
    congestion_control: CongestionControlStrategy,
)
    requires
        buffer.is_new(initial_sequence_number, congestion_control),
    ensures
        buffer.window.retry_timeout() == 3_000_000_000,
{
}

/// What the application writes is appended to what it wrote before.
pub proof fn law_writes_are_appended(
    pre: SendBuffer,
    post: SendBuffer,
    data: Seq<u8>,
    n: usize,
    stream: spec_fn(int) -> u8,
    start: int,
)
    requires
        pre.wf(),
        pre.holds(stream, start),
        pre.writes(post, data, Ok(Some(n))),
        forall|i: int| 0 <= i < n ==> #[trigger] data[i] == stream(
            start + pre.buf.data@.len() + i,
        ),
    ensures
        n <= data.len(),
        post.holds(stream, start),
        n < data.len() ==> post.buf.data@.len() == TCP_BUF_SIZE,
{
    assert forall|i: int| 0 <= i < post.buf.data@.len() implies #[trigger] post.buf.data@[i]
        == stream(start + i) by {
        if i >= pre.buf.data@.len() {
            let k = i - pre.buf.data@.len();
            assert(post.buf.data@[i] == data[k]);
            assert(data[k] == stream(start + pre.buf.data@.len() + k));
        } else {
            assert(post.buf.data@[i] == pre.buf.data@[i]);
        }
    }
}

/// A retry keeps the buffer well formed.
proof fn lemma_retry_keeps_wf(pre: SendBuffer, post: SendBuffer, now: u64, i: int)
    requires
        pre.wf(),
        0 <= i < pre.window.elems@.len(),
        pre.after_retry(post, now, i),
    ensures
        post.wf(),
        post.unsent() == pre.unsent(),
        post.window.fin_queued() == pre.window.fin_queued(),
        pre.window.retries_left() && pre.window.elems@[i].num_retries < MAX_RETRIES
            ==> post.window.retries_left(),
{
    let before = pre.window.elems@;
    let after = post.window.elems@;
    assert forall|k: int| 0 <= k < before.len() implies {
        &&& (#[trigger] after[k]).size == before[k].size
        &&& after[k].msg_type == before[k].msg_type
    } by {}
    if pre.window.retries_left() && before[i].num_retries < MAX_RETRIES {
        assert forall|k: int| 0 <= k < after.len() implies (#[trigger] after[k]).num_retries
            <= MAX_RETRIES by {
            assert(before[k].num_retries <= MAX_RETRIES);
        }
    }
    lemma_same_sizes(after, before);
    assert(after.last().msg_type == before.last().msg_type);
    assert(after[0].msg_type == before[0].msg_type);
}

/// Dropping acked bytes off the front of a well formed window leaves one.
proof fn lemma_drops_bytes_wf(
    pre: SendWindow,
    post: SendWindow,
    due: Seq<WindowElement>,
    k: int,
    m: int,
)
    requires
        pre.wf(),
        due.len() == pre.elems@.len(),
        forall|i: int|
            0 <= i < due.len() ==> {
                &&& (#[trigger] due[i]).size == pre.elems@[i].size
                &&& due[i].msg_type == pre.elems@[i].msg_type
                &&& due[i].num_retries == pre.elems@[i].num_retries
            },
        0 < k <= pre.bytes_in_window,
        post.bytes_in_window == pre.bytes_in_window - k,
        drops_bytes(due, post.elems@, k, m),
    ensures
        post.wf(),
        post.fin_queued() == pre.fin_queued(),
        pre.no_syn() ==> post.no_syn(),
        pre.retries_left() ==> post.retries_left(),
{
    lemma_same_sizes(pre.elems@, due);
    lemma_total_size_split(due, m);
    let n = due.len() as int;
    assert(n > 0);
    assert(due[n - 1].msg_type == pre.elems@[n - 1].msg_type);
    lemma_total_size_prefix(due, n - 1);
    assert(due.take(n) =~= due);
    if m == n {
        assert(due.take(m) =~= due);
        assert(!pre.fin_queued());
    } else {
        let rest = k - total_size(due.take(m));
        let tail = due.skip(m);
        if rest > 0 {
            let cut = WindowElement { size: (due[m].size - rest) as u32, ..due[m] };
            assert(tail =~= seq![due[m]] + due.skip(m + 1));
            assert(post.elems@ =~= seq![cut] + due.skip(m + 1));
            lemma_total_size_concat(seq![due[m]], due.skip(m + 1));
            lemma_total_size_concat(seq![cut], due.skip(m + 1));
            reveal_with_fuel(total_size, 3);
            assert(seq![cut].drop_last() =~= Seq::<WindowElement>::empty());
            assert(seq![due[m]].drop_last() =~= Seq::<WindowElement>::empty());
            assert(due[m].msg_type == pre.elems@[m].msg_type);
        }
        assert(total_size(post.elems@) == total_size(due) - k);
        assert forall|i: int| 0 <= i < post.elems@.len() implies {
            &&& (#[trigger] post.elems@[i]).msg_type == pre.elems@[i + m].msg_type
            &&& post.elems@[i].num_retries == pre.elems@[i + m].num_retries
            &&& i > 0 ==> post.elems@[i].size == pre.elems@[i + m].size
            &&& rest == 0 ==> post.elems@[i].size == pre.elems@[i + m].size
        } by {
            assert(due[i + m].size == pre.elems@[i + m].size);
        }
        assert(post.elems@.last().msg_type == pre.elems@.last().msg_type);
    }
}

proof fn lemma_same_sizes(a: Seq<WindowElement>, b: Seq<WindowElement>)
    requires
        a.len() == b.len(),
        forall|i: int| 0 <= i < a.len() ==> (#[trigger] a[i]).size == b[i].size,
    ensures
        total_size(a) == total_size(b),
    decreases a.len(),
{
    if a.len() > 0 {
        lemma_same_sizes(a.drop_last(), b.drop_last());
    }
}

impl SendData {
    pub open spec fn wf(self) -> bool {
        self.data@.len() <= TCP_BUF_SIZE
    }

    /// How far sequence number `seq` lies past the first byte.
    pub open spec fn offset(self, seq: u32) -> int {
        seq.wrapping_sub(self.first_sequnce_number) as int
    }

    pub open spec fn room(self) -> int {
        TCP_BUF_SIZE - self.data@.len()
    }

    /// Appends as much of `data` as there is room for.
    pub fn write(&mut self, data: &[u8]) -> (written: usize)
        requires
            old(self).wf(),
        ensures
            final(self).wf(),
            written == if data@.len() <= old(self).room() {
                data@.len() as int
            } else {
                old(self).room()
            },
            final(self).data@ == old(self).data@ + data@.take(written as int),
            final(self).first_sequnce_number == old(self).first_sequnce_number,
    {
        let left: usize = self.remaining_capacity();
        let n: usize = if data.len() <= left {
            data.len()
        } else {
            left
        };
        let ghost before = self.data@;
        let mut i: usize = 0;
        assert(self.data@ =~= before + data@.take(0));
        while i < n
            invariant
                i <= n <= data@.len(),
                self.data@ == before + data@.take(i as int),
                self.first_sequnce_number == old(self).first_sequnce_number,
            decreases n - i,
        {
            self.data.push_back(data[i]);
            i += 1;
            assert(self.data@ =~= before + data@.take(i as int));
        }
        n
    }

    /// reads from buffer
    pub fn read(&self, seq_number: u32, bytes_to_read: usize) -> (bytes: Vec<u8>)
        requires
            self.offset(seq_number) + bytes_to_read <= self.data@.len(),
        ensures
            bytes@ == self.data@.subrange(
                self.offset(seq_number),
                self.offset(seq_number) + bytes_to_read,
            ),
    {
        let len: usize = self.data.len();
        let start: usize = seq_number.wrapping_sub(self.first_sequnce_number) as usize;
        let mut bytes: Vec<u8> = Vec::new();
        let mut i: usize = 0;
        while i < bytes_to_read
            invariant
                i <= bytes_to_read,
                start == self.offset(seq_number),
                start + bytes_to_read <= self.data@.len(),
                len == self.data@.len(),
                bytes@ == self.data@.subrange(start as int, start + i),
            decreases bytes_to_read - i,
        {
            bytes.push(self.data[start + i]);
            i += 1;
            assert(bytes@ =~= self.data@.subrange(start as int, start + i));
        }
        bytes
    }

    /// Drops the bytes that have been acked.
    pub fn ack(&mut self, bytes_acked: u32)
        ensures
            final(self).data@ == if bytes_acked <= old(self).data@.len() {
                old(self).data@.skip(bytes_acked as int)
            } else {
                Seq::<u8>::empty()
            },
            final(self).first_sequnce_number == old(self).first_sequnce_number.wrapping_add(
                bytes_acked,
            ),
    {
        let ghost before = self.data@;
        let mut i: u32 = 0;
        while i < bytes_acked
            invariant
                i <= bytes_acked,
                self.first_sequnce_number == old(self).first_sequnce_number,
                self.data@ == if i <= before.len() {
                    before.skip(i as int)
                } else {
                    Seq::<u8>::empty()
                },
            decreases bytes_acked - i,
        {
            let _ = self.data.pop_front();
            i += 1;
            proof {
                if i <= before.len() {
                    assert(self.data@ =~= before.skip(i as int));
                } else {
                    assert(self.data@ =~= Seq::<u8>::empty());
                }
            }
        }
        self.first_sequnce_number = self.first_sequnce_number.wrapping_add(bytes_acked);
    }

    /// Returns none if the data associated with seq_number is not currently in the buffer, otherwise
    /// returns the number of bytes after the point inclusice of seq_number
    pub fn dist_to_end_from_seq(&self, seq_number: u32) -> (dist: Option<usize>)
        requires
            self.wf(),
        ensures
            dist == if self.offset(seq_number) < self.data@.len() {
                Some((self.data@.len() - self.offset(seq_number)) as usize)
            } else {
                None
            },
    {
        if self.data.len() == 0 {
            return None;
        }
        let start: u32 = self.first_sequnce_number;
        let end: u32 = start.wrapping_add(self.data.len() as u32);
        let in_no_wrapping: bool = seq_number >= start && (seq_number < end || end <= start);
        let in_wrapping: bool = seq_number < end && end < start;
        if !(in_wrapping || in_no_wrapping) {
            None
        } else {
            Some(end.wrapping_sub(seq_number) as usize)
        }
    }

    pub fn remaining_capacity(&self) -> (left: usize)
        requires
            self.wf(),
        ensures
            left == self.room(),
    {
        TCP_BUF_SIZE - self.data.len()
    }
}

} // verus!
