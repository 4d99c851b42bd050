//! The receiving half of a stream: out-of-order segments are stored in a ring and tracked as
//! intervals of sequence numbers until the bytes before them arrive.

use vstd::prelude::*;

use super::ring_buffer::{lemma_advance, lemma_fits_free_space, lemma_store_ahead, RingBuffer};
use super::tcp_stream::StreamSendThreadMsg;
use super::{MAX_WINDOW_SIZE, TCP_BUF_SIZE};

verus! {

pub struct WindowData {
    /// Left window edge, the first byte that has not arrived SEQ LAND
    pub left: u32,
    /// Right window edge (not part of the window) SEQ LAND
    pub right: u32,
    /// Reader index (first valid data for reader to read) SEQ LAND
    pub reader: u32,
    /// Refers to the current ack (SEQ land)
    pub current_ack: u32,
    /// Stretches `start..end` of sequence numbers that have arrived ahead of `left`, in window order
    pub intervals: Vec<(u32, u32)>,
}

pub struct RecvBuffer {
    /// Ring buffer for TCP read storage
    pub buf: RingBuffer,
    /// Window data, none until the peer's initial sequence number is known
    pub win: Option<WindowData>,
}

impl WindowData {
    /// How far sequence number `q` lies past the reader.
    pub open spec fn pos(self, q: u32) -> int {
        q.wrapping_sub(self.reader) as int
    }

    /// The number of bytes that can be read.
    pub open spec fn available(self) -> int {
        self.pos(self.left)
    }

    /// The number of bytes between the window edges.
    pub open spec fn size(self) -> int {
        self.right.wrapping_sub(self.left) as int
    }

    /// The intervals, as distances from the reader.
    pub open spec fn spans(self) -> Seq<(int, int)> {
        Seq::new(
            self.intervals@.len(),
            |i: int| (self.pos(self.intervals@[i].0), self.pos(self.intervals@[i].1)),
        )
    }

    /// The intervals reach no further than the buffer does, and no smaller set of intervals covers
    /// the same sequence numbers.
    pub open spec fn intervals_minimal(self) -> bool {
        &&& separated(self.spans())
        &&& forall|i: int|
            0 <= i < self.spans().len() ==> (#[trigger] self.spans()[i]).1 <= TCP_BUF_SIZE
    }

    pub open spec fn wf(self) -> bool {
        &&& self.right == self.reader.wrapping_add(TCP_BUF_SIZE as u32)
        &&& self.available() <= TCP_BUF_SIZE
        &&& self.current_ack == self.left
        &&& self.intervals_minimal()
        &&& forall|i: int|
            0 <= i < self.spans().len() ==> self.available() < (#[trigger] self.spans()[i]).0
    }

    /// Whether some interval holds the byte `p` places past the reader.
    pub open spec fn covers(self, p: int) -> bool {
        covered(self.spans(), p)
    }

    /// Whether the byte `o` places past the left window edge has arrived.
    pub open spec fn held(self, o: int) -> bool {
        self.covers(self.available() + o)
    }

    /// The part of a segment of `len` bytes at `seq` that the window takes, as distances from the
    /// left window edge. A segment that reaches past both edges is not taken.
    pub open spec fn accepted(self, seq: u32, len: nat) -> (int, int) {
        let a = seq.wrapping_sub(self.left) as int;
        if a < self.size() {
            (
                a,
                if a + len <= self.size() {
                    a + len
                } else {
                    self.size()
                },
            )
        } else if 0x1_0000_0000 < a + len <= 0x1_0000_0000 + self.size() {
            (0, a + len - 0x1_0000_0000)
        } else {
            (0, 0)
        }
    }

    /// Index into a segment at `seq` of its byte for window distance `o`.
    pub open spec fn segment_index(self, seq: u32, o: int) -> int {
        let a = seq.wrapping_sub(self.left) as int;
        if a < self.size() {
            o - a
        } else {
            o - a + 0x1_0000_0000
        }
    }

    fn position(&self, q: u32) -> (p: u32)
        ensures
            p == self.pos(q),
    {
        q.wrapping_sub(self.reader)
    }

    /// The run of intervals that overlap or adjoin `requested_start..requested_end`, as the index
    /// of its first and the index past its last.
    pub fn get_interval_between(&self, requested_start: u32, requested_end: u32) -> (run: (
        usize,
        usize,
    ))
        requires
            self.intervals_minimal(),
            self.pos(requested_start) <= self.pos(requested_end),
        ensures
            touching_run(
                self.spans(),
                self.pos(requested_start),
                self.pos(requested_end),
                run.0 as int,
                run.1 as int,
            ),
    {
        let n: usize = self.intervals.len();
        let start: u32 = self.position(requested_start);
        let end: u32 = self.position(requested_end);
        let mut lo: usize = 0;
        while lo < n && self.position(self.intervals[lo].1) < start
            invariant
                lo <= n,
                n == self.intervals@.len(),
                start == self.pos(requested_start),
                forall|i: int| 0 <= i < lo ==> (#[trigger] self.spans()[i]).1 < start,
            decreases n - lo,
        {
            lo += 1;
        }
        let mut hi: usize = lo;
        while hi < n && self.position(self.intervals[hi].0) <= end
            invariant
                lo <= hi <= n,
                n == self.intervals@.len(),
                end == self.pos(requested_end),
                forall|i: int| lo <= i < hi ==> (#[trigger] self.spans()[i]).0 <= end,
            decreases n - hi,
        {
            hi += 1;
        }
        proof {
            assert(lo < n ==> self.spans()[lo as int].1 >= start);
            assert(hi < n ==> self.spans()[hi as int].0 > end);
        }
        (lo, hi)
    }

    /// Adds `s..e` to the intervals, coalescing it with those that it overlaps or adjoins, and
    /// returns the interval that it ended up in. An empty `s..e` adds nothing, and unless it lies
    /// in or at the edge of an interval it ends up in none and is returned itself.
    pub fn handle_interval(&mut self, s: u32, e: u32) -> (interval: (u32, u32))
        requires
            old(self).intervals_minimal(),
            old(self).pos(s) <= old(self).pos(e) <= TCP_BUF_SIZE,
        ensures
            final(self).left == old(self).left,
            final(self).right == old(self).right,
            final(self).reader == old(self).reader,
            final(self).current_ack == old(self).current_ack,
            final(self).intervals_minimal(),
            forall|p: int| #[trigger]
                final(self).covers(p) <==> old(self).covers(p) || old(self).pos(s) <= p < old(
                    self,
                ).pos(e),
            s == e ==> *final(self) == *old(self),
            if s == e && forall|i: int|
                0 <= i < old(self).spans().len() ==> !((#[trigger] old(self).spans()[i]).0 <= old(
                    self,
                ).pos(s) <= old(self).spans()[i].1) {
                interval == (s, e)
            } else {
                final(self).intervals@.contains(interval)
            },
            old(self).pos(interval.0) <= old(self).pos(s),
            old(self).pos(e) <= old(self).pos(interval.1),
    {
        let n: usize = self.intervals.len();
        let (lo, hi) = self.get_interval_between(s, e);
        if s == e {
            if lo == hi {
                return (s, e);
            }
            assert(self.spans()[lo as int].0 <= self.pos(s) <= self.spans()[lo as int].1);
            return self.intervals[lo];
        }
        let mut l: u32 = s;
        let mut r: u32 = e;
        if lo < hi {
            if self.position(self.intervals[lo].0) < self.position(s) {
                l = self.intervals[lo].0;
            }
            if self.position(self.intervals[hi - 1].1) > self.position(e) {
                r = self.intervals[hi - 1].1;
            }
        }
        let ghost before = *self;
        let mut merged: Vec<(u32, u32)> = Vec::new();
        let mut i: usize = 0;
        while i < lo
            invariant
                i <= lo <= n,
                n == self.intervals@.len(),
                *self == before,
                merged@ == before.intervals@.subrange(0, i as int),
            decreases lo - i,
        {
            merged.push(self.intervals[i]);
            i += 1;
        }
        merged.push((l, r));
        i = hi;
        while i < n
            invariant
                lo <= hi <= i <= n,
                n == self.intervals@.len(),
                *self == before,
                merged@ == before.intervals@.subrange(0, lo as int).push((l, r))
                    + before.intervals@.subrange(hi as int, i as int),
            decreases n - i,
        {
            merged.push(self.intervals[i]);
            i += 1;
        }
        self.intervals = merged;
        proof {
            let spans = before.spans();
            assert(self.intervals@[lo as int] == (l, r));
            if lo < hi {
                assert(spans[lo as int].0 == before.pos(before.intervals@[lo as int].0));
                assert(spans[hi - 1].1 == before.pos(before.intervals@[hi - 1].1));
            }
            assert(self.spans() =~= merge_run(
                spans,
                before.pos(s),
                before.pos(e),
                lo as int,
                hi as int,
            ));
            lemma_merge_run(spans, before.pos(s), before.pos(e), lo as int, hi as int);
        }
        (l, r)
    }

    /// Whether `x` lies in `l..r`, which may run over the end of the sequence space.
    pub fn wrapping_within(x: u32, l: u32, r: u32) -> (within: bool)
        ensures
            within == (x.wrapping_sub(l) < r.wrapping_sub(l)),
    {
        if l <= r {
            l <= x && x < r
        } else {
            l <= x || x < r
        }
    }

    /// Prunes the intervals to the part inside the window.
    pub fn cleanup_intervals_outside_window(&mut self)
        requires
            old(self).intervals_minimal(),
            old(self).pos(old(self).left) <= old(self).pos(old(self).right) <= TCP_BUF_SIZE,
        ensures
            final(self).left == old(self).left,
            final(self).right == old(self).right,
            final(self).reader == old(self).reader,
            final(self).current_ack == old(self).current_ack,
            final(self).intervals_minimal(),
            forall|p: int| #[trigger]
                final(self).covers(p) <==> old(self).covers(p) && old(self).pos(old(self).left) <= p
                    < old(self).pos(old(self).right),
    {
        let n: usize = self.intervals.len();
        let left: u32 = self.left;
        let right: u32 = self.right;
        let ghost before = *self;
        let ghost spans = self.spans();
        let mut kept: Vec<(u32, u32)> = Vec::new();
        let ghost kept_spans = Seq::<(int, int)>::empty();
        let mut i: usize = 0;
        while i < n
            invariant
                i <= n,
                n == self.intervals@.len(),
                *self == before,
                spans == before.spans(),
                separated(spans),
                left == before.left,
                right == before.right,
                before.pos(left) <= before.pos(right) <= TCP_BUF_SIZE,
                (WindowData { intervals: kept, ..before }).spans() == kept_spans,
                separated(kept_spans),
                forall|k: int|
                    0 <= k < kept_spans.len() ==> (#[trigger] kept_spans[k]).1 <= TCP_BUF_SIZE,
                forall|k: int, j: int|
                    #![trigger kept_spans[k], spans[j]]
                    0 <= k < kept_spans.len() && i <= j < n ==> kept_spans[k].1 < spans[j].0,
                forall|p: int| #[trigger]
                    covered(kept_spans, p) <==> covered(spans.take(i as int), p) && before.pos(left)
                        <= p < before.pos(right),
            decreases n - i,
        {
            let (s, e) = self.intervals[i];
            let s2: u32 = if self.position(s) < self.position(left) {
                left
            } else {
                s
            };
            let e2: u32 = if self.position(e) > self.position(right) {
                right
            } else {
                e
            };
            proof {
                let prev = spans.take(i as int);
                assert(spans.take(i + 1) =~= prev.push(spans[i as int]));
                assert(spans[i as int] == (before.pos(s), before.pos(e)));
                let span = (before.pos(s2), before.pos(e2));
                assert forall|p: int| true implies #[trigger] covered(spans.take(i + 1), p) == (
                covered(prev, p) || before.pos(s) <= p < before.pos(e)) by {
                    lemma_covered_push(prev, spans[i as int], p);
                }
                assert forall|p: int| true implies #[trigger] covered(kept_spans.push(span), p) == (
                covered(kept_spans, p) || span.0 <= p < span.1) by {
                    lemma_covered_push(kept_spans, span, p);
                }
                if span.0 < span.1 {
                    kept_spans = kept_spans.push(span);
                }
            }
            if self.position(s2) < self.position(e2) {
                kept.push((s2, e2));
                assert((WindowData { intervals: kept, ..before }).spans() =~= kept_spans);
            }
            i += 1;
        }
        assert(spans.take(n as int) =~= spans);
        self.intervals = kept;
    }

    /// The part of a segment of `len` bytes at `seq_num` that the window takes: its first sequence
    /// number and the one past its last, and the same as indices into the segment.
    fn trim(&self, seq_num: u32, len: usize) -> (part: Option<(u32, u32, usize, usize)>)
        requires
            self.wf(),
            self.size() > 0,
            len <= u32::MAX - TCP_BUF_SIZE,
            len == 0 ==> seq_num != self.left && seq_num != self.right,
        ensures
            ({
                let (lo, hi) = self.accepted(seq_num, len as nat);
                match part {
                    Some((start, end, from, to)) => {
                        &&& lo < hi <= self.size()
                        &&& start.wrapping_sub(self.left) == lo
                        &&& self.pos(start) == self.available() + lo
                        &&& self.pos(end) == self.available() + hi
                        &&& from == self.segment_index(seq_num, lo)
                        &&& to == self.segment_index(seq_num, hi)
                        &&& from <= to <= len
                    },
                    None => lo >= hi,
                }
            }),
    {
        let seg_l: u32 = seq_num;
        let seg_r: u32 = seq_num.wrapping_add(len as u32);
        let has_l: bool = WindowData::wrapping_within(seg_l, self.left, self.right);
        let has_r: bool = WindowData::wrapping_within(
            seg_r.wrapping_sub(1),
            self.left,
            self.right,
        );
        if len == 0 {
            None
        } else if has_l && has_r {
            // entirely in window
            Some((seg_l, seg_r, 0, len))
        } else if has_l && !has_r {
            // start of data in window, right end is outside
            Some((seg_l, self.right, 0, self.right.wrapping_sub(seg_l) as usize))
        } else if !has_l && has_r {
            // start of data not in window, right end is inside
            Some((self.left, seg_r, self.left.wrapping_sub(seg_l) as usize, len))
        } else {
            None
        }
    }

    /// Adds `start..end` to what has arrived and moves the left edge and the ack over the bytes
    /// that have arrived without a gap. Returns how many these are.
    fn absorb(&mut self, start: u32, end: u32) -> (n: u32)
        requires
            old(self).wf(),
            old(self).available() <= old(self).pos(start) < old(self).pos(end) <= TCP_BUF_SIZE,
        ensures
            final(self).wf(),
            final(self).reader == old(self).reader,
            final(self).right == old(self).right,
            final(self).left.wrapping_sub(old(self).left) == n,
            final(self).available() == old(self).available() + n,
            ({
                let lo = old(self).pos(start) - old(self).available();
                let hi = old(self).pos(end) - old(self).available();
                &&& forall|o: int| 0 <= o < n ==> #[trigger] old(self).held(o) || lo <= o < hi
                &&& !old(self).held(n as int)
                &&& !(lo <= n < hi)
                &&& forall|o: int|
                    0 <= o ==> #[trigger] final(self).held(o) == (old(self).held(o + n) || lo <= o
                        + n < hi)
            }),
    {
        let ghost pre = *self;
        let (interval_l, interval_r) = self.handle_interval(start, end);
        let ghost merged = *self;
        proof {
            lemma_joined_interval(pre, merged, start, end, interval_l, interval_r);
        }
        let mut n: u32 = 0;
        if interval_l == self.left {
            n = interval_r.wrapping_sub(self.left);
            self.current_ack = self.current_ack.wrapping_add(n);
            self.left = interval_r;
        }
        assert(self.spans() =~= merged.spans());
        assert(pre.pos(self.left) == pre.available() + n);
        assert(!merged.covers(pre.available() + n));
        assert(forall|p: int| #[trigger] self.covers(p) == merged.covers(p));
        self.cleanup_intervals_outside_window();
        proof {
            let avail = pre.available();
            assert forall|i: int| 0 <= i < self.spans().len() implies self.available() < (
            #[trigger] self.spans()[i]).0 by {
                assert(self.covers(self.spans()[i].0));
            }
            assert forall|o: int| 0 <= o < n implies #[trigger] pre.held(o) || pre.pos(start)
                <= avail + o < pre.pos(end) by {
                assert(merged.covers(avail + o));
            }
            assert forall|o: int| 0 <= o implies #[trigger] self.held(o) == (pre.held(o + n)
                || pre.pos(start) <= avail + o + n < pre.pos(end)) by {
                let p = avail + n + o;
                assert(self.covers(p) == (merged.covers(p) && p < TCP_BUF_SIZE));
                if merged.covers(p) {
                    let i = choose|i: int|
                        #![trigger merged.spans()[i]]
                        0 <= i < merged.spans().len() && merged.spans()[i].0 <= p
                            < merged.spans()[i].1;
                    assert(merged.spans()[i].1 <= TCP_BUF_SIZE);
                }
            }
        }
        n
    }
}

impl RecvBuffer {
    pub open spec fn wf(self) -> bool {
        &&& self.buf.wf()
        &&& self.buf.cap() == TCP_BUF_SIZE
        &&& match self.win {
            Some(win) => win.wf() && win.available() == self.buf.used(),
            None => self.buf.used() == 0,
        }
    }

    /// The byte for window distance `o` once a segment `data` at `seq` has been taken: the
    /// segment's where it covers `o`, else the one stored before.
    pub open spec fn byte_after(self, seq: u32, data: Seq<u8>, o: int) -> u8 {
        let win = self.win->0;
        let (lo, hi) = win.accepted(seq, data.len());
        if lo <= o < hi {
            data[win.segment_index(seq, o)]
        } else {
            self.buf.ahead(o)
        }
    }

    /// Whether the byte for window distance `o` has arrived once a segment `data` at `seq` has been
    /// taken.
    pub open spec fn held_after(self, seq: u32, data: Seq<u8>, o: int) -> bool {
        let win = self.win->0;
        let (lo, hi) = win.accepted(seq, data.len());
        win.held(o) || lo <= o < hi
    }

    /// `post` is this buffer after the segment `data` at `seq`: the window's left edge has moved
    /// over the bytes that have arrived without a gap, these can be read, and what arrived beyond
    /// the gap is kept.
    pub open spec fn receives(self, post: RecvBuffer, seq: u32, data: Seq<u8>) -> bool {
        let win = self.win->0;
        let n = (post.win->0).left.wrapping_sub(win.left) as int;
        &&& post.win is Some
        &&& (post.win->0).reader == win.reader
        &&& (post.win->0).right == win.right
        &&& (post.win->0).current_ack == (post.win->0).left
        &&& n <= win.size()
        &&& forall|o: int| 0 <= o < n ==> #[trigger] self.held_after(seq, data, o)
        &&& !self.held_after(seq, data, n)
        &&& forall|o: int|
            0 <= o ==> #[trigger] (post.win->0).held(o) == self.held_after(seq, data, o + n)
        &&& post.buf@ == self.buf@ + Seq::new(n as nat, |o: int| self.byte_after(seq, data, o))
        &&& forall|o: int|
            0 <= o < win.size() - n ==> #[trigger] post.buf.ahead(o) == self.byte_after(
                seq,
                data,
                o + n,
            )
    }

    /// `post` is this buffer after the segment `data` at `seq`, whether or not the window takes any
    /// of it.
    pub open spec fn handles(self, post: RecvBuffer, seq: u32, data: Seq<u8>) -> bool {
        let (lo, hi) = (self.win->0).accepted(seq, data.len());
        if lo < hi {
            self.receives(post, seq, data)
        } else {
            post == self
        }
    }

    /// What is answered to a segment that left this buffer as `post`: where the next gap is and how
    /// much room there is, or nothing if there was no room.
    pub open spec fn answer(self, post: RecvBuffer) -> Option<StreamSendThreadMsg> {
        if (self.win->0).size() == 0 {
            None
        } else {
            Some(
                StreamSendThreadMsg::Ack(
                    (post.win->0).current_ack,
                    (post.win->0).size() as u16,
                ),
            )
        }
    }

    /// `post` is this buffer with its window started after a syn with the given sequence number.
    pub open spec fn starts(self, post: RecvBuffer, initial_seq: u32) -> bool {
        let win = post.win->0;
        let first = initial_seq.wrapping_add(1);
        &&& post.buf == self.buf
        &&& post.win is Some
        &&& win.left == first
        &&& win.right == first.wrapping_add(MAX_WINDOW_SIZE as u32)
        &&& win.reader == first
        &&& win.current_ack == first
        &&& win.intervals@.len() == 0
    }

    pub fn new() -> (buffer: RecvBuffer)
        ensures
            buffer.wf(),
            buffer.win is None,
            buffer.buf.buf@ == Seq::new(TCP_BUF_SIZE as nat, |i: int| 0u8),
            buffer.buf.read_idx == 0,
            buffer.buf.write_idx == 0,
    {
        RecvBuffer { buf: RingBuffer::new(TCP_BUF_SIZE), win: None }
    }

    pub fn window_size(&self) -> (size: u16)
        requires
            self.wf(),
            self.win is Some,
        ensures
            size == (self.win->0).size(),
            size == TCP_BUF_SIZE - self.buf@.len(),
    {
        let win = self.win.as_ref().unwrap();
        // fits because the window is never larger than TCP_BUF_SIZE
        win.right.wrapping_sub(win.left) as u16
    }

    /// Takes the part of a segment that lies in the window. The answer is what is to be sent to the
    /// peer; a segment that arrives while the window is closed gets none.
    #[verifier::spinoff_prover]
    #[verifier::rlimit(40)]
    pub fn handle_seq(&mut self, seq_num: u32, data: &[u8]) -> (answer: Option<StreamSendThreadMsg>)
        requires
            old(self).wf(),
            old(self).win is Some,
            data@.len() <= u32::MAX - TCP_BUF_SIZE,
            data@.len() == 0 && (old(self).win->0).size() > 0 ==> {
                &&& seq_num != (old(self).win->0).left
                &&& seq_num != (old(self).win->0).right
            },
        ensures
            final(self).wf(),
            final(self).win is Some,
            old(self).handles(*final(self), seq_num, data@),
            answer == old(self).answer(*final(self)),
    {
        let mut win = self.win.take().unwrap();
        let ghost pre = *old(self);
        let ghost pre_win = win;
        if win.left == win.right {
            // dropping packet, window size is 0
            self.win = Some(win);
            return None;
        }
        if let Some((start, end, from, to)) = win.trim(seq_num, data.len()) {
            let ghost (lo, hi) = pre_win.accepted(seq_num, data@.len());
            proof {
                lemma_fits_free_space(self.buf, lo, (hi - lo) as nat);
            }
            let chunk = vstd::slice::slice_subrange(data, from, to);
            self.buf.push_with_offset(chunk, start.wrapping_sub(win.left) as usize);
            let ghost stored = self.buf;
            proof {
                lemma_store_ahead(pre.buf, stored, chunk@, lo);
            }
            let n: u32 = win.absorb(start, end);
            if n > 0 {
                proof {
                    lemma_fits_free_space(self.buf, 0, n as nat);
                }
                self.buf.move_write_idx(n as usize);
                proof {
                    lemma_advance(stored, self.buf, n as int);
                }
            }
            proof {
                assert forall|o: int| 0 <= o < n implies #[trigger] pre.held_after(
                    seq_num,
                    data@,
                    o,
                ) by {
                    assert(pre_win.held(o) || lo <= o < hi);
                }
                assert forall|o: int| 0 <= o < pre_win.size() implies #[trigger] stored.ahead(o)
                    == pre.byte_after(seq_num, data@, o) by {}
                assert(self.buf@ =~= pre.buf@ + Seq::new(
                    n as nat,
                    |o: int| pre.byte_after(seq_num, data@, o),
                ));
            }
        }
        let ack: u32 = win.current_ack;
        self.win = Some(win);
        Some(StreamSendThreadMsg::Ack(ack, self.window_size()))
    }

    /// Starts the window after a peer's SYN with the given sequence number.
    pub fn set_initial_seq_num_data(&mut self, initial_seq: u32)
        ensures
            old(self).starts(*final(self), initial_seq),
            old(self).wf() && old(self).buf@.len() == 0 ==> final(self).wf(),
    {
        // accounts for SYN increment
        let isn_after_syn: u32 = initial_seq.wrapping_add(1);
        self.win = Some(
            WindowData {
                left: isn_after_syn,
                right: isn_after_syn.wrapping_add(MAX_WINDOW_SIZE as u32),
                reader: isn_after_syn,
                current_ack: isn_after_syn,
                intervals: Vec::new(),
            },
        );
    }

    /// `post` is this buffer after its first `n` readable bytes were read: the right window edge
    /// has moved on by `n` and everything else stands where it was.
    pub open spec fn reads(self, post: RecvBuffer, n: int) -> bool {
        &&& post.win is Some
        &&& (post.win->0).reader == (self.win->0).reader.wrapping_add(n as u32)
        &&& (post.win->0).right == (self.win->0).right.wrapping_add(n as u32)
        &&& (post.win->0).left == (self.win->0).left
        &&& (post.win->0).current_ack == (self.win->0).current_ack
        &&& (post.win->0).intervals == (self.win->0).intervals
        &&& forall|o: int| 0 <= o ==> #[trigger] (post.win->0).held(o) == (self.win->0).held(o)
        &&& post.buf@ == self.buf@.skip(n)
        &&& forall|o: int|
            0 <= o < (self.win->0).size() ==> #[trigger] post.buf.ahead(o) == self.buf.ahead(o)
    }

    /// Read data into buffer, until buffer is full. Returns how much was read and the window size
    /// to advertise from now on, if it changed.
    pub fn read_data(&mut self, data: &mut [u8]) -> (read: (usize, Option<StreamSendThreadMsg>))
        requires
            old(self).wf(),
            old(self).win is Some,
        ensures
            final(self).wf(),
            final(self).win is Some,
            final(data)@.len() == old(data)@.len(),
            ({
                let n = if old(data)@.len() < old(self).buf@.len() {
                    old(data)@.len() as int
                } else {
                    old(self).buf@.len() as int
                };
                &&& read.0 == n
                &&& final(data)@ == old(self).buf@.take(n) + old(data)@.skip(n)
                &&& n == 0 ==> read.1 is None && *final(self) == *old(self)
                &&& n > 0 ==> old(self).reads(*final(self), n) && read.1 == Some(
                    StreamSendThreadMsg::UpdateWindowSize((final(self).win->0).size() as u16),
                )
            }),
    {
        let mut win = self.win.take().unwrap();
        let ghost pre = *old(self);
        let ghost pre_win = win;
        let ghost pre_data = data@;
        let available: usize = win.left.wrapping_sub(win.reader) as usize;
        let n: usize = if data.len() < available {
            data.len()
        } else {
            available
        };
        if n == 0 {
            self.win = Some(win);
            assert(data@ =~= pre.buf@.take(0) + pre_data.skip(0));
            return (0, None);
        }
        let bytes: Vec<u8> = self.buf.pop(data.len());
        let mut i: usize = 0;
        while i < n
            invariant
                i <= n,
                n == bytes@.len(),
                n <= data@.len(),
                data@.len() == pre_data.len(),
                data@ == bytes@.take(i as int) + pre_data.skip(i as int),
            decreases n - i,
        {
            data[i] = bytes[i];
            i += 1;
            assert(data@ =~= bytes@.take(i as int) + pre_data.skip(i as int));
        }
        assert(bytes@.take(n as int) =~= bytes@);
        win.reader = win.reader.wrapping_add(n as u32);
        win.right = win.right.wrapping_add(n as u32);
        let ghost post_win = win;
        self.win = Some(win);
        proof {
            lemma_shift_reader(pre_win, post_win, n as int);
        }
        (n, Some(StreamSendThreadMsg::UpdateWindowSize(self.window_size())))
    }
}

/// Where adding `s..e` to the intervals of a window leaves the left edge: the interval that `s..e`
/// ended up in starts at the edge, or nothing that holds the edge's byte has arrived.
proof fn lemma_joined_interval(
    pre: WindowData,
    post: WindowData,
    s: u32,
    e: u32,
    l: u32,
    r: u32,
)
    requires
        pre.wf(),
        pre.available() <= pre.pos(s) < pre.pos(e) <= TCP_BUF_SIZE,
        post.left == pre.left,
        post.reader == pre.reader,
        post.intervals_minimal(),
        forall|p: int| #[trigger]
            post.covers(p) <==> pre.covers(p) || pre.pos(s) <= p < pre.pos(e),
        post.intervals@.contains((l, r)),
        pre.pos(l) <= pre.pos(s),
        pre.pos(e) <= pre.pos(r),
    ensures
        pre.pos(r) <= TCP_BUF_SIZE,
        l == pre.left ==> {
            &&& forall|p: int| pre.available() <= p < pre.pos(r) ==> #[trigger] post.covers(p)
            &&& !post.covers(pre.pos(r))
        },
        l != pre.left ==> !post.covers(pre.available()),
{
    let k = choose|k: int| 0 <= k < post.intervals@.len() && post.intervals@[k] == (l, r);
    let spans = post.spans();
    assert(spans[k] == (pre.pos(l), pre.pos(r)));
    assert(post.covers(spans[k].0));
    if l == pre.left {
        if post.covers(pre.pos(r)) {
            let j = choose|j: int|
                #![trigger spans[j]]
                0 <= j < spans.len() && spans[j].0 <= pre.pos(r) < spans[j].1;
            assert(spans[j].0 <= spans[k].1 && spans[k].1 < spans[j].1);
        }
    } else {
        assert(pre.pos(l) != pre.available());
        assert(!pre.covers(pre.available()));
    }
}

/// Moving the reader on by `n` keeps a window well formed and leaves what it holds where it is
/// relative to the left edge.
proof fn lemma_shift_reader(pre: WindowData, post: WindowData, n: int)
    requires
        pre.wf(),
        0 <= n <= pre.available(),
        post.reader == pre.reader.wrapping_add(n as u32),
        post.right == pre.right.wrapping_add(n as u32),
        post.left == pre.left,
        post.current_ack == pre.current_ack,
        post.intervals == pre.intervals,
    ensures
        post.wf(),
        post.available() == pre.available() - n,
        forall|o: int| 0 <= o ==> #[trigger] post.held(o) == pre.held(o),
{
    assert forall|i: int| 0 <= i < pre.spans().len() implies #[trigger] post.spans()[i] == (
        pre.spans()[i].0 - n,
        pre.spans()[i].1 - n,
    ) by {
        assert(pre.spans()[i].0 > pre.available());
    }
    assert forall|i: int| 0 <= i < post.spans().len() implies post.available() < (
    #[trigger] post.spans()[i]).0 && post.spans()[i].1 <= TCP_BUF_SIZE && post.spans()[i].0
        < post.spans()[i].1 by {
        assert(pre.spans()[i].0 > pre.available());
        assert(pre.spans()[i].1 <= TCP_BUF_SIZE);
    }
    assert forall|i: int, j: int|
        #![trigger post.spans()[i], post.spans()[j]]
        0 <= i < j < post.spans().len() implies post.spans()[i].1 < post.spans()[j].0 by {
        assert(pre.spans()[i].1 < pre.spans()[j].0);
    }
    assert forall|o: int| 0 <= o implies #[trigger] post.held(o) == pre.held(o) by {
        if post.held(o) {
            let i = choose|i: int|
                #![trigger post.spans()[i]]
                0 <= i < post.spans().len() && post.spans()[i].0 <= post.available() + o
                    < post.spans()[i].1;
            assert(pre.spans()[i].0 <= pre.available() + o < pre.spans()[i].1);
        }
        if pre.held(o) {
            let i = choose|i: int|
                #![trigger pre.spans()[i]]
                0 <= i < pre.spans().len() && pre.spans()[i].0 <= pre.available() + o
                    < pre.spans()[i].1;
            assert(post.spans()[i].0 <= post.available() + o < post.spans()[i].1);
        }
    }
}

impl RecvBuffer {
    /// Every byte in the buffer is the peer's: of the bytes `stream(0)`, `stream(1)`, .. that the
    /// peer sends after its SYN, the readable ones are those from index `start` on, and each one
    /// that arrived ahead of a gap stands at its place.
    pub open spec fn carries(self, stream: spec_fn(int) -> u8, start: int) -> bool {
        &&& self.win is Some
        &&& forall|i: int| 0 <= i < self.buf@.len() ==> #[trigger] self.buf@[i] == stream(start + i)
        &&& forall|o: int|
            0 <= o < (self.win->0).size() && (self.win->0).held(o) ==> #[trigger] self.buf.ahead(o)
                == stream(start + self.buf@.len() + o)
    }

    /// Whether `data` at sequence number `seq` are the peer's bytes from index `k` on, with `k` the
    /// index nearest to the left window edge that has this sequence number. The left edge is the
    /// byte with index `edge`.
    pub open spec fn is_segment(
        self,
        stream: spec_fn(int) -> u8,
        edge: int,
        k: int,
        seq: u32,
        data: Seq<u8>,
    ) -> bool {
        &&& -0x8000_0000 <= k - edge < 0x8000_0000
        &&& data.len() < 0x8000_0000
        &&& seq.wrapping_sub((self.win->0).left) == if k >= edge {
            k - edge
        } else {
            k - edge + 0x1_0000_0000
        }
        &&& forall|i: int| 0 <= i < data.len() ==> #[trigger] data[i] == stream(k + i)
    }
}

/// Segments of the peer's stream may arrive in any order, overlap, repeat and run over the end of
/// the sequence space: each leaves a buffer that holds the peer's bytes only, every one at its
/// place.
pub proof fn law_segments_in_any_order(
    pre: RecvBuffer,
    post: RecvBuffer,
    stream: spec_fn(int) -> u8,
    start: int,
    k: int,
    seq: u32,
    data: Seq<u8>,
)
    requires
        pre.wf(),
        pre.carries(stream, start),
        pre.is_segment(stream, start + pre.buf@.len(), k, seq, data),
        pre.handles(post, seq, data),
    ensures
        post.carries(stream, start),
{
    let win = pre.win->0;
    let (lo, hi) = win.accepted(seq, data.len());
    if lo >= hi {
        return;
    }
    let edge = start + pre.buf@.len();
    assert forall|o: int|
        0 <= o < win.size() && pre.held_after(seq, data, o) implies #[trigger] pre.byte_after(
        seq,
        data,
        o,
    ) == stream(edge + o) by {
        if lo <= o < hi {
            assert(data[win.segment_index(seq, o)] == stream(k + win.segment_index(seq, o)));
        } else {
            assert(pre.buf.ahead(o) == stream(edge + o));
        }
    }
    let n = (post.win->0).left.wrapping_sub(win.left) as int;
    assert forall|i: int| 0 <= i < post.buf@.len() implies #[trigger] post.buf@[i] == stream(
        start + i,
    ) by {
        if i < pre.buf@.len() {
            assert(post.buf@[i] == pre.buf@[i]);
        } else {
            let o = i - pre.buf@.len();
            assert(pre.held_after(seq, data, o));
            assert(post.buf@[i] == pre.byte_after(seq, data, o));
        }
    }
    assert forall|o: int|
        0 <= o < (post.win->0).size() && (post.win->0).held(o) implies #[trigger] post.buf.ahead(o)
        == stream(start + post.buf@.len() + o) by {
        assert(post.buf.ahead(o) == pre.byte_after(seq, data, o + n));
        assert(pre.held_after(seq, data, o + n));
    }
}

/// A segment that starts where the last one ended, and that there is room for, can be read right
/// after what could be read before, and the ack passes it.
pub proof fn law_in_order_data_is_read_back(
    pre: RecvBuffer,
    post: RecvBuffer,
    data: Seq<u8>,
)
    requires
        pre.wf(),
        pre.win is Some,
        0 < data.len() <= (pre.win->0).size(),
        pre.handles(post, (pre.win->0).left, data),
    ensures
        post.buf@.len() >= pre.buf@.len() + data.len(),
        post.buf@.take((pre.buf@.len() + data.len()) as int) == pre.buf@ + data,
        (post.win->0).current_ack.wrapping_sub((pre.win->0).left) >= data.len(),
{
    let win = pre.win->0;
    let seq = win.left;
    let n = (post.win->0).left.wrapping_sub(win.left) as int;
    assert(win.accepted(seq, data.len()) == (0int, data.len() as int));
    assert(n >= data.len()) by {
        if n < data.len() {
            assert(pre.held_after(seq, data, n));
        }
    }
    assert(post.buf@.take((pre.buf@.len() + data.len()) as int) =~= pre.buf@ + data) by {
        assert forall|i: int| 0 <= i < data.len() implies post.buf@[pre.buf@.len() + i]
            == data[i] by {
            assert(post.buf@[pre.buf@.len() + i] == pre.byte_after(seq, data, i));
        }
    }
}

/// What has been acked already, and what lies past the window, changes nothing when it arrives.
pub proof fn law_outside_the_window_nothing_changes(
    pre: RecvBuffer,
    post: RecvBuffer,
    seq: u32,
    data: Seq<u8>,
)
    requires
        pre.wf(),
        pre.win is Some,
        pre.handles(post, seq, data),
        ({
            let a = seq.wrapping_sub((pre.win->0).left) as int;
            a >= (pre.win->0).size() && a + data.len() <= 0x1_0000_0000
        }),
    ensures
        post == pre,
{
}

/// Reading gives the peer's bytes in the order it sent them, none left out and none twice.
pub proof fn law_reads_in_order(
    pre: RecvBuffer,
    post: RecvBuffer,
    stream: spec_fn(int) -> u8,
    start: int,
    n: int,
)
    requires
        pre.wf(),
        0 < n <= pre.buf@.len(),
        pre.carries(stream, start),
        pre.reads(post, n),
    ensures
        pre.buf@.take(n) == Seq::new(n as nat, |i: int| stream(start + i)),
        post.carries(stream, start + n),
{
    assert(pre.buf@.take(n) =~= Seq::new(n as nat, |i: int| stream(start + i)));
    assert forall|i: int| 0 <= i < post.buf@.len() implies #[trigger] post.buf@[i] == stream(
        start + n + i,
    ) by {
        assert(post.buf@[i] == pre.buf@[i + n]);
    }
    assert forall|o: int|
        0 <= o < (post.win->0).size() && (post.win->0).held(o) implies #[trigger] post.buf.ahead(o)
        == stream(start + n + post.buf@.len() + o) by {
        let win = pre.win->0;
        assert(win.held(o));
        assert(o < win.size()) by {
            let i = choose|i: int|
                #![trigger win.spans()[i]]
                0 <= i < win.spans().len() && win.spans()[i].0 <= win.available() + o
                    < win.spans()[i].1;
            assert(win.spans()[i].1 <= TCP_BUF_SIZE);
        }
        assert(post.buf.ahead(o) == pre.buf.ahead(o));
    }
}

/// A buffer that has just learned the peer's initial sequence number holds nothing yet, so it
/// carries any stream from its beginning.
pub proof fn law_fresh_window_carries(buffer: RecvBuffer, stream: spec_fn(int) -> u8)
    requires
        buffer.wf(),
        buffer.win is Some,
        buffer.buf@.len() == 0,
        (buffer.win->0).intervals@.len() == 0,
    ensures
        buffer.carries(stream, 0),
{
}

/// A segment as it arrives: its sequence number and its bytes.
pub type Segment = (u32, Seq<u8>);

impl RecvBuffer {
    /// Whether the byte `p` places past the reader has arrived.
    pub open spec fn arrived(self, p: int) -> bool {
        p < (self.win->0).available() || (self.win->0).covers(p)
    }

    /// Whether the window can take what is new of a segment: the segment starts in the window, or
    /// it starts with bytes that can be read already and ends in the window or before it.
    pub open spec fn in_reach(self, segment: Segment) -> bool {
        let win = self.win->0;
        let p = win.pos(segment.0);
        &&& p < TCP_BUF_SIZE
        &&& segment.1.len() <= u32::MAX - TCP_BUF_SIZE
        &&& win.available() <= p || p + segment.1.len() <= TCP_BUF_SIZE
    }
}

/// Whether a segment holds the byte `p` places past the sequence number `first`.
pub open spec fn segment_holds(segment: Segment, first: u32, p: int) -> bool {
    let from = segment.0.wrapping_sub(first) as int;
    from <= p < from + segment.1.len()
}

/// Whether one of the segments holds the byte `p` places past the sequence number `first`.
pub open spec fn some_segment_holds(segments: Seq<Segment>, first: u32, p: int) -> bool {
    exists|i: int|
        0 <= i < segments.len() && segment_holds(#[trigger] segments[i], first, p)
}

/// `states` are a buffer before, between and after the arrivals of `segments`, each of which is in
/// reach as it arrives. Nothing is read meanwhile.
pub open spec fn takes_in_turn(states: Seq<RecvBuffer>, segments: Seq<Segment>) -> bool {
    &&& states.len() == segments.len() + 1
    &&& forall|i: int|
        0 <= i < states.len() ==> (#[trigger] states[i]).wf() && states[i].win is Some
    &&& forall|i: int|
        0 <= i < segments.len() ==> {
            &&& states[i].in_reach(#[trigger] segments[i])
            &&& states[i].handles(states[i + 1], segments[i].0, segments[i].1)
        }
}

/// What a segment in reach adds to what has arrived.
proof fn lemma_arrives(pre: RecvBuffer, post: RecvBuffer, segment: Segment)
    requires
        pre.wf(),
        post.wf(),
        pre.win is Some,
        pre.in_reach(segment),
        pre.handles(post, segment.0, segment.1),
    ensures
        (post.win->0).reader == (pre.win->0).reader,
        (pre.win->0).available() <= (post.win->0).available(),
        forall|p: int|
            0 <= p < TCP_BUF_SIZE ==> (#[trigger] post.arrived(p) <==> pre.arrived(p)
                || segment_holds(segment, (pre.win->0).reader, p)),
{
    let (seq, data) = segment;
    let win = pre.win->0;
    let (lo, hi) = win.accepted(seq, data.len());
    let avail = win.available();
    if lo < hi {
        let n = (post.win->0).left.wrapping_sub(win.left) as int;
        assert((post.win->0).available() == avail + n);
        assert forall|p: int| 0 <= p < TCP_BUF_SIZE implies (#[trigger] post.arrived(p)
            <==> pre.arrived(p) || segment_holds(segment, win.reader, p)) by {
            let o = p - avail;
            if avail <= p {
                assert(lo <= o < hi <==> segment_holds(segment, win.reader, p));
                assert(win.held(o) == win.covers(p));
                if o < n {
                    assert(pre.held_after(seq, data, o));
                } else {
                    assert((post.win->0).held(o - n) == pre.held_after(seq, data, o));
                    assert((post.win->0).held(o - n) == (post.win->0).covers(p));
                }
            }
        }
    }
}

/// After any number of arrivals what has arrived is what had before and what the segments hold.
proof fn lemma_all_arrive(states: Seq<RecvBuffer>, segments: Seq<Segment>, k: int)
    requires
        takes_in_turn(states, segments),
        0 <= k < states.len(),
    ensures
        (states[k].win->0).reader == (states[0].win->0).reader,
        (states[0].win->0).available() <= (states[k].win->0).available(),
        forall|p: int|
            0 <= p < TCP_BUF_SIZE ==> (#[trigger] states[k].arrived(p) <==> states[0].arrived(p)
                || some_segment_holds(segments.take(k), (states[0].win->0).reader, p)),
    decreases k,
{
    if k > 0 {
        let first = (states[0].win->0).reader;
        let last = segments[k - 1];
        lemma_all_arrive(states, segments, k - 1);
        lemma_arrives(states[k - 1], states[k - 1 + 1], last);
        assert forall|p: int| 0 <= p < TCP_BUF_SIZE implies (#[trigger] states[k].arrived(p)
            <==> states[0].arrived(p) || some_segment_holds(segments.take(k), first, p)) by {
            let shorter = segments.take(k - 1);
            let longer = segments.take(k);
            assert(states[k - 1].arrived(p) <==> states[0].arrived(p) || some_segment_holds(
                shorter,
                first,
                p,
            ));
            if some_segment_holds(shorter, first, p) {
                let i = choose|i: int|
                    0 <= i < shorter.len() && segment_holds(#[trigger] shorter[i], first, p);
                assert(longer[i] == shorter[i]);
            }
            if some_segment_holds(longer, first, p) {
                let i = choose|i: int|
                    0 <= i < longer.len() && segment_holds(#[trigger] longer[i], first, p);
                if i < k - 1 {
                    assert(shorter[i] == longer[i]);
                }
            }
            if segment_holds(last, first, p) {
                assert(longer[k - 1] == last);
            }
        }
    }
}

/// The ack never goes back.
pub proof fn law_ack_never_goes_back(
    states: Seq<RecvBuffer>,
    segments: Seq<Segment>,
    i: int,
    j: int,
)
    requires
        takes_in_turn(states, segments),
        0 <= i <= j < states.len(),
    ensures
        (states[j].win->0).reader == (states[i].win->0).reader,
        (states[i].win->0).pos((states[i].win->0).current_ack) <= (states[i].win->0).pos(
            (states[j].win->0).current_ack,
        ),
    decreases j - i,
{
    if i < j {
        law_ack_never_goes_back(states, segments, i, j - 1);
        assert(states[j - 1].in_reach(segments[j - 1]));
        lemma_arrives(states[j - 1], states[j - 1 + 1], segments[j - 1]);
    }
}

/// The ack is the first sequence number that has not arrived: after a syn with sequence number
/// `initial_seq` and any arrivals, the segments hold every byte up to the ack and, if it lies in
/// the buffer, not the one that the ack names. The window is the room that is left. This ack and this
/// window are the answer to the last segment, unless the window was closed before.
pub proof fn law_ack_is_the_first_gap(
    fresh: RecvBuffer,
    states: Seq<RecvBuffer>,
    segments: Seq<Segment>,
    initial_seq: u32,
)
    requires
        takes_in_turn(states, segments),
        fresh.starts(states[0], initial_seq),
    ensures
        ({
            let first = initial_seq.wrapping_add(1);
            let win = states.last().win->0;
            let n = win.current_ack.wrapping_sub(first) as int;
            &&& forall|p: int| 0 <= p < n ==> #[trigger] some_segment_holds(segments, first, p)
            &&& n < TCP_BUF_SIZE ==> !some_segment_holds(segments, first, n)
            &&& win.size() == TCP_BUF_SIZE - n
        }),
        segments.len() > 0 ==> {
            let before = states[segments.len() - 1];
            let win = states.last().win->0;
            (before.win->0).size() > 0 ==> before.answer(states.last()) == Some(
                StreamSendThreadMsg::Ack(win.current_ack, win.size() as u16),
            )
        },
{
    let first = initial_seq.wrapping_add(1);
    let last = states.last();
    let n = (last.win->0).current_ack.wrapping_sub(first) as int;
    lemma_all_arrive(states, segments, states.len() - 1);
    assert(segments.take(segments.len() as int) =~= segments);
    assert(n == (last.win->0).available());
    assert forall|p: int| 0 <= p < n implies #[trigger] some_segment_holds(
        segments,
        first,
        p,
    ) by {
        assert(last.arrived(p));
        assert(!states[0].arrived(p));
    }
    if n < TCP_BUF_SIZE {
        assert(!last.arrived(n));
    }
}

/// The ack and the window do not depend on the order in which segments arrive, nor on how often
/// each does: two buffers that were alike and took the same segments answer alike.
pub proof fn law_ack_is_the_same_in_any_order(
    states: Seq<RecvBuffer>,
    segments: Seq<Segment>,
    other_states: Seq<RecvBuffer>,
    other_segments: Seq<Segment>,
)
    requires
        takes_in_turn(states, segments),
        takes_in_turn(other_states, other_segments),
        states[0] == other_states[0],
        forall|segment: Segment| #[trigger]
            segments.contains(segment) <==> other_segments.contains(segment),
    ensures
        (states.last().win->0).current_ack == (other_states.last().win->0).current_ack,
        (states.last().win->0).size() == (other_states.last().win->0).size(),
{
    let a = states.last();
    let b = other_states.last();
    let first = (states[0].win->0).reader;
    lemma_all_arrive(states, segments, states.len() - 1);
    lemma_all_arrive(other_states, other_segments, other_states.len() - 1);
    assert(segments.take(segments.len() as int) =~= segments);
    assert(other_segments.take(other_segments.len() as int) =~= other_segments);
    assert forall|p: int| 0 <= p < TCP_BUF_SIZE implies (#[trigger] a.arrived(p) <==> b.arrived(
        p,
    )) by {
        if some_segment_holds(segments, first, p) {
            lemma_same_segments_hold(segments, other_segments, first, p);
        }
        if some_segment_holds(other_segments, first, p) {
            lemma_same_segments_hold(other_segments, segments, first, p);
        }
        assert(a.arrived(p) <==> states[0].arrived(p) || some_segment_holds(segments, first, p));
        assert(b.arrived(p) <==> states[0].arrived(p) || some_segment_holds(
            other_segments,
            first,
            p,
        ));
    }
    let n = (a.win->0).available();
    let m = (b.win->0).available();
    if n < m {
        assert(!a.arrived(n));
        assert(b.arrived(n));
    }
    if m < n {
        assert(!b.arrived(m));
        assert(a.arrived(m));
    }
}

proof fn lemma_same_segments_hold(a: Seq<Segment>, b: Seq<Segment>, first: u32, p: int)
    requires
        forall|segment: Segment| #[trigger] a.contains(segment) ==> b.contains(segment),
        some_segment_holds(a, first, p),
    ensures
        some_segment_holds(b, first, p),
{
    let i = choose|i: int| 0 <= i < a.len() && segment_holds(#[trigger] a[i], first, p);
    assert(a.contains(a[i]));
    let j = choose|j: int| 0 <= j < b.len() && b[j] == a[i];
    assert(segment_holds(b[j], first, p));
}

/// Non-empty spans in order of which no two overlap or adjoin.
pub open spec fn separated(spans: Seq<(int, int)>) -> bool {
    &&& forall|i: int| 0 <= i < spans.len() ==> (#[trigger] spans[i]).0 < spans[i].1
    &&& forall|i: int, j: int|
        #![trigger spans[i], spans[j]]
        0 <= i < j < spans.len() ==> spans[i].1 < spans[j].0
}

/// Whether one of the spans holds `p`.
pub open spec fn covered(spans: Seq<(int, int)>, p: int) -> bool {
    exists|i: int|
        #![trigger spans[i]]
        0 <= i < spans.len() && spans[i].0 <= p < spans[i].1
}

/// Whether the spans that overlap or adjoin `s..e` are those from index `lo` up to `hi`.
pub open spec fn touching_run(spans: Seq<(int, int)>, s: int, e: int, lo: int, hi: int) -> bool {
    &&& 0 <= lo <= hi <= spans.len()
    &&& forall|i: int|
        0 <= i < spans.len() ==> (lo <= i < hi <==> (#[trigger] spans[i]).0 <= e && s
            <= spans[i].1)
    &&& forall|i: int| 0 <= i < lo ==> (#[trigger] spans[i]).1 < s
    &&& forall|i: int| hi <= i < spans.len() ==> e < (#[trigger] spans[i]).0
}

/// The spans with those from index `lo` up to `hi` replaced by one that reaches over them and
/// `s..e`.
spec fn merge_run(spans: Seq<(int, int)>, s: int, e: int, lo: int, hi: int) -> Seq<(int, int)> {
    let l = if lo < hi && spans[lo].0 < s {
        spans[lo].0
    } else {
        s
    };
    let r = if lo < hi && spans[hi - 1].1 > e {
        spans[hi - 1].1
    } else {
        e
    };
    spans.subrange(0, lo).push((l, r)) + spans.subrange(hi, spans.len() as int)
}

proof fn lemma_merge_run(spans: Seq<(int, int)>, s: int, e: int, lo: int, hi: int)
    requires
        separated(spans),
        s < e,
        touching_run(spans, s, e, lo, hi),
    ensures
        separated(merge_run(spans, s, e, lo, hi)),
        forall|p: int| #[trigger]
            covered(merge_run(spans, s, e, lo, hi), p) <==> covered(spans, p) || s <= p < e,
        e <= TCP_BUF_SIZE && (forall|i: int|
            0 <= i < spans.len() ==> (#[trigger] spans[i]).1 <= TCP_BUF_SIZE) ==> forall|i: int|
            0 <= i < merge_run(spans, s, e, lo, hi).len() ==> (#[trigger] merge_run(
                spans,
                s,
                e,
                lo,
                hi,
            )[i]).1 <= TCP_BUF_SIZE,
{
    let merged = merge_run(spans, s, e, lo, hi);
    let shift = hi - lo - 1;
    assert forall|k: int| 0 <= k < lo implies #[trigger] merged[k] == spans[k] by {}
    assert forall|k: int| lo < k < merged.len() implies #[trigger] merged[k] == spans[k + shift] by {}
    assert forall|p: int| #[trigger] covered(merged, p) <==> covered(spans, p) || s <= p < e by {
        if covered(merged, p) {
            let k = choose|k: int|
                #![trigger merged[k]]
                0 <= k < merged.len() && merged[k].0 <= p < merged[k].1;
            if k < lo {
                assert(spans[k] == merged[k]);
            } else if k > lo {
                assert(spans[k + shift] == merged[k]);
            } else if p < s {
                assert(spans[lo].0 <= p < spans[lo].1);
            } else if p >= e {
                assert(spans[hi - 1].0 <= p < spans[hi - 1].1);
            }
        }
        if covered(spans, p) {
            let k = choose|k: int|
                #![trigger spans[k]]
                0 <= k < spans.len() && spans[k].0 <= p < spans[k].1;
            if k < lo {
                assert(merged[k] == spans[k]);
            } else if k >= hi {
                assert(merged[k - shift] == spans[k]);
            } else {
                assert(spans[lo].0 <= spans[k].0);
                assert(spans[k].1 <= spans[hi - 1].1);
                assert(merged[lo].0 <= p < merged[lo].1);
            }
        }
        if s <= p < e {
            assert(merged[lo].0 <= p < merged[lo].1);
        }
    }
}

proof fn lemma_covered_push(spans: Seq<(int, int)>, span: (int, int), p: int)
    ensures
        covered(spans.push(span), p) == (covered(spans, p) || span.0 <= p < span.1),
{
    let pushed = spans.push(span);
    if covered(spans, p) {
        let k = choose|k: int|
            #![trigger spans[k]]
            0 <= k < spans.len() && spans[k].0 <= p < spans[k].1;
        assert(pushed[k] == spans[k]);
    }
    if span.0 <= p < span.1 {
        assert(pushed[spans.len() as int] == span);
    }
    if covered(pushed, p) {
        let k = choose|k: int|
            #![trigger pushed[k]]
            0 <= k < pushed.len() && pushed[k].0 <= p < pushed[k].1;
        if k < spans.len() {
            assert(spans[k] == pushed[k]);
        }
    }
}

/// A segment is answered with the first number that has not arrived and the room that is left,
/// whether or not anything of it was taken. While there is no room nothing is taken or answered.
pub proof fn law_segments_are_answered(
    buffer: &mut RecvBuffer,
    seq: u32,
    data: &[u8],
    answer: Option<StreamSendThreadMsg>,
)
    requires
        old(buffer).wf(),
        old(buffer).win is Some,
        final(buffer).wf(),
        call_ensures(RecvBuffer::handle_seq, (buffer, seq, data), answer),
    ensures
        final(buffer).win is Some,
        (final(buffer).win->0).reader == (old(buffer).win->0).reader,
        old(buffer).buf@.is_prefix_of(final(buffer).buf@),
        (final(buffer).win->0).current_ack == (old(buffer).win->0).current_ack.wrapping_add(
            (final(buffer).buf@.len() - old(buffer).buf@.len()) as u32,
        ),
        old(buffer).buf@.len() < 65535 ==> answer == Some(
            StreamSendThreadMsg::Ack(
                (final(buffer).win->0).current_ack,
                (65535 - final(buffer).buf@.len()) as u16,
            ),
        ),
        old(buffer).buf@.len() == 65535 ==> answer is None && *final(buffer) == *old(buffer),
{
    let pre = *old(buffer);
    let post = *final(buffer);
    let win = pre.win->0;
    assert(win.size() == 65535 - pre.buf@.len());
    assert((post.win->0).size() == 65535 - post.buf@.len());
    let (lo, hi) = win.accepted(seq, data@.len());
    if lo < hi {
        let n = (post.win->0).left.wrapping_sub(win.left) as int;
        assert(post.buf@.len() == pre.buf@.len() + n);
    }
}

/// A segment that starts past the first gap is kept: its bytes that there is room for have arrived
/// and cannot be read yet, what could be read before still can, and the ack stays.
pub proof fn law_early_segments_are_kept(
    pre: RecvBuffer,
    post: RecvBuffer,
    seq: u32,
    data: Seq<u8>,
    o: int,
)
    requires
        pre.wf(),
        post.wf(),
        pre.win is Some,
        pre.handles(post, seq, data),
        ({
            let from = seq.wrapping_sub((pre.win->0).left) as int;
            0 < from <= o < from + data.len() && o < 65535 - pre.buf@.len()
        }),
    ensures
        post.buf@ == pre.buf@,
        (post.win->0).current_ack == (pre.win->0).current_ack,
        (post.win->0).held(o),
        post.buf.ahead(o) == data[o - seq.wrapping_sub((pre.win->0).left)],
{
    let win = pre.win->0;
    let from = seq.wrapping_sub(win.left) as int;
    assert(win.size() == 65535 - pre.buf@.len());
    let n = (post.win->0).left.wrapping_sub(win.left) as int;
    assert(n == 0) by {
        if n > 0 {
            assert(pre.held_after(seq, data, 0));
            assert(win.held(0));
            assert(win.covers(win.available()));
        }
    }
    assert((post.win->0).held(o) == pre.held_after(seq, data, o + n));
    assert(post.buf.ahead(o) == pre.byte_after(seq, data, o + n));
    assert(post.buf@ =~= pre.buf@);
}

/// A window starts right after the peer's initial sequence number, with nothing to read and all of
/// its room.
pub proof fn law_window_starts_after_the_syn(buffer: &mut RecvBuffer, initial_seq: u32)
    requires
        call_ensures(RecvBuffer::set_initial_seq_num_data, (buffer, initial_seq), ()),
    ensures
        final(buffer).buf == old(buffer).buf,
        final(buffer).win is Some,
        (final(buffer).win->0).left == initial_seq.wrapping_add(1),
        (final(buffer).win->0).reader == initial_seq.wrapping_add(1),
        (final(buffer).win->0).current_ack == initial_seq.wrapping_add(1),
        (final(buffer).win->0).right == initial_seq.wrapping_add(1).wrapping_add(65535),
        (final(buffer).win->0).intervals@.len() == 0,
{
}

/// Reading fills the front of the caller's bytes with what can be read, as far as there is any, and
/// leaves the rest of them alone. Just what was read is gone, the ack stays, and if anything was
/// read the peer is to be told of the room there is then.
pub proof fn law_read_bytes_are_gone(
    buffer: &mut RecvBuffer,
    data: &mut [u8],
    read: (usize, Option<StreamSendThreadMsg>),
)
    requires
        old(buffer).wf(),
        old(buffer).win is Some,
        call_ensures(RecvBuffer::read_data, (buffer, data), read),
    ensures
        final(data)@.len() == old(data)@.len(),
        read.0 <= old(data)@.len(),
        final(data)@.take(read.0 as int) + final(buffer).buf@ == old(buffer).buf@,
        final(data)@.skip(read.0 as int) == old(data)@.skip(read.0 as int),
        read.0 == old(data)@.len() || final(buffer).buf@.len() == 0,
        (final(buffer).win->0).current_ack == (old(buffer).win->0).current_ack,
        read.0 == 0 ==> read.1 is None,
        read.0 > 0 ==> read.1 == Some(
            StreamSendThreadMsg::UpdateWindowSize((65535 - final(buffer).buf@.len()) as u16),
        ),
{
    let before = old(buffer).buf@;
    let n = read.0 as int;
    assert(final(data)@.take(n) =~= before.take(n));
    assert(final(data)@.skip(n) =~= old(data)@.skip(n));
    if n == 0 {
        assert(before.take(0) + before =~= before);
    } else {
        assert(before.take(n) + before.skip(n) =~= before);
    }
    assert((final(buffer).win->0).size() == 65535 - final(buffer).buf@.len());
}

/// Adding a range of sequence numbers to those that have arrived: a number has arrived then if it
/// had before or lies in the range, the intervals stay in order with a gap between each two, and
/// nothing else changes.
pub proof fn law_ranges_are_added(
    win: &mut WindowData,
    s: u32,
    e: u32,
    interval: (u32, u32),
    q: u32,
)
    requires
        old(win).intervals_minimal(),
        old(win).pos(s) <= old(win).pos(e) <= TCP_BUF_SIZE,
        call_ensures(WindowData::handle_interval, (win, s, e), interval),
    ensures
        final(win).left == old(win).left,
        final(win).right == old(win).right,
        final(win).reader == old(win).reader,
        final(win).current_ack == old(win).current_ack,
        forall|i: int, j: int|
            0 <= i < j < final(win).intervals@.len() ==> (
            #[trigger] final(win).intervals@[i]).1.wrapping_sub(final(win).reader) < (
            #[trigger] final(win).intervals@[j]).0.wrapping_sub(final(win).reader),
        ({
            let p = q.wrapping_sub(old(win).reader) as int;
            final(win).covers(p) <==> old(win).covers(p) || s.wrapping_sub(old(win).reader) <= p
                < e.wrapping_sub(old(win).reader)
        }),
        s != e ==> {
            &&& final(win).intervals@.contains(interval)
            &&& interval.0.wrapping_sub(old(win).reader) <= s.wrapping_sub(old(win).reader)
            &&& e.wrapping_sub(old(win).reader) <= interval.1.wrapping_sub(old(win).reader)
        },
{
    let post = *final(win);
    assert forall|i: int, j: int| 0 <= i < j < post.intervals@.len() implies (
    #[trigger] post.intervals@[i]).1.wrapping_sub(post.reader) < (
    #[trigger] post.intervals@[j]).0.wrapping_sub(post.reader) by {
        assert(post.spans()[i].1 < post.spans()[j].0);
    }
}

} // verus!
