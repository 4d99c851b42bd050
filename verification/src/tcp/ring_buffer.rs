//! A byte ring. Data may be placed ahead of the write index before it becomes readable.

use vstd::prelude::*;

verus! {

pub struct RingBuffer {
    /// raw storage
    pub buf: Vec<u8>,
    /// indexes into first ready to read slot
    pub read_idx: usize,
    /// indexes into first free slot
    pub write_idx: usize,
    /// bool to distinguish full vs empty
    pub empty: bool,
}

/// The slot `i` places into a ring of `cap` slots.
pub open spec fn ring_slot(i: int, cap: nat) -> int {
    i % (cap as int)
}

/// How far slot `k` lies behind slot `s`, walking forward through a ring of `cap` slots.
pub open spec fn ring_distance(s: int, k: int, cap: nat) -> int {
    if k >= s {
        k - s
    } else {
        k - s + cap
    }
}

pub proof fn lemma_ring_slot(i: int, cap: nat)
    requires
        cap > 0,
        0 <= i < 2 * cap,
    ensures
        ring_slot(i, cap) == if i < cap {
            i
        } else {
            i - cap
        },
{
    if i < cap {
        vstd::arithmetic::div_mod::lemma_small_mod(i as nat, cap);
    } else {
        vstd::arithmetic::div_mod::lemma_mod_sub_multiples_vanish(i, cap as int);
        vstd::arithmetic::div_mod::lemma_small_mod((i - cap) as nat, cap);
    }
}

impl RingBuffer {
    pub open spec fn cap(self) -> nat {
        self.buf@.len()
    }

    pub open spec fn wf(self) -> bool {
        if self.cap() == 0 {
            self.read_idx == 0 && self.write_idx == 0 && self.empty
        } else {
            self.read_idx < self.cap() && self.write_idx < self.cap()
        }
    }

    /// The number of readable bytes.
    pub open spec fn used(self) -> nat {
        if self.read_idx == self.write_idx {
            if self.empty {
                0
            } else {
                self.cap()
            }
        } else if self.read_idx < self.write_idx {
            (self.write_idx - self.read_idx) as nat
        } else {
            (self.cap() - self.read_idx + self.write_idx) as nat
        }
    }

    pub open spec fn free(self) -> int {
        self.cap() - self.used()
    }

    /// The byte stored `offset` places ahead of the write index.
    pub open spec fn ahead(self, offset: int) -> u8 {
        self.buf@[ring_slot(self.write_idx + offset, self.cap())]
    }

    /// Slot one past the last byte of a write of `size` bytes at slot `s`; the end of the storage
    /// counts as `cap` rather than as slot zero.
    pub open spec fn write_end(self, s: int, size: nat) -> int {
        if s + size == self.cap() {
            self.cap() as int
        } else {
            ring_slot(s + size, self.cap())
        }
    }

    /// Whether advancing from slot `s` to slot `e` passes the reader.
    pub open spec fn passes_reader(self, s: int, e: int) -> bool {
        let r = self.read_idx;
        ||| (if self.empty {
            s < r
        } else {
            s <= r
        }) && e > r
        ||| s >= e && e > r
    }

    /// `post` is this ring with `data` stored `offset` slots ahead of the write index.
    pub open spec fn stores(self, post: RingBuffer, data: Seq<u8>, offset: int) -> bool {
        let s = ring_slot(self.write_idx + offset, self.cap());
        &&& post.read_idx == self.read_idx
        &&& post.write_idx == self.write_idx
        &&& post.empty == self.empty
        &&& post.cap() == self.cap()
        &&& forall|k: int|
            0 <= k < self.cap() ==> #[trigger] post.buf@[k] == ({
                let d = ring_distance(s, k, self.cap());
                if d < data.len() {
                    data[d]
                } else {
                    self.buf@[k]
                }
            })
    }

    /// `post` is this ring with its write index moved by `n` slots.
    pub open spec fn advances(self, post: RingBuffer, n: int) -> bool {
        &&& post.buf@ == self.buf@
        &&& post.read_idx == self.read_idx
        &&& post.write_idx == ring_slot(self.write_idx + n, self.cap())
        &&& post.empty == (self.empty && post.write_idx != post.read_idx)
    }

    pub fn new(size: usize) -> (ring: RingBuffer)
        ensures
            ring.wf(),
            ring.buf@ == Seq::new(size as nat, |i: int| 0u8),
            ring.read_idx == 0,
            ring.write_idx == 0,
            ring.empty,
            ring@ == Seq::<u8>::empty(),
    {
        let buf: Vec<u8> = vec![0u8; size];
        let ring = RingBuffer { buf, read_idx: 0, write_idx: 0, empty: true };
        assert(ring.buf@ =~= Seq::new(size as nat, |i: int| 0u8));
        assert(ring@ =~= Seq::<u8>::empty());
        ring
    }

    pub fn wrapping_add(&self, a: usize, b: usize) -> (c: usize)
        requires
            self.cap() > 0,
            a + b <= usize::MAX,
        ensures
            c == ring_slot(a + b, self.cap()),
    {
        let l: usize = self.len();
        let c: usize = a + b;
        if c >= l {
            c % l
        } else {
            proof {
                vstd::arithmetic::div_mod::lemma_small_mod(c as nat, l as nat);
            }
            c
        }
    }

    pub fn _wrapping_sub(&self, a: usize, b: usize) -> (c: usize)
        requires
            a < b ==> self.cap() > 0,
        ensures
            c == if a < b {
                (b - a) % (self.cap() as int)
            } else {
                a - b
            },
    {
        let l: usize = self.len();
        if a < b {
            (b - a) % l
        } else {
            a - b
        }
    }

    /// Stores `data` starting `offset` slots ahead of the write index, without making it readable.
    pub fn push_with_offset(&mut self, data: &[u8], offset: usize)
        requires
            old(self).wf(),
            old(self).cap() > 0,
            data@.len() <= old(self).cap(),
            old(self).write_idx + offset <= usize::MAX,
            ({
                let s = ring_slot(old(self).write_idx + offset, old(self).cap());
                !old(self).passes_reader(s, old(self).write_end(s, data@.len()))
            }),
        ensures
            final(self).wf(),
            old(self).stores(*final(self), data@, offset as int),
    {
        let l: usize = self.len();
        let size: usize = data.len();
        let s: usize = self.wrapping_add(self.write_idx, offset);
        let first: usize = if size <= l - s {
            size
        } else {
            l - s
        };

        let ghost before = self.buf@;
        let mut i: usize = 0;
        while i < first
            invariant
                0 <= i <= first <= data@.len() <= l,
                s < l,
                s + first <= l,
                before.len() == l,
                self.buf@.len() == l,
                self.read_idx == old(self).read_idx,
                self.write_idx == old(self).write_idx,
                self.empty == old(self).empty,
                forall|k: int|
                    0 <= k < l ==> #[trigger] self.buf@[k] == if s <= k < s + i {
                        data@[k - s]
                    } else {
                        before[k]
                    },
            decreases first - i,
        {
            self.buf[s + i] = data[i];
            i += 1;
        }
        while i < size
            invariant
                first <= i <= size,
                size == data@.len(),
                size <= l,
                s < l,
                first < size ==> first == l - s,
                s + first <= l,
                before.len() == l,
                self.buf@.len() == l,
                self.read_idx == old(self).read_idx,
                self.write_idx == old(self).write_idx,
                self.empty == old(self).empty,
                forall|k: int|
                    0 <= k < l ==> #[trigger] self.buf@[k] == if s <= k < s + first {
                        data@[k - s]
                    } else if 0 <= k < i - first {
                        data@[k + first]
                    } else {
                        before[k]
                    },
            decreases size - i,
        {
            self.buf[i - first] = data[i];
            i += 1;
        }
    }

    /// move write head
    pub fn move_write_idx(&mut self, num_bytes: usize)
        requires
            old(self).wf(),
            old(self).cap() > 0,
            old(self).write_idx + num_bytes <= usize::MAX,
            !old(self).passes_reader(
                old(self).write_idx as int,
                ring_slot(old(self).write_idx + num_bytes, old(self).cap()),
            ),
        ensures
            final(self).wf(),
            old(self).advances(*final(self), num_bytes as int),
    {
        let w: usize = self.write_idx;
        let r: usize = self.read_idx;
        let nw: usize = self.wrapping_add(w, num_bytes);
        if nw == r {
            self.empty = false;
        }
        self.write_idx = nw;
    }

    pub fn _push(&mut self, data: &[u8])
        requires
            old(self).wf(),
            old(self).cap() > 0,
            data@.len() <= old(self).cap(),
            !old(self).passes_reader(
                old(self).write_idx as int,
                old(self).write_end(old(self).write_idx as int, data@.len()),
            ),
        ensures
            final(self).wf(),
            old(self).stores(*final(self), data@, 0),
    {
        proof {
            lemma_ring_slot(self.write_idx as int, self.cap());
        }
        self.push_with_offset(data, 0);
    }

    /// Returns as much data as possible, up until reaching write_idx.
    pub fn pop(&mut self, size: usize) -> (data: Vec<u8>)
        requires
            old(self).wf(),
        ensures
            final(self).wf(),
            ({
                let n = if size < old(self).used() {
                    size as nat
                } else {
                    old(self).used()
                };
                &&& data@ == old(self)@.take(n as int)
                &&& final(self).read_idx == if old(self).cap() == 0 {
                    0
                } else {
                    ring_slot(old(self).read_idx + n, old(self).cap())
                }
                &&& final(self)@ == old(self)@.skip(n as int)
                &&& final(self).empty == if n == 0 {
                    old(self).empty
                } else {
                    old(self).empty || final(self).read_idx == final(self).write_idx
                }
            }),
            final(self).buf@ == old(self).buf@,
            final(self).write_idx == old(self).write_idx,
    {
        let l: usize = self.len();
        let w: usize = self.write_idx;
        let r: usize = self.read_idx;
        let available: usize = if r == w {
            if self.empty {
                0
            } else {
                l
            }
        } else if r < w {
            w - r
        } else {
            l - (r - w)
        };
        let n: usize = if size < available {
            size
        } else {
            available
        };

        let mut data: Vec<u8> = Vec::new();
        let mut next: usize = r;
        let mut i: usize = 0;
        proof {
            if l > 0 {
                lemma_ring_slot(r as int, self.cap());
            }
        }
        while i < n
            invariant
                0 <= i <= n <= self.used(),
                self.used() <= self.cap(),
                l == self.cap(),
                r == self.read_idx,
                self.wf(),
                l > 0 ==> next < l,
                l == 0 ==> next == 0,
                l > 0 ==> next == ring_slot(r + i, self.cap()),
                *self == *old(self),
                data@ == self@.take(i as int),
            decreases n - i,
        {
            proof {
                lemma_ring_slot(r + i, self.cap());
                lemma_ring_slot(r + i + 1, self.cap());
                assert(self@.take(i + 1) =~= self@.take(i as int).push(self@[i as int]));
            }
            data.push(self.buf[next]);
            next = if next + 1 == l {
                0
            } else {
                next + 1
            };
            i += 1;
        }
        assert(data@ =~= self@.take(n as int));

        self.read_idx = next;
        if n > 0 && self.read_idx == self.write_idx {
            self.empty = true;
        }
        proof {
            if l > 0 {
                lemma_ring_slot(r + n, self.cap());
                assert forall|j: int| 0 <= j < old(self).used() - n implies #[trigger] ring_slot(
                    next + j,
                    l as nat,
                ) == ring_slot(r + n + j, l as nat) by {
                    lemma_ring_slot(r + n + j, l as nat);
                    lemma_ring_slot(next + j, l as nat);
                }
            }
            assert(self.used() == old(self).used() - n);
            assert(self@ =~= old(self)@.skip(n as int));
        }
        data
    }

    pub fn len(&self) -> (l: usize)
        ensures
            l == self.cap(),
    {
        self.buf.len()
    }

    pub fn _get_raw_buf(&self) -> (raw: &[u8])
        ensures
            raw@ == self.buf@,
    {
        self.buf.as_slice()
    }
}

/// A non-empty write that stays inside the free space is one that `push_with_offset` takes, and
/// moving the write index over it is one that `move_write_idx` takes.
pub proof fn lemma_fits_free_space(ring: RingBuffer, offset: int, size: nat)
    requires
        ring.wf(),
        0 <= offset,
        0 < size,
        offset + size <= ring.free(),
    ensures
        ({
            let s = ring_slot(ring.write_idx + offset, ring.cap());
            !ring.passes_reader(s, ring.write_end(s, size))
        }),
        !ring.passes_reader(
            ring.write_idx as int,
            ring_slot(ring.write_idx + size, ring.cap()),
        ),
{
    lemma_ring_slot(ring.write_idx + offset, ring.cap());
    lemma_ring_slot(ring.write_idx + size, ring.cap());
    let s = ring_slot(ring.write_idx + offset, ring.cap());
    lemma_ring_slot(s + size, ring.cap());
}

/// A write inside the free space leaves the readable bytes alone and changes exactly the bytes
/// ahead of the write index that it covers.
pub proof fn lemma_store_ahead(pre: RingBuffer, post: RingBuffer, data: Seq<u8>, offset: int)
    requires
        pre.wf(),
        0 <= offset,
        offset + data.len() <= pre.free(),
        pre.cap() > 0,
        pre.stores(post, data, offset),
    ensures
        post@ == pre@,
        post.free() == pre.free(),
        forall|o: int|
            0 <= o < pre.free() ==> #[trigger] post.ahead(o) == if offset <= o < offset
                + data.len() {
                data[o - offset]
            } else {
                pre.ahead(o)
            },
{
    let cap = pre.cap();
    let w = pre.write_idx as int;
    if offset < cap {
        lemma_ring_slot(w + offset, cap);
    }
    assert(post@ =~= pre@) by {
        assert forall|i: int| 0 <= i < pre.used() implies post@[i] == pre@[i] by {
            lemma_ring_slot(pre.read_idx + i, cap);
        }
    }
    assert forall|o: int| 0 <= o < pre.free() implies #[trigger] post.ahead(o) == (if offset <= o
        < offset + data.len() {
        data[o - offset]
    } else {
        pre.ahead(o)
    }) by {
        lemma_ring_slot(w + o, cap);
    }
}

/// Moving the write index over `n` free slots appends the bytes stored there to the readable ones.
pub proof fn lemma_advance(pre: RingBuffer, post: RingBuffer, n: int)
    requires
        pre.wf(),
        pre.cap() > 0,
        0 < n <= pre.free(),
        pre.advances(post, n),
    ensures
        post.wf(),
        post@ == pre@ + Seq::new(n as nat, |o: int| pre.ahead(o)),
        post.free() == pre.free() - n,
        forall|o: int| 0 <= o < post.free() ==> #[trigger] post.ahead(o) == pre.ahead(o + n),
{
    let cap = pre.cap();
    let w = pre.write_idx as int;
    lemma_ring_slot(w + n, cap);
    assert(post.used() == pre.used() + n);
    assert(post@ =~= pre@ + Seq::new(n as nat, |o: int| pre.ahead(o))) by {
        assert forall|i: int| 0 <= i < post.used() implies post@[i] == (pre@ + Seq::new(
            n as nat,
            |o: int| pre.ahead(o),
        ))[i] by {
            lemma_ring_slot(pre.read_idx + i, cap);
            if i >= pre.used() {
                lemma_ring_slot(w + i - pre.used(), cap);
            }
        }
    }
    assert forall|o: int| 0 <= o < post.free() implies #[trigger] post.ahead(o) == pre.ahead(
        o + n,
    ) by {
        lemma_ring_slot(post.write_idx + o, cap);
        lemma_ring_slot(w + o + n, cap);
    }
}

/// What is pushed and then covered by the write index is read back, after everything that was
/// readable before and in the order it was written.
pub proof fn law_push_then_move_appends(
    pre: RingBuffer,
    pushed: RingBuffer,
    moved: RingBuffer,
    data: Seq<u8>,
)
    requires
        pre.wf(),
        0 < data.len() <= pre.free(),
        pre.stores(pushed, data, 0),
        pushed.advances(moved, data.len() as int),
    ensures
        pushed@ == pre@,
        moved@ == pre@ + data,
{
    lemma_store_ahead(pre, pushed, data, 0);
    lemma_advance(pushed, moved, data.len() as int);
    assert(Seq::new(data.len(), |o: int| pushed.ahead(o)) =~= data);
}

impl View for RingBuffer {
    type V = Seq<u8>;

    /// The readable bytes, oldest first.
    open spec fn view(&self) -> Seq<u8> {
        Seq::new(self.used(), |i: int| self.buf@[ring_slot(self.read_idx + i, self.cap())])
    }
}

/// Popping gives the oldest readable bytes, as many as are asked for and there, and leaves the
/// others to be read next.
pub proof fn law_popped_bytes_are_the_oldest(ring: &mut RingBuffer, size: usize, data: Vec<u8>)
    requires
        old(ring).wf(),
        call_ensures(RingBuffer::pop, (ring, size), data),
    ensures
        data@ + final(ring)@ == old(ring)@,
        data@.len() == size || (data@.len() < size && final(ring)@.len() == 0),
        final(ring).free() == old(ring).free() + data@.len(),
{
    assert(data@ + final(ring)@ =~= old(ring)@);
}

/// A new ring has all of its room and nothing to read.
pub proof fn law_new_ring_is_empty(size: usize, ring: RingBuffer)
    requires
        call_ensures(RingBuffer::new, (size,), ring),
    ensures
        ring@.len() == 0,
        ring.free() == size,
{
}

} // verus!
