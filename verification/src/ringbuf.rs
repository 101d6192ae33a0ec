//! Ring buffer for session output, with per-client cursor tracking.
//!
//! Default capacity: 524288 bytes (512KB). Hard minimum: 4096 bytes (4KB).
//! When full, oldest bytes are overwritten. `write_cursor` is monotonically
//! increasing, so clients can detect gaps.
use vstd::prelude::*;

verus! {

pub const DEFAULT_BUFFER_SIZE: usize = 524288;

pub const MIN_BUFFER_SIZE: usize = 4096;

/// Abstract state of a ring buffer: every byte ever written, in order, the
/// capacity, and the overflow bookkeeping since the last `take_overflow`.
pub struct RingView {
    pub capacity: nat,
    pub written: Seq<u8>,
    pub overflowed: bool,
    pub total_lost: nat,
}

/// First logical position still held by a buffer of capacity `cap` after
/// `total` bytes have been written.
pub open spec fn retained_start(total: nat, cap: nat) -> nat {
    if total > cap {
        (total - cap) as nat
    } else {
        0
    }
}

/// Number of bytes that a write of `len` bytes overwrites, when `total`
/// bytes were written before it into a buffer of capacity `cap`.
pub open spec fn bytes_lost_by_write(total: nat, len: nat, cap: nat) -> nat {
    let end = total + len;
    let floor = if total > cap {
        total
    } else {
        cap
    };
    if end > floor {
        (end - floor) as nat
    } else {
        0
    }
}

/// What `read(from)` returns: the bytes from `from` (or from the oldest
/// retained byte, if `from` is older) up to the end, whether bytes were
/// skipped, and how many.
pub open spec fn spec_read(v: RingView, from: nat) -> (Seq<u8>, bool, nat) {
    let total = v.written.len();
    let eff = retained_start(total, v.capacity);
    if from >= total {
        (Seq::empty(), false, 0)
    } else if from < eff {
        (v.written.subrange(eff as int, total as int), true, (eff - from) as nat)
    } else {
        (v.written.subrange(from as int, total as int), false, 0)
    }
}

pub struct RingBuffer {
    buf: Vec<u8>,
    capacity: usize,
    write_cursor: u64,
    start: usize,
    overflowed: bool,
    total_lost: u64,
    written: Ghost<Seq<u8>>,
}

proof fn lemma_mod_distinct_in_window(i: int, j: int, m: int)
    requires
        0 < m,
        0 <= i,
        j - m < i < j,
    ensures
        i % m != j % m,
{
    vstd::arithmetic::div_mod::lemma_fundamental_div_mod(i, m);
    vstd::arithmetic::div_mod::lemma_fundamental_div_mod(j, m);
    let qi = i / m;
    let qj = j / m;
    if i % m == j % m {
        assert(j - i == m * (qj - qi)) by (nonlinear_arith)
            requires
                i == m * qi + i % m,
                j == m * qj + j % m,
                i % m == j % m,
        ;
        assert(false) by (nonlinear_arith)
            requires
                j - i == m * (qj - qi),
                0 < j - i < m,
                0 < m,
        ;
    }
}

proof fn lemma_mod_succ(a: int, m: int)
    requires
        1 < m,
        0 <= a,
    ensures
        (a % m + 1) % m == (a + 1) % m,
{
    vstd::arithmetic::div_mod::lemma_add_mod_noop(a, 1, m);
    vstd::arithmetic::div_mod::lemma_small_mod(1, m as nat);
}

impl RingBuffer {
    pub closed spec fn view(&self) -> RingView {
        RingView {
            capacity: self.capacity as nat,
            written: self.written@,
            overflowed: self.overflowed,
            total_lost: self.total_lost as nat,
        }
    }

    /// The buffer's internal consistency: the slots hold the newest
    /// `capacity` bytes ever written, and the bookkeeping matches them.
    pub closed spec fn wf(&self) -> bool {
        let cap = self.capacity as int;
        let wc = self.write_cursor as int;
        &&& self.capacity >= MIN_BUFFER_SIZE
        &&& self.buf@.len() == self.capacity
        &&& self.written@.len() == wc
        &&& self.start == (if wc < cap {
            0
        } else {
            wc % cap
        })
        &&& forall|i: int|
            retained_start(wc as nat, cap as nat) <= i < wc ==> #[trigger] self.written@[i]
                == self.buf@[i % cap]
        &&& self.total_lost <= self.write_cursor
        &&& self.overflowed == (self.total_lost > 0)
    }

    /// Creates a buffer holding `max(capacity, MIN_BUFFER_SIZE)` bytes.
    pub fn new(capacity: usize) -> (rb: Self)
        ensures
            rb.wf(),
            rb.view().capacity == (if capacity > MIN_BUFFER_SIZE {
                capacity
            } else {
                MIN_BUFFER_SIZE
            }),
            rb.view().written == Seq::<u8>::empty(),
            !rb.view().overflowed,
            rb.view().total_lost == 0,
    {
        let capacity = if capacity > MIN_BUFFER_SIZE {
            capacity
        } else {
            MIN_BUFFER_SIZE
        };
        RingBuffer {
            buf: vec![0; capacity],
            capacity,
            write_cursor: 0,
            start: 0,
            overflowed: false,
            total_lost: 0,
            written: Ghost(Seq::empty()),
        }
    }

    pub fn capacity(&self) -> (c: usize)
        requires
            self.wf(),
        ensures
            c == self.view().capacity,
    {
        self.capacity
    }

    /// The logical position of the next byte to be written: the number of
    /// bytes ever written.
    pub fn write_cursor(&self) -> (wc: u64)
        requires
            self.wf(),
        ensures
            wc == self.view().written.len(),
    {
        self.write_cursor
    }

    /// Write bytes into the ring buffer, overwriting oldest data if full.
    /// Returns the number of bytes overwritten (lost).
    pub fn write(&mut self, data: &[u8]) -> (lost: u64)
        requires
            old(self).wf(),
            old(self).view().written.len() + data@.len() <= u64::MAX,
        ensures
            final(self).wf(),
            final(self).view().capacity == old(self).view().capacity,
            final(self).view().written == old(self).view().written + data@,
            lost == bytes_lost_by_write(
                old(self).view().written.len(),
                data@.len(),
                old(self).view().capacity,
            ),
            final(self).view().total_lost == old(self).view().total_lost + lost,
            final(self).view().overflowed == (old(self).view().overflowed || lost > 0),
    {
        if data.len() == 0 {
            assert(old(self).view().written + data@ =~= old(self).view().written);
            return 0;
        }
        let data_len = data.len();
        let cap = self.capacity;
        let ghost old_written = self.written@;
        let ghost old_wc = self.write_cursor as nat;

        // Fast path: buffer hasn't wrapped yet and can absorb all data.
        if self.write_cursor < cap as u64 && data_len <= cap && (self.write_cursor as usize) <= cap - data_len {
            let start = self.write_cursor as usize;
            proof {
                assert forall|i: int| 0 <= i < old_wc implies #[trigger] old_written[i] == self.buf@[i] by {
                    vstd::arithmetic::div_mod::lemma_small_mod(i as nat, cap as nat);
                    assert(old_written[i] == self.buf@[i % (cap as int)]);
                }
            }
            let mut k: usize = 0;
            while k < data_len
                invariant
                    0 <= k <= data_len,
                    data_len == data@.len(),
                    cap == self.capacity,
                    start == old_wc,
                    start + data_len <= cap,
                    self.capacity == old(self).capacity,
                    self.write_cursor == old(self).write_cursor,
                    self.start == old(self).start,
                    self.overflowed == old(self).overflowed,
                    self.total_lost == old(self).total_lost,
                    self.written@ == old_written,
                    old_written.len() == old_wc,
                    self.buf@.len() == cap,
                    cap >= MIN_BUFFER_SIZE,
                    forall|i: int| 0 <= i < old_wc ==> #[trigger] old_written[i] == self.buf@[i],
                    forall|i: int| 0 <= i < k ==> #[trigger] self.buf@[start + i] == data@[i],
                decreases data_len - k,
            {
                self.buf.set(start + k, data[k]);
                k = k + 1;
            }
            self.write_cursor = self.write_cursor + data_len as u64;
            self.written = Ghost(old_written + data@);
            proof {
                let wc = self.write_cursor as int;
                let c = cap as int;
                assert forall|i: int|
                    retained_start(wc as nat, c as nat) <= i < wc implies #[trigger] self.written@[i]
                    == self.buf@[i % c] by {
                    vstd::arithmetic::div_mod::lemma_small_mod(i as nat, c as nat);
                    if i >= old_wc {
                        assert(self.buf@[start + (i - start)] == data@[i - start]);
                    }
                }
                if wc == c {
                    vstd::arithmetic::div_mod::lemma_mod_self_0(c);
                }
            }
            return 0;
        }
        // Slow path: may wrap or overwrite, byte by byte.

        let mut lost: u64 = 0;
        let mut k: usize = 0;
        while k < data_len
            invariant
                0 <= k <= data_len,
                data_len == data@.len(),
                cap == self.capacity,
                self.capacity == old(self).capacity,
                self.overflowed == old(self).overflowed,
                self.total_lost == old(self).total_lost,
                self.total_lost <= old_wc,
                self.overflowed == (self.total_lost > 0),
                old_written.len() == old_wc,
                old_wc + data_len <= u64::MAX,
                self.write_cursor == old_wc + k,
                self.written@ == old_written + data@.subrange(0, k as int),
                self.buf@.len() == cap,
                cap >= MIN_BUFFER_SIZE,
                self.start == (if (self.write_cursor as int) < cap {
                    0
                } else {
                    (self.write_cursor as int) % (cap as int)
                }),
                forall|i: int|
                    retained_start(self.write_cursor as nat, cap as nat) <= i
                        < self.write_cursor ==> #[trigger] self.written@[i] == self.buf@[i
                        % (cap as int)],
                lost == bytes_lost_by_write(old_wc, k as nat, cap as nat),
            decreases data_len - k,
        {
            let byte = data[k];
            let ghost pre_wc = self.write_cursor as int;
            let ghost pre_written = self.written@;
            let ghost c = cap as int;
            if self.write_cursor >= cap as u64 {
                let write_idx = (self.write_cursor % cap as u64) as usize;
                if write_idx == self.start && self.write_cursor > 0 {
                    proof {
                        lemma_mod_succ(self.start as int, c);
                        vstd::arithmetic::div_mod::lemma_mod_twice(pre_wc, c);
                    }
                    self.start = (self.start + 1) % cap;
                    lost = lost + 1;
                }
                self.buf.set(write_idx, byte);
            } else {
                let write_idx = self.write_cursor as usize;
                proof {
                    vstd::arithmetic::div_mod::lemma_small_mod(pre_wc as nat, c as nat);
                }
                self.buf.set(write_idx, byte);
            }
            self.write_cursor = self.write_cursor + 1;
            self.written = Ghost(pre_written.push(byte));
            proof {
                let wc = self.write_cursor as int;
                assert(old_written + data@.subrange(0, k + 1) =~= (old_written + data@.subrange(
                    0,
                    k as int,
                )).push(byte));
                if wc == c {
                    vstd::arithmetic::div_mod::lemma_mod_self_0(c);
                }
                if pre_wc < c && wc > c {
                    assert(false);
                }
                if pre_wc >= c {
                    lemma_mod_succ(pre_wc, c);
                    vstd::arithmetic::div_mod::lemma_mod_twice(pre_wc, c);
                }
                assert forall|i: int|
                    retained_start(wc as nat, c as nat) <= i < wc implies #[trigger] self.written@[i]
                    == self.buf@[i % c] by {
                    if i < pre_wc {
                        lemma_mod_distinct_in_window(i, pre_wc, c);
                        if pre_wc < c {
                            vstd::arithmetic::div_mod::lemma_small_mod(pre_wc as nat, c as nat);
                        }
                        assert(pre_written[i] == self.written@[i]);
                    } else {
                        if pre_wc < c {
                            vstd::arithmetic::div_mod::lemma_small_mod(pre_wc as nat, c as nat);
                        }
                    }
                }
            }
            k = k + 1;
        }
        assert(data@.subrange(0, data_len as int) =~= data@);
        if lost > 0 {
            self.overflowed = true;
            self.total_lost = self.total_lost + lost;
        }
        lost
    }

    /// Read bytes from `from_cursor` to `write_cursor`.
    /// Returns (bytes, gap, lost_bytes).
    /// If `from_cursor` is behind the current start, gap is true and
    /// lost_bytes indicates how many bytes were irrecoverably lost.
    pub fn read(&self, from_cursor: u64) -> (r: (Vec<u8>, bool, u64))
        requires
            self.wf(),
        ensures
            (r.0@, r.1, r.2 as nat) == spec_read(self.view(), from_cursor as nat),
    {
        if from_cursor >= self.write_cursor {
            return (Vec::new(), false, 0);
        }
        let effective_start = if self.write_cursor > self.capacity as u64 {
            self.write_cursor - self.capacity as u64
        } else {
            0
        };

        if from_cursor < effective_start {
            let lost = effective_start - from_cursor;
            let bytes = self.read_range(effective_start, self.write_cursor);
            (bytes, true, lost)
        } else {
            let bytes = self.read_range(from_cursor, self.write_cursor);
            (bytes, false, 0)
        }
    }

    fn read_range(&self, start: u64, end: u64) -> (r: Vec<u8>)
        requires
            self.wf(),
            retained_start(self.view().written.len(), self.view().capacity) <= start,
            end == self.view().written.len(),
        ensures
            start < end ==> r@ == self.view().written.subrange(start as int, end as int),
            start >= end ==> r@.len() == 0,
    {
        if start >= end {
            return Vec::new();
        }
        let len = (end - start) as usize;
        let cap = self.capacity as u64;
        let mut result = Vec::with_capacity(len);
        let mut k: usize = 0;
        while k < len
            invariant
                self.wf(),
                cap == self.capacity,
                start < end,
                len == end - start,
                end == self.write_cursor,
                retained_start(end as nat, cap as nat) <= start,
                0 <= k <= len,
                result@ == self.written@.subrange(start as int, start + k),
            decreases len - k,
        {
            let pos = start + k as u64;
            let idx = (pos % cap) as usize;
            proof {
                assert(self.written@[pos as int] == self.buf@[(pos as int) % (cap as int)]);
            }
            result.push(self.buf[idx]);
            k = k + 1;
            assert(result@ =~= self.written@.subrange(start as int, start + k));
        }
        result
    }

    /// Check and reset the overflowed flag. Returns (was_overflowed, total_lost_since_last_check).
    pub fn take_overflow(&mut self) -> (r: (bool, u64))
        requires
            old(self).wf(),
        ensures
            final(self).wf(),
            r.0 == old(self).view().overflowed,
            r.1 == old(self).view().total_lost,
            final(self).view() == (RingView {
                overflowed: false,
                total_lost: 0,
                ..old(self).view()
            }),
    {
        let was = self.overflowed;
        let lost = self.total_lost;
        self.overflowed = false;
        self.total_lost = 0;
        (was, lost)
    }
}

/// A read from the cursor a write started at gives back exactly the bytes of
/// that write, with no gap, as long as the write fits in the buffer.
pub proof fn lemma_read_returns_last_write(before: RingView, after: RingView, data: Seq<u8>)
    requires
        after.capacity == before.capacity,
        after.written == before.written + data,
        data.len() <= before.capacity,
    ensures
        spec_read(after, before.written.len()) == (if data.len() == 0 {
            (Seq::<u8>::empty(), false, 0nat)
        } else {
            (data, false, 0nat)
        }),
{
    assert(after.written.subrange(before.written.len() as int, after.written.len() as int)
        =~= data);
}

/// Reading from an older cursor gives the bytes up to a newer cursor
/// followed by exactly what a read from the newer cursor gives, while both
/// cursors are still within the retained window.
pub proof fn lemma_reads_compose(v: RingView, c1: nat, c2: nat)
    requires
        retained_start(v.written.len(), v.capacity) <= c1 <= c2 <= v.written.len(),
    ensures
        spec_read(v, c1).0 == v.written.subrange(c1 as int, c2 as int) + spec_read(v, c2).0,
        !spec_read(v, c1).1,
        !spec_read(v, c2).1,
{
    let total = v.written.len() as int;
    if c2 < total {
        assert(v.written.subrange(c1 as int, total) =~= v.written.subrange(c1 as int, c2 as int)
            + v.written.subrange(c2 as int, total));
    } else {
        assert(v.written.subrange(c1 as int, c2 as int) + Seq::<u8>::empty()
            =~= v.written.subrange(c1 as int, c2 as int));
    }
}

/// Every byte from the cursor on is accounted for: either returned or counted
/// as lost; and no read returns more than the capacity.
pub proof fn lemma_read_accounts_for_every_byte(v: RingView, from: nat)
    requires
        from < v.written.len(),
    ensures
        spec_read(v, from).0.len() + spec_read(v, from).2 == v.written.len() - from,
        spec_read(v, from).0.len() <= v.capacity,
        spec_read(v, from).1 <==> spec_read(v, from).2 > 0,
{
}

} // verus!
