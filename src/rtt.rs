//! The RTT control block and the ring buffer of one channel.
//!
//! A channel is a ring of `size` bytes with two indices. The producer writes at
//! `write` and then advances it; the consumer reads at `read` and then advances it.
//! The ring is empty when the two are equal, and one slot always stays free, so
//! that a full ring (`write + 1 == read`, modulo `size`) can be told apart from an
//! empty one. For an up channel the target is the producer and the debug probe
//! the consumer; for a down channel it is the other way round.
use crate::volatile::{cell_word, load_word, new_word, ordering_fence, store_word};
use vcell::VolatileCell;
use vstd::prelude::*;

verus! {

/// What to do when a channel has no room for a complete write.
#[derive(Clone, Copy, Debug, PartialEq, Eq, Structural)]
pub enum ChannelMode {
    /// Skip the whole write if it does not fit in its entirety.
    NoBlockSkip,
    /// Write as much as fits and drop the rest.
    NoBlockTrim,
    /// Wait for the host to make room. The waiting itself is the caller's: a write
    /// publishes what fits and reports how much that was.
    BlockIfFull,
}

/// The mode word that stands in the low two bits of a channel's flags.
pub open spec fn mode_code(mode: ChannelMode) -> usize {
    match mode {
        ChannelMode::NoBlockSkip => 0,
        ChannelMode::NoBlockTrim => 1,
        ChannelMode::BlockIfFull => 2,
    }
}

/// The mode that a flags word selects; the reserved code 3 reads as `NoBlockSkip`.
pub open spec fn mode_of_flags(flags: usize) -> ChannelMode {
    if flags % 4 == 1 {
        ChannelMode::NoBlockTrim
    } else if flags % 4 == 2 {
        ChannelMode::BlockIfFull
    } else {
        ChannelMode::NoBlockSkip
    }
}

/// Wraps a position that is at most one lap past the end of the ring.
pub open spec fn ring_wrap(p: int, size: int) -> int {
    if p >= size {
        p - size
    } else {
        p
    }
}

/// Moves an index `n` slots on, for `n <= size`.
pub open spec fn ring_advance(at: int, n: int, size: int) -> int {
    ring_wrap(at + n, size)
}

/// How many bytes wait between `read` and `write`.
pub open spec fn ring_used(write: int, read: int, size: int) -> int {
    if read <= write {
        write - read
    } else {
        size - read + write
    }
}

/// How many bytes can still be written without touching the reserved slot.
pub open spec fn ring_free(write: int, read: int, size: int) -> int {
    size - 1 - ring_used(write, read, size)
}

/// The bytes that wait in the ring, oldest first.
pub open spec fn ring_bytes(buf: Seq<u8>, write: int, read: int) -> Seq<u8> {
    Seq::new(
        ring_used(write, read, buf.len() as int) as nat,
        |i: int| buf[ring_wrap(read + i, buf.len() as int)],
    )
}

/// How far slot `j` lies past `at`, going round the ring.
pub open spec fn ring_offset(j: int, at: int, size: int) -> int {
    if j >= at {
        j - at
    } else {
        j + size - at
    }
}

/// The ring after `data` has been copied into it from slot `at` on, wrapping at
/// the end.
pub open spec fn ring_put(buf: Seq<u8>, at: int, data: Seq<u8>) -> Seq<u8> {
    Seq::new(
        buf.len(),
        |j: int|
            if ring_offset(j, at, buf.len() as int) < data.len() {
                data[ring_offset(j, at, buf.len() as int)]
            } else {
                buf[j]
            },
    )
}

/// Contiguous bytes readable from `read` on, before the ring wraps.
pub open spec fn readable_span(write: int, read: int, size: int) -> int {
    if read > write {
        size - read
    } else {
        write - read
    }
}

/// Contiguous bytes writable from `write` on, keeping the reserved slot free.
pub open spec fn writable_span(write: int, read: int, size: int) -> int {
    if read > write {
        read - write - 1
    } else if read == 0 {
        size - write - 1
    } else {
        size - write
    }
}

/// The indices an access works from when it loads `write` and `read`: both as
/// loaded where both lie inside the ring, else both 0.
pub open spec fn checked_indices(write: int, read: int, size: int) -> (int, int) {
    if 0 <= write < size && 0 <= read < size {
        (write, read)
    } else {
        (0, 0)
    }
}

/// `after` is `before` once the indices were loaded as `write` and `read`: both
/// in range, or both reset to 0 in memory where a load found one out of range.
pub open spec fn pointers_seen(before: RttChannel, after: RttChannel, write: int, read: int) -> bool {
    &&& 0 <= write < before.size()
    &&& 0 <= read < before.size()
    &&& after.buf() == before.buf()
    &&& after.flags_word() == before.flags_word()
    &&& after.spec_name() == before.spec_name()
    &&& ((after.write_word() == before.write_word() && after.read_word() == before.read_word()) || (
    write == 0 && read == 0 && after.write_word() == 0 && after.read_word() == 0))
}

/// `after` is `before` once `n` of the bytes waiting between `read` and `write`
/// were copied from `out0` into `out1` and `read` was stored past them.
pub open spec fn read_done(
    before: RttChannel,
    after: RttChannel,
    out0: Seq<u8>,
    out1: Seq<u8>,
    n: int,
    write: int,
    read: int,
) -> bool {
    &&& 0 <= write < before.size()
    &&& 0 <= read < before.size()
    &&& n == if out0.len() < ring_used(write, read, before.size() as int) {
        out0.len() as int
    } else {
        ring_used(write, read, before.size() as int)
    }
    &&& out1.len() == out0.len()
    &&& out1.take(n) == ring_bytes(before.buf(), write, read).take(n)
    &&& out1.skip(n) == out0.skip(n)
    &&& after.read_word() == ring_advance(read, n, before.size() as int)
    &&& ring_bytes(after.buf(), write, ring_advance(read, n, before.size() as int)) == ring_bytes(
        before.buf(),
        write,
        read,
    ).skip(n)
    &&& after.buf() == before.buf()
    &&& after.flags_word() == before.flags_word()
    &&& after.spec_name() == before.spec_name()
}

/// `after` is `before` once a write of `data` in `mode` worked from `write` and
/// `read`: it copied the first `n` bytes, all of `data` or nothing in
/// `NoBlockSkip` and as much as fits otherwise, and stored `write` past them.
/// `read` in memory stays, unless the loads reset both indices to 0.
pub open spec fn write_done(
    before: RttChannel,
    after: RttChannel,
    data: Seq<u8>,
    n: int,
    write: int,
    read: int,
    mode: ChannelMode,
) -> bool {
    &&& 0 <= write < before.size()
    &&& 0 <= read < before.size()
    &&& n == accepted(mode, data.len() as int, ring_free(write, read, before.size() as int))
    &&& after.buf() == ring_put(before.buf(), write, data.take(n))
    &&& (n == 0 ==> after.buf() == before.buf())
    &&& after.write_word() == ring_advance(write, n, before.size() as int)
    &&& ring_bytes(after.buf(), ring_advance(write, n, before.size() as int), read) == ring_bytes(
        before.buf(),
        write,
        read,
    ) + data.take(n)
    &&& (after.read_word() == before.read_word() || (write == 0 && read == 0 && after.read_word()
        == 0))
    &&& after.flags_word() == before.flags_word()
    &&& after.spec_name() == before.spec_name()
}

/// The descriptor of one channel, as the host sees it in target memory.
pub struct RttChannel {
    name: Option<Vec<u8>>,
    buffer: Vec<u8>,
    write: VolatileCell<usize>,
    read: VolatileCell<usize>,
    flags: VolatileCell<usize>,
}

impl RttChannel {
    pub closed spec fn spec_name(&self) -> Option<Seq<u8>> {
        match self.name {
            Some(n) => Some(n@),
            None => None,
        }
    }

    /// The ring's bytes.
    pub closed spec fn buf(&self) -> Seq<u8> {
        self.buffer@
    }

    pub open spec fn size(&self) -> nat {
        self.buf().len()
    }

    /// The `write` index as it stands in memory.
    pub closed spec fn write_word(&self) -> usize {
        cell_word(self.write)
    }

    /// The `read` index as it stands in memory.
    pub closed spec fn read_word(&self) -> usize {
        cell_word(self.read)
    }

    pub closed spec fn flags_word(&self) -> usize {
        cell_word(self.flags)
    }

    pub open spec fn spec_mode(&self) -> ChannelMode {
        mode_of_flags(self.flags_word())
    }

    /// A channel with a ring to work on.
    pub open spec fn wf(&self) -> bool {
        self.size() > 0
    }

    /// A descriptor with every field zero, as it stands in zeroed memory before
    /// initialization.
    pub fn zeroed() -> (r: RttChannel)
        ensures
            r.size() == 0,
            r.spec_name() == None::<Seq<u8>>,
            r.write_word() == 0,
            r.read_word() == 0,
            r.flags_word() == 0,
    {
        RttChannel {
            name: None,
            buffer: Vec::new(),
            write: new_word(0),
            read: new_word(0),
            flags: new_word(0),
        }
    }

    /// Hands the descriptor its name, its mode and its ring.
    pub fn init(&mut self, name: Option<Vec<u8>>, mode: ChannelMode, buffer: Vec<u8>)
        ensures
            final(self).buf() == buffer@,
            final(self).spec_name() == (match name {
                Some(n) => Some(n@),
                None => None::<Seq<u8>>,
            }),
            final(self).write_word() == old(self).write_word(),
            final(self).read_word() == old(self).read_word(),
            final(self).spec_mode() == mode,
            final(self).flags_word() % 4 == mode_code(mode),
    {
        self.name = name;
        self.buffer = buffer;
        self.set_mode(mode);
    }

    /// The channel's name, if it has one.
    pub fn name(&self) -> (r: Option<&Vec<u8>>)
        ensures
            match r {
                Some(n) => self.spec_name() == Some(n@),
                None => self.spec_name() == None::<Seq<u8>>,
            },
    {
        match &self.name {
            Some(n) => Some(n),
            None => None,
        }
    }

    /// The ring's length in bytes.
    pub fn size_bytes(&self) -> (r: usize)
        ensures
            r == self.size(),
    {
        self.buffer.len()
    }

    /// The ring's bytes, as they stand.
    pub fn bytes(&self) -> (r: &Vec<u8>)
        ensures
            r@ == self.buf(),
    {
        &self.buffer
    }

    /// A volatile load of the `write` index, as memory holds it now.
    pub fn write_index(&self) -> (r: usize) {
        load_word(&self.write)
    }

    /// A volatile load of the `read` index, as memory holds it now.
    pub fn read_index(&self) -> (r: usize) {
        load_word(&self.read)
    }

    /// The mode that the flags select now; the host may change it at any time.
    pub fn mode(&self) -> (r: ChannelMode) {
        let flags = load_word(&self.flags);
        let code = flags & 3;
        if code == 1 {
            ChannelMode::NoBlockTrim
        } else if code == 2 {
            ChannelMode::BlockIfFull
        } else {
            ChannelMode::NoBlockSkip
        }
    }

    /// Writes the mode into the low two bits of the flags and keeps the others.
    pub fn set_mode(&mut self, mode: ChannelMode)
        ensures
            final(self).spec_mode() == mode,
            final(self).flags_word() % 4 == mode_code(mode),
            final(self).buf() == old(self).buf(),
            final(self).spec_name() == old(self).spec_name(),
            final(self).write_word() == old(self).write_word(),
            final(self).read_word() == old(self).read_word(),
    {
        let code: usize = match mode {
            ChannelMode::NoBlockSkip => 0,
            ChannelMode::NoBlockTrim => 1,
            ChannelMode::BlockIfFull => 2,
        };
        let flags = load_word(&self.flags);
        let new_flags = (flags & !3usize) | code;
        assert(((flags & !3usize) | code) % 4 == code) by (bit_vector)
            requires
                code < 4,
        ;
        store_word(&mut self.flags, new_flags);
    }
}


/// Copying `count` more bytes of `data` into the ring at the cursor extends what
/// `ring_put` has placed by those bytes.
proof fn lemma_put_extend(
    b0: Seq<u8>,
    w0: int,
    data: Seq<u8>,
    t: int,
    count: int,
    before: Seq<u8>,
    after: Seq<u8>,
)
    requires
        0 <= w0 < b0.len(),
        0 <= t,
        0 <= count,
        t + count <= data.len(),
        t + count < b0.len(),
        before == ring_put(b0, w0, data.take(t)),
        ring_advance(w0, t, b0.len() as int) + count <= b0.len(),
        after.len() == b0.len(),
        forall|j: int|
            0 <= j < after.len() ==> #[trigger] after[j] == if ring_advance(w0, t, b0.len() as int)
                <= j < ring_advance(w0, t, b0.len() as int) + count {
                data[t + j - ring_advance(w0, t, b0.len() as int)]
            } else {
                before[j]
            },
    ensures
        after == ring_put(b0, w0, data.take(t + count)),
{
    let size = b0.len() as int;
    let at = ring_advance(w0, t, size);
    let goal = ring_put(b0, w0, data.take(t + count));
    assert forall|j: int| 0 <= j < size implies #[trigger] after[j] == goal[j] by {
        let off = ring_offset(j, w0, size);
        if at <= j < at + count {
            assert(off == t + j - at);
        } else {
            assert(off < t || off >= t + count);
        }
    }
    assert(after =~= goal);
}

impl RttChannel {
    /// Loads both indices and resets both to 0 if either lies outside the ring,
    /// which loses what was waiting; returns the `(write, read)` to work from.
    pub fn read_pointers(&mut self) -> (r: (usize, usize))
        requires
            old(self).wf(),
        ensures
            pointers_seen(*old(self), *final(self), r.0 as int, r.1 as int),
            exists|lw: usize, lr: usize|
                (r.0 as int, r.1 as int) == checked_indices(lw as int, lr as int, old(self).size() as int)
                    && (!(lw < old(self).size() && lr < old(self).size()) ==> final(self).write_word()
                    == 0 && final(self).read_word() == 0),
    {
        let write = load_word(&self.write);
        let read = load_word(&self.read);
        if write >= self.buffer.len() || read >= self.buffer.len() {
            store_word(&mut self.write, 0);
            store_word(&mut self.read, 0);
            assert((0int, 0int) == checked_indices(write as int, read as int, self.size() as int));
            return (0, 0);
        }
        assert((write as int, read as int) == checked_indices(write as int, read as int, self.size() as int));
        (write, read)
    }

    /// The number of bytes that can be read from `read` on without wrapping.
    pub fn readable_contiguous(&self, write: usize, read: usize) -> (r: usize)
        requires
            write < self.size(),
            read < self.size(),
        ensures
            r == readable_span(write as int, read as int, self.size() as int),
    {
        if read > write {
            self.buffer.len() - read
        } else {
            write - read
        }
    }

    /// The number of bytes that can be written from `write` on without wrapping
    /// and without filling the reserved slot.
    pub fn writable_contiguous(&self, write: usize, read: usize) -> (r: usize)
        requires
            write < self.size(),
            read < self.size(),
        ensures
            r == writable_span(write as int, read as int, self.size() as int),
    {
        if read > write {
            read - write - 1
        } else if read == 0 {
            self.buffer.len() - write - 1
        } else {
            self.buffer.len() - write
        }
    }

    /// Copies `count` bytes of `data`, from `from` on, into the ring from `at` on.
    fn copy_in(&mut self, at: usize, data: &[u8], from: usize, count: usize)
        requires
            at + count <= old(self).size(),
            from + count <= data@.len(),
        ensures
            final(self).size() == old(self).size(),
            forall|j: int|
                0 <= j < final(self).size() ==> #[trigger] final(self).buf()[j] == if at <= j
                    < at + count {
                    data@[from + j - at]
                } else {
                    old(self).buf()[j]
                },
            final(self).write_word() == old(self).write_word(),
            final(self).read_word() == old(self).read_word(),
            final(self).flags_word() == old(self).flags_word(),
            final(self).spec_name() == old(self).spec_name(),
    {
        let size = self.buffer.len();
        let dlen = data.len();
        let mut k: usize = 0;
        while k < count
            invariant
                k <= count,
                size == old(self).size(),
                dlen == data@.len(),
                at + count <= old(self).size(),
                from + count <= data@.len(),
                self.size() == old(self).size(),
                forall|j: int|
                    0 <= j < self.size() ==> #[trigger] self.buf()[j] == if at <= j < at + k {
                        data@[from + j - at]
                    } else {
                        old(self).buf()[j]
                    },
                self.write_word() == old(self).write_word(),
                self.read_word() == old(self).read_word(),
                self.flags_word() == old(self).flags_word(),
                self.spec_name() == old(self).spec_name(),
            decreases count - k,
        {
            self.buffer.set(at + k, data[from + k]);
            k = k + 1;
        }
    }

    /// Copies up to `out.len()` of the bytes that wait between `r0` and `write`
    /// into `out`, oldest first, stores `read` past them and returns how many
    /// there were.
    pub fn read_at(&mut self, write: usize, r0: usize, out: &mut [u8]) -> (n: usize)
        requires
            old(self).wf(),
            write < old(self).size(),
            r0 < old(self).size(),
        ensures
            read_done(*old(self), *final(self), old(out)@, final(out)@, n as int, write as int, r0 as int),
            final(self).write_word() == old(self).write_word(),
    {
        let ghost pend = ring_bytes(old(self).buf(), write as int, r0 as int);
        let ghost out0 = old(out)@;
        let size = self.buffer.len();
        let mut read = r0;
        let mut total: usize = 0;
        while total < out.len()
            invariant
                size == self.size(),
                write < size,
                r0 < size,
                read < size,
                self.buf() == old(self).buf(),
                pend == ring_bytes(self.buf(), write as int, r0 as int),
                total <= pend.len(),
                read == ring_advance(r0 as int, total as int, size as int),
                ring_used(write as int, read as int, size as int) == pend.len() - total,
                out@.len() == out0.len(),
                total <= out0.len(),
                forall|i: int| 0 <= i < total ==> #[trigger] out@[i] == pend[i],
                forall|i: int| total <= i < out0.len() ==> #[trigger] out@[i] == out0[i],
                self.write_word() == old(self).write_word(),
                self.read_word() == old(self).read_word(),
                self.flags_word() == old(self).flags_word(),
                self.spec_name() == old(self).spec_name(),
            ensures
                total == out0.len() || total == pend.len(),
            decreases out0.len() - total,
        {
            let span = self.readable_contiguous(write, read);
            let count = if span < out.len() - total {
                span
            } else {
                out.len() - total
            };
            if count == 0 {
                break;
            }
            let mut k: usize = 0;
            while k < count
                invariant
                    k <= count,
                    count <= readable_span(write as int, read as int, size as int),
                    total + count <= out0.len(),
                    size == self.size(),
                    write < size,
                    read < size,
                    self.buf() == old(self).buf(),
                    pend == ring_bytes(self.buf(), write as int, r0 as int),
                    read == ring_advance(r0 as int, total as int, size as int),
                    ring_used(write as int, read as int, size as int) == pend.len() - total,
                    out@.len() == out0.len(),
                    forall|i: int| 0 <= i < total + k ==> #[trigger] out@[i] == pend[i],
                    forall|i: int| total + k <= i < out0.len() ==> #[trigger] out@[i] == out0[i],
                decreases count - k,
            {
                out[total + k] = self.buffer[read + k];
                k = k + 1;
            }
            total = total + count;
            read = read + count;
            if read >= size {
                read = 0;
            }
        }
        ordering_fence();
        store_word(&mut self.read, read);
        assert(out@.take(total as int) =~= pend.take(total as int));
        assert(out@.skip(total as int) =~= out0.skip(total as int));
        proof {
            lemma_consume(self.buf(), write as int, r0 as int, total as int);
        }
        total
    }

    /// Copies up to `out.len()` waiting bytes into `out`, oldest first, advances
    /// `read` past them and returns how many there were. Never waits. Used by the
    /// consumer of the channel: the target on a down channel, the host on an up
    /// channel.
    pub fn read(&mut self, out: &mut [u8]) -> (n: usize)
        requires
            old(self).wf(),
        ensures
            exists|w: int, r: int|
                read_done(*old(self), *final(self), old(out)@, final(out)@, n as int, w, r)
                && (final(self).write_word() == old(self).write_word() || (w == 0 && r == 0
                && final(self).write_word() == 0)),
    {
        let ghost out0 = old(out)@;
        let (w, r) = self.read_pointers();
        let ghost mid = *self;
        let n = self.read_at(w, r, out);
        assert(read_done(*old(self), *self, out0, out@, n as int, w as int, r as int));
        n
    }
}


/// Bytes copied into the free part of the ring, followed by moving `write` past
/// them, are read back after what was already waiting, in the order given.
pub proof fn lemma_put_pending(buf: Seq<u8>, write: int, read: int, data: Seq<u8>)
    requires
        0 <= write < buf.len(),
        0 <= read < buf.len(),
        data.len() <= ring_free(write, read, buf.len() as int),
    ensures
        ring_bytes(
            ring_put(buf, write, data),
            ring_advance(write, data.len() as int, buf.len() as int),
            read,
        ) == ring_bytes(buf, write, read) + data,
{
    let size = buf.len() as int;
    let used = ring_used(write, read, size);
    let nw = ring_advance(write, data.len() as int, size);
    let put = ring_put(buf, write, data);
    let lhs = ring_bytes(put, nw, read);
    let rhs = ring_bytes(buf, write, read) + data;
    assert(ring_used(nw, read, size) == used + data.len());
    assert forall|i: int| 0 <= i < lhs.len() implies #[trigger] lhs[i] == rhs[i] by {
        let p = ring_wrap(read + i, size);
        if i < used {
            assert(ring_offset(p, write, size) == size - used + i);
        } else {
            assert(ring_offset(p, write, size) == i - used);
        }
    }
    assert(lhs =~= rhs);
}

/// Copying into the free part of the ring leaves the bytes between `read` and
/// any index short of the copy's start as they were.
pub proof fn lemma_put_keeps(buf: Seq<u8>, at: int, data: Seq<u8>, write: int, read: int)
    requires
        0 <= at < buf.len(),
        0 <= write < buf.len(),
        0 <= read < buf.len(),
        data.len() <= ring_free(at, read, buf.len() as int),
        ring_used(write, read, buf.len() as int) <= ring_used(at, read, buf.len() as int),
    ensures
        ring_bytes(ring_put(buf, at, data), write, read) == ring_bytes(buf, write, read),
{
    let size = buf.len() as int;
    let used = ring_used(at, read, size);
    let lhs = ring_bytes(ring_put(buf, at, data), write, read);
    let rhs = ring_bytes(buf, write, read);
    assert forall|i: int| 0 <= i < lhs.len() implies #[trigger] lhs[i] == rhs[i] by {
        let p = ring_wrap(read + i, size);
        assert(ring_offset(p, at, size) == size - used + i);
    }
    assert(lhs =~= rhs);
}

impl RttChannel {
    /// The number of bytes that can be written from `write` on, wrapping, without
    /// filling the reserved slot.
    pub fn writable(&self, write: usize, read: usize) -> (r: usize)
        requires
            write < self.size(),
            read < self.size(),
        ensures
            r == ring_free(write as int, read as int, self.size() as int),
    {
        if read <= write {
            self.buffer.len() - 1 - (write - read)
        } else {
            read - write - 1
        }
    }

    /// Copies the first `n` bytes of `data` into the ring from `at` on, in at most
    /// two contiguous pieces, and returns the index just past them.
    fn put_at(&mut self, at: usize, read: usize, data: &[u8], n: usize) -> (next: usize)
        requires
            at < old(self).size(),
            read < old(self).size(),
            n <= data@.len(),
            n <= ring_free(at as int, read as int, old(self).size() as int),
        ensures
            final(self).buf() == ring_put(old(self).buf(), at as int, data@.take(n as int)),
            next == ring_advance(at as int, n as int, old(self).size() as int),
            next < old(self).size(),
            final(self).write_word() == old(self).write_word(),
            final(self).read_word() == old(self).read_word(),
            final(self).flags_word() == old(self).flags_word(),
            final(self).spec_name() == old(self).spec_name(),
    {
        let ghost b0 = old(self).buf();
        let ghost free0 = ring_free(at as int, read as int, old(self).size() as int);
        let size = self.buffer.len();
        let mut write = at;
        let mut total: usize = 0;
        assert(ring_put(b0, at as int, data@.take(0)) =~= b0);
        while total < n
            invariant
                size == self.size(),
                size == b0.len(),
                n <= data@.len(),
                n <= free0,
                at < size,
                read < size,
                write < size,
                free0 == ring_free(at as int, read as int, size as int),
                total <= n,
                write == ring_advance(at as int, total as int, size as int),
                ring_free(write as int, read as int, size as int) == free0 - total,
                self.buf() == ring_put(b0, at as int, data@.take(total as int)),
                self.write_word() == old(self).write_word(),
                self.read_word() == old(self).read_word(),
                self.flags_word() == old(self).flags_word(),
                self.spec_name() == old(self).spec_name(),
            decreases n - total,
        {
            let span = self.writable_contiguous(write, read);
            let count = if span < n - total {
                span
            } else {
                n - total
            };
            let ghost before = self.buf();
            self.copy_in(write, data, total, count);
            proof {
                lemma_put_extend(
                    b0,
                    at as int,
                    data@,
                    total as int,
                    count as int,
                    before,
                    self.buf(),
                );
            }
            total = total + count;
            write = write + count;
            if write >= size {
                write = 0;
            }
        }
        write
    }

    /// Copies the first bytes of `data` that `mode` takes into the ring from
    /// `write` on, keeping clear of what waits from `read`, stores `write` past
    /// them and returns how many there were.
    pub fn write_at(&mut self, write: usize, read: usize, mode: ChannelMode, data: &[u8]) -> (n: usize)
        requires
            old(self).wf(),
            write < old(self).size(),
            read < old(self).size(),
        ensures
            write_done(*old(self), *final(self), data@, n as int, write as int, read as int, mode),
            final(self).read_word() == old(self).read_word(),
    {
        let ghost b0 = old(self).buf();
        let free = self.writable(write, read);
        let n = if data.len() <= free {
            data.len()
        } else {
            match mode {
                ChannelMode::NoBlockSkip => 0,
                _ => free,
            }
        };
        let next = self.put_at(write, read, data, n);
        ordering_fence();
        store_word(&mut self.write, next);
        proof {
            lemma_put_pending(b0, write as int, read as int, data@.take(n as int));
            assert(data@.take(0) =~= Seq::<u8>::empty());
            assert(ring_put(b0, write as int, Seq::<u8>::empty()) =~= b0);
        }
        n
    }

    /// Copies as much of `data` as the free space takes into the ring, advances
    /// `write` past it and returns how much that was. Used by the producer of the
    /// channel: the target on an up channel, the host on a down channel.
    pub fn write(&mut self, data: &[u8]) -> (n: usize)
        requires
            old(self).wf(),
        ensures
            final(self).wf(),
            exists|w: int, r: int|
                write_done(*old(self), *final(self), data@, n as int, w, r, ChannelMode::NoBlockTrim),
    {
        let (w, r) = self.read_pointers();
        let n = self.write_at(w, r, ChannelMode::NoBlockTrim, data);
        assert(write_done(*old(self), *self, data@, n as int, w as int, r as int, ChannelMode::NoBlockTrim));
        n
    }

    /// A store of the `read` index, as the host makes it; any value is taken.
    pub fn set_read_index(&mut self, read: usize)
        ensures
            final(self).read_word() == read,
            final(self).write_word() == old(self).write_word(),
            final(self).buf() == old(self).buf(),
            final(self).flags_word() == old(self).flags_word(),
            final(self).spec_name() == old(self).spec_name(),
    {
        store_word(&mut self.read, read);
    }

    /// A store of the `write` index, as the host makes it; any value is taken.
    pub fn set_write_index(&mut self, write: usize)
        ensures
            final(self).write_word() == write,
            final(self).read_word() == old(self).read_word(),
            final(self).buf() == old(self).buf(),
            final(self).flags_word() == old(self).flags_word(),
            final(self).spec_name() == old(self).spec_name(),
    {
        store_word(&mut self.write, write);
    }

    /// Opens a write transaction on the ring, after loading and checking the
    /// indices and loading the mode.
    pub fn writer(&mut self) -> (w: RttWriter<'_>)
        requires
            old(self).wf(),
        ensures
            w.wf(),
            pointers_seen(*old(self), w.channel(), w.start as int, w.read as int),
            w.write == w.start,
            w.state == WriteState::Writable,
            *final(w.chan) == *final(self),
    {
        let (write, read) = self.read_pointers();
        let mode = self.mode();
        RttWriter { chan: self, start: write, write, read, mode, state: WriteState::Writable }
    }
}

/// Where a write transaction stands.
#[derive(Clone, Copy, Debug, PartialEq, Eq, Structural)]
pub enum WriteState {
    /// Bytes can still be appended.
    Writable,
    /// A trimming write ran out of room: later slices are dropped, and the commit
    /// publishes what was staged.
    Full,
    /// A skipping write ran out of room, or the transaction was committed:
    /// nothing more is staged or published.
    Finished,
}

/// How many bytes of a slice of `len` a write takes when `free` bytes are free.
pub open spec fn accepted(mode: ChannelMode, len: int, free: int) -> int {
    if len <= free {
        len
    } else if mode == ChannelMode::NoBlockSkip {
        0
    } else {
        free
    }
}

/// How many bytes of a slice of `len` a transaction in `state` takes in `mode`
/// with `room` bytes free.
pub open spec fn step_takes(state: WriteState, mode: ChannelMode, len: int, room: int) -> int {
    if state == WriteState::Writable {
        accepted(mode, len, room)
    } else {
        0
    }
}

/// The state of a transaction after a slice of `len` in `mode` with `room` free.
pub open spec fn step_state(state: WriteState, mode: ChannelMode, len: int, room: int) -> WriteState {
    if state != WriteState::Writable || len <= room {
        state
    } else if mode == ChannelMode::NoBlockSkip {
        WriteState::Finished
    } else if mode == ChannelMode::NoBlockTrim {
        WriteState::Full
    } else {
        WriteState::Writable
    }
}

/// Whether a slice is cut short by a full ring in `BlockIfFull`: the transaction
/// then publishes what it has staged, so that the host can drain it, and the
/// caller hands in the rest once there is room.
pub open spec fn step_cuts(state: WriteState, mode: ChannelMode, len: int, room: int) -> bool {
    state == WriteState::Writable && mode == ChannelMode::BlockIfFull && len > room
}

/// A multi-part write to an up channel. Slices are staged in the free part of
/// the ring behind a cursor of their own; `write` in memory moves at the commit,
/// so the host sees the whole transaction at once or, where a skipping write ran
/// out of room, nothing of it. In `BlockIfFull` a full ring also publishes what
/// is staged, so that the host can make room.
pub struct RttWriter<'c> {
    pub chan: &'c mut RttChannel,
    /// Where the published bytes end: `write` as the transaction found it or
    /// last stored it.
    pub start: usize,
    /// The cursor: where the next staged byte goes.
    pub write: usize,
    /// `read` as last loaded, in range.
    pub read: usize,
    /// The channel's mode, as loaded when the transaction opened.
    pub mode: ChannelMode,
    pub state: WriteState,
}

/// With `mid` between `read` and `write`, the bytes from `read` to `write` are
/// those to `mid` followed by those from `mid`.
proof fn lemma_split(buf: Seq<u8>, write: int, mid: int, read: int)
    requires
        0 <= write < buf.len(),
        0 <= mid < buf.len(),
        0 <= read < buf.len(),
        ring_used(write, read, buf.len() as int) == ring_used(mid, read, buf.len() as int)
            + ring_used(write, mid, buf.len() as int),
    ensures
        ring_bytes(buf, write, read) == ring_bytes(buf, mid, read) + ring_bytes(buf, write, mid),
{
    let lhs = ring_bytes(buf, write, read);
    let rhs = ring_bytes(buf, mid, read) + ring_bytes(buf, write, mid);
    assert forall|i: int| 0 <= i < lhs.len() implies #[trigger] lhs[i] == rhs[i] by {}
    assert(lhs =~= rhs);
}

impl<'c> RttWriter<'c> {
    pub open spec fn wf(&self) -> bool {
        &&& self.chan.wf()
        &&& self.start < self.chan.size()
        &&& self.write < self.chan.size()
        &&& self.read < self.chan.size()
    }

    /// The channel as it stands now.
    pub open spec fn channel(&self) -> RttChannel {
        *self.chan
    }

    /// Free bytes from the cursor on, with `read` loaded as `read`: short of both
    /// `read` and the published bytes, so that a host that reads past what was
    /// published cannot make a slice overwrite what is staged.
    pub open spec fn room_at(&self, read: int) -> int {
        let size = self.chan.size() as int;
        let a = ring_free(self.write as int, read, size);
        let b = ring_free(self.write as int, self.start as int, size);
        if a <= b {
            a
        } else {
            b
        }
    }

    pub open spec fn room(&self) -> int {
        self.room_at(self.read as int)
    }

    /// The bytes staged behind the published ones, oldest first.
    pub open spec fn staged(&self) -> Seq<u8> {
        ring_bytes(self.chan.buf(), self.write as int, self.start as int)
    }

    /// What a slice of `data` in `mode`, with `read` loaded as `read`, does to
    /// the transaction, from `self` to `after`, when it takes `n` bytes.
    pub open spec fn stepped(
        &self,
        after: &Self,
        mode: ChannelMode,
        data: Seq<u8>,
        n: int,
        read: int,
    ) -> bool {
        let room = self.room_at(read);
        let cut = step_cuts(self.state, mode, data.len() as int, room);
        &&& after.wf()
        &&& after.read == read
        &&& after.mode == self.mode
        &&& n == step_takes(self.state, mode, data.len() as int, room)
        &&& after.chan.buf() == ring_put(self.chan.buf(), self.write as int, data.take(n))
        &&& (n == 0 ==> after.chan.buf() == self.chan.buf())
        &&& after.write as int == ring_advance(self.write as int, n, self.chan.size() as int)
        &&& after.state == step_state(self.state, mode, data.len() as int, room)
        &&& ring_bytes(after.chan.buf(), after.write as int, self.start as int) == self.staged()
            + data.take(n)
        &&& (cut ==> after.start == after.write && after.chan.write_word() == after.write)
        &&& (!cut ==> after.start == self.start && after.chan.write_word() == self.chan.write_word()
            && after.room() == room - n)
        &&& after.chan.read_word() == self.chan.read_word()
        &&& after.chan.flags_word() == self.chan.flags_word()
        &&& after.chan.spec_name() == self.chan.spec_name()
    }

    /// A load of `read` found it out of range: both indices were reset to 0 and
    /// the transaction was dropped.
    pub open spec fn dropped(&self, after: &Self) -> bool {
        &&& after.wf()
        &&& after.state == WriteState::Finished
        &&& after.start == 0
        &&& after.write == 0
        &&& after.read == 0
        &&& after.mode == self.mode
        &&& after.chan.write_word() == 0
        &&& after.chan.read_word() == 0
        &&& after.chan.buf() == self.chan.buf()
        &&& after.chan.flags_word() == self.chan.flags_word()
        &&& after.chan.spec_name() == self.chan.spec_name()
    }

    /// Loads `read` again; where it lies outside the ring, resets both indices
    /// to 0 and drops the transaction.
    pub fn refresh(&mut self)
        requires
            old(self).wf(),
        ensures
            *final(final(self).chan) == *final(old(self).chan),
            old(self).dropped(&*final(self)) || (final(self).wf() && final(self).start
                == old(self).start && final(self).write == old(self).write && final(self).state
                == old(self).state && final(self).mode == old(self).mode && final(self).channel()
                == old(self).channel()),
    {
        let read = load_word(&self.chan.read);
        if read >= self.chan.buffer.len() {
            store_word(&mut self.chan.write, 0);
            store_word(&mut self.chan.read, 0);
            self.start = 0;
            self.write = 0;
            self.read = 0;
            self.state = WriteState::Finished;
        } else {
            self.read = read;
        }
    }

    /// Free bytes from the cursor on, as `room`.
    pub fn room_left(&self) -> (r: usize)
        requires
            self.wf(),
        ensures
            r == self.room(),
    {
        let a = self.chan.writable(self.write, self.read);
        let b = self.chan.writable(self.write, self.start);
        if a <= b {
            a
        } else {
            b
        }
    }

    /// Stages `data` under `mode`, with `read` as last loaded, and returns how
    /// many bytes it took.
    pub fn stage(&mut self, mode: ChannelMode, data: &[u8]) -> (n: usize)
        requires
            old(self).wf(),
        ensures
            old(self).stepped(&*final(self), mode, data@, n as int, old(self).read as int),
            *final(final(self).chan) == *final(old(self).chan),
    {
        let ghost b0 = self.chan.buf();
        let ghost st = self.start as int;
        assert(ring_put(b0, self.write as int, data@.take(0)) =~= b0);
        assert(data@.take(0) =~= Seq::<u8>::empty());
        assert(self.staged() + Seq::<u8>::empty() =~= self.staged());
        if self.state != WriteState::Writable {
            return 0;
        }
        let free = self.room_left();
        let mut cut = false;
        let n = if data.len() <= free {
            data.len()
        } else {
            match mode {
                ChannelMode::NoBlockSkip => {
                    self.state = WriteState::Finished;
                    return 0;
                },
                ChannelMode::NoBlockTrim => {
                    self.state = WriteState::Full;
                    free
                },
                ChannelMode::BlockIfFull => {
                    cut = true;
                    free
                },
            }
        };
        let at = self.write;
        let next = self.chan.put_at(at, self.read, data, n);
        self.write = next;
        proof {
            lemma_put_pending(b0, at as int, st, data@.take(n as int));
        }
        if cut {
            ordering_fence();
            store_word(&mut self.chan.write, next);
            self.start = next;
        }
        n
    }

    /// Loads `read` again and stages `data` under `mode` instead of the
    /// channel's own; returns how many bytes it took.
    pub fn write_with_mode(&mut self, mode: ChannelMode, data: &[u8]) -> (n: usize)
        requires
            old(self).wf(),
        ensures
            *final(final(self).chan) == *final(old(self).chan),
            (old(self).dropped(&*final(self)) && n == 0) || old(self).stepped(
                &*final(self),
                mode,
                data@,
                n as int,
                final(self).read as int,
            ),
    {
        self.refresh();
        self.stage(mode, data)
    }

    /// Loads `read` again and stages `data` under the mode the transaction
    /// opened with; returns how many bytes it took.
    pub fn write(&mut self, data: &[u8]) -> (n: usize)
        requires
            old(self).wf(),
        ensures
            *final(final(self).chan) == *final(old(self).chan),
            (old(self).dropped(&*final(self)) && n == 0) || old(self).stepped(
                &*final(self),
                old(self).mode,
                data@,
                n as int,
                final(self).read as int,
            ),
    {
        let mode = self.mode;
        self.write_with_mode(mode, data)
    }

    /// Whether the transaction failed, so that the commit will publish nothing.
    pub fn is_failed(&self) -> (r: bool)
        ensures
            r == (self.state == WriteState::Finished),
    {
        self.state == WriteState::Finished
    }

    /// Publishes the staged bytes with one store of `write`, unless the
    /// transaction failed; returns how many bytes this store published.
    pub fn commit(self) -> (n: usize)
        requires
            self.wf(),
        ensures
            final(self.chan).buf() == self.channel().buf(),
            final(self.chan).read_word() == self.channel().read_word(),
            final(self.chan).flags_word() == self.channel().flags_word(),
            final(self.chan).spec_name() == self.channel().spec_name(),
            self.state == WriteState::Finished ==> n == 0 && final(self.chan).write_word()
                == self.channel().write_word(),
            self.state != WriteState::Finished ==> n == self.staged().len()
                && final(self.chan).write_word() == self.write,
    {
        let RttWriter { chan, start, write, read, mode, state } = self;
        if state == WriteState::Finished {
            return 0;
        }
        let n = if write >= start {
            write - start
        } else {
            chan.buffer.len() - start + write
        };
        ordering_fence();
        store_word(&mut chan.write, write);
        n
    }
}

/// The id that the host scans target memory for: "SEGGER RTT" and six zero bytes.
pub open spec fn rtt_signature() -> Seq<u8> {
    seq![83u8, 69, 71, 71, 69, 82, 32, 82, 84, 84, 0, 0, 0, 0, 0, 0]
}

/// The head of the control block; the channel descriptors follow it in memory,
/// the up channels first.
pub struct RttHeader {
    id: [u8; 16],
    max_up_channels: VolatileCell<usize>,
    max_down_channels: VolatileCell<usize>,
}

impl RttHeader {
    pub closed spec fn spec_id(&self) -> Seq<u8> {
        self.id@
    }

    pub closed spec fn spec_max_up(&self) -> usize {
        cell_word(self.max_up_channels)
    }

    pub closed spec fn spec_max_down(&self) -> usize {
        cell_word(self.max_down_channels)
    }

    /// A header with every byte zero, as it stands before initialization: the
    /// host's scan does not find it.
    pub fn zeroed() -> (h: RttHeader)
        ensures
            h.spec_id() == Seq::new(16, |i: int| 0u8),
            h.spec_max_up() == 0,
            h.spec_max_down() == 0,
    {
        let h = RttHeader { id: [0u8; 16], max_up_channels: new_word(0), max_down_channels: new_word(0) };
        assert(h.spec_id() =~= Seq::new(16, |i: int| 0u8));
        h
    }

    /// Writes the channel counts and then, last, the id. The id is put together from two
    /// pieces that overlap by one byte, so that the whole signature stands in RAM
    /// only, never in the program image.
    pub fn init(&mut self, max_up_channels: usize, max_down_channels: usize)
        ensures
            final(self).spec_id() == rtt_signature(),
            final(self).spec_max_up() == max_up_channels,
            final(self).spec_max_down() == max_down_channels,
    {
        store_word(&mut self.max_up_channels, max_up_channels);
        store_word(&mut self.max_down_channels, max_down_channels);
        ordering_fence();
        let head: [u8; 9] = [83, 69, 71, 71, 69, 82, 32, 82, 95];
        let tail: [u8; 8] = [84, 84, 0, 0, 0, 0, 0, 0];
        let mut i: usize = 0;
        while i < 9
            invariant
                i <= 9,
                forall|j: int| 0 <= j < i ==> #[trigger] self.id@[j] == head@[j],
                cell_word(self.max_up_channels) == max_up_channels,
                cell_word(self.max_down_channels) == max_down_channels,
            decreases 9 - i,
        {
            self.id[i] = head[i];
            i = i + 1;
        }
        let mut k: usize = 0;
        while k < 8
            invariant
                k <= 8,
                forall|j: int| 0 <= j < 8 ==> #[trigger] self.id@[j] == head@[j],
                forall|j: int| 8 <= j < 8 + k ==> #[trigger] self.id@[j] == tail@[j - 8],
                cell_word(self.max_up_channels) == max_up_channels,
                cell_word(self.max_down_channels) == max_down_channels,
            decreases 8 - k,
        {
            self.id[8 + k] = tail[k];
            k = k + 1;
        }
        assert(self.id@ =~= rtt_signature());
    }

    /// The id bytes.
    pub fn id(&self) -> (r: [u8; 16])
        ensures
            r@ == self.spec_id(),
    {
        self.id
    }

    /// How many up channel descriptors follow the header.
    pub fn max_up_channels(&self) -> (r: usize) {
        load_word(&self.max_up_channels)
    }

    /// How many down channel descriptors follow the up channels.
    pub fn max_down_channels(&self) -> (r: usize) {
        load_word(&self.max_down_channels)
    }
}

/// Never more than `size - 1` bytes wait in a ring whose indices lie inside it,
/// and what is free is the rest.
pub proof fn lemma_capacity(buf: Seq<u8>, write: int, read: int)
    requires
        0 <= write < buf.len(),
        0 <= read < buf.len(),
    ensures
        0 <= ring_bytes(buf, write, read).len() <= buf.len() - 1,
        ring_free(write, read, buf.len() as int) == buf.len() - 1 - ring_bytes(buf, write, read).len(),
{
}

/// An index loaded out of range makes the access work from an empty ring with
/// both indices at 0.
pub proof fn lemma_corrupt_reads_empty(buf: Seq<u8>, write: int, read: int)
    requires
        buf.len() > 0,
        !(0 <= write < buf.len() && 0 <= read < buf.len()),
    ensures
        checked_indices(write, read, buf.len() as int) == (0int, 0int),
        ring_bytes(buf, 0, 0) == Seq::<u8>::empty(),
        ring_free(0, 0, buf.len() as int) == buf.len() - 1,
{
    assert(ring_bytes(buf, 0, 0) =~= Seq::<u8>::empty());
}

/// Moving `read` on by `k` drops the `k` oldest bytes and keeps the rest in
/// order.
pub proof fn lemma_consume(buf: Seq<u8>, write: int, read: int, k: int)
    requires
        0 <= write < buf.len(),
        0 <= read < buf.len(),
        0 <= k <= ring_used(write, read, buf.len() as int),
    ensures
        ring_bytes(buf, write, ring_advance(read, k, buf.len() as int)) == ring_bytes(
            buf,
            write,
            read,
        ).skip(k),
{
    let lhs = ring_bytes(buf, write, ring_advance(read, k, buf.len() as int));
    let rhs = ring_bytes(buf, write, read).skip(k);
    assert(lhs =~= rhs);
}

/// Bytes put into a ring come out in the order they went in: once the reader has
/// taken what waited before them, exactly they remain.
pub proof fn lemma_round_trip(buf: Seq<u8>, write: int, read: int, data: Seq<u8>)
    requires
        0 <= write < buf.len(),
        0 <= read < buf.len(),
        data.len() <= ring_free(write, read, buf.len() as int),
    ensures
        ring_bytes(
            ring_put(buf, write, data),
            ring_advance(write, data.len() as int, buf.len() as int),
            ring_advance(read, ring_used(write, read, buf.len() as int), buf.len() as int),
        ) == data,
{
    let size = buf.len() as int;
    let used = ring_used(write, read, size);
    let nb = ring_put(buf, write, data);
    let nw = ring_advance(write, data.len() as int, size);
    lemma_put_pending(buf, write, read, data);
    lemma_consume(nb, nw, read, used);
    assert((ring_bytes(buf, write, read) + data).skip(used) =~= data);
}

/// A write that waits for room takes at least one byte of a non-empty slice
/// whenever at least one byte is free, and never more than the slice.
pub proof fn lemma_block_progress(len: int, free: int)
    requires
        len > 0,
        free > 0,
    ensures
        1 <= accepted(ChannelMode::BlockIfFull, len, free) <= len,
        accepted(ChannelMode::BlockIfFull, len, free) == len || accepted(
            ChannelMode::BlockIfFull,
            len,
            free,
        ) == free,
{
}

} // verus!
