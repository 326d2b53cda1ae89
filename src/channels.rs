//! The channel handles that the firmware owns: up channels, down channels and
//! up channels split into virtual terminals.
use crate::print::render;
use crate::rtt::{
    mode_code, pointers_seen, read_done, ring_advance, ring_bytes, ring_free, ring_put, step_state,
    step_takes, write_done, ChannelMode, RttChannel, RttWriter, WriteState,
};
use vstd::prelude::*;
use vstd::string::StringSliceAdditionalSpecFns;

verus! {

/// RTT up (target to host) channel.
pub struct UpChannel(RttChannel);

impl View for UpChannel {
    type V = RttChannel;

    closed spec fn view(&self) -> RttChannel {
        self.0
    }
}

impl UpChannel {
    pub open spec fn wf(&self) -> bool {
        self@.wf()
    }

    /// Takes the descriptor of an up channel into the handle that owns it.
    pub fn new(channel: RttChannel) -> (r: UpChannel)
        requires
            channel.wf(),
        ensures
            r@ == channel,
            r.wf(),
    {
        UpChannel(channel)
    }

    /// The descriptor, as the host sees it.
    pub fn channel(&self) -> (r: &RttChannel)
        ensures
            *r == self@,
    {
        &self.0
    }

    /// Writes `buf` to the channel and returns the number of bytes published.
    /// The indices and the mode are loaded once: `NoBlockSkip` publishes all of
    /// `buf` or nothing, the other modes as much as fits. In `BlockIfFull` the
    /// caller waits for the host and hands in the rest.
    pub fn write(&mut self, buf: &[u8]) -> (n: usize)
        requires
            old(self).wf(),
        ensures
            final(self).wf(),
            exists|w: int, r: int, m: ChannelMode|
                write_done(old(self)@, final(self)@, buf@, n as int, w, r, m),
    {
        let (w, r) = self.0.read_pointers();
        let mode = self.0.mode();
        let n = self.0.write_at(w, r, mode, buf);
        assert(write_done(old(self)@, self@, buf@, n as int, w as int, r as int, mode));
        n
    }

    /// Writes the bytes of `s`, as `write` does.
    pub fn write_str(&mut self, s: &str) -> (n: usize)
        requires
            old(self).wf(),
        ensures
            final(self).wf(),
            exists|w: int, r: int, m: ChannelMode|
                write_done(old(self)@, final(self)@, s.spec_bytes(), n as int, w, r, m),
    {
        self.write(s.as_bytes())
    }

    /// Writes formatted arguments as one write.
    pub fn write_fmt(&mut self, args: core::fmt::Arguments<'_>)
        requires
            old(self).wf(),
        ensures
            final(self).wf(),
            exists|data: Seq<u8>, n: int, w: int, r: int, m: ChannelMode|
                write_done(old(self)@, final(self)@, data, n, w, r, m),
    {
        let text = render(args);
        let _ = self.write_str(text.as_str());
    }

    /// Opens a writer for one formatted message with ufmt. Open one for each
    /// message, so that the non-blocking modes treat the message as a whole.
    pub fn u(&mut self) -> (w: uWriter<'_>)
        requires
            old(self).wf(),
        ensures
            w.0.wf(),
            pointers_seen(old(self)@, w.0.channel(), w.0.start as int, w.0.read as int),
            w.0.write == w.0.start,
            w.0.state == WriteState::Writable,
            *final(w.0.chan) == final(self)@,
    {
        uWriter(self.0.writer())
    }

    /// The channel's mode, as the flags select it now.
    pub fn mode(&self) -> (r: ChannelMode) {
        self.0.mode()
    }

    /// Sets the channel's mode.
    pub fn set_mode(&mut self, mode: ChannelMode)
        requires
            old(self).wf(),
        ensures
            final(self).wf(),
            final(self)@.spec_mode() == mode,
            final(self)@.flags_word() % 4 == mode_code(mode),
            final(self)@.buf() == old(self)@.buf(),
            final(self)@.write_word() == old(self)@.write_word(),
            final(self)@.read_word() == old(self)@.read_word(),
    {
        self.0.set_mode(mode)
    }

    /// Turns the channel into sixteen virtual terminals, with terminal 0 current.
    pub fn into_terminal(self) -> (t: TerminalChannel)
        requires
            self.wf(),
        ensures
            t.wf(),
            t.chan() == self@,
            t.current() == 0,
    {
        TerminalChannel::new(self)
    }

    /// The host drains up to `out.len()` bytes from the channel.
    pub fn host_read(&mut self, out: &mut [u8]) -> (n: usize)
        requires
            old(self).wf(),
        ensures
            final(self).wf(),
            exists|w: int, r: int|
                read_done(old(self)@, final(self)@, old(out)@, final(out)@, n as int, w, r),
    {
        let ghost out0 = old(out)@;
        let (w, r) = self.0.read_pointers();
        let n = self.0.read_at(w, r, out);
        assert(read_done(old(self)@, self@, out0, out@, n as int, w as int, r as int));
        n
    }

    /// The host stores `read`, in range or not.
    pub fn host_set_read(&mut self, read: usize)
        requires
            old(self).wf(),
        ensures
            final(self).wf(),
            final(self)@.read_word() == read,
            final(self)@.write_word() == old(self)@.write_word(),
            final(self)@.buf() == old(self)@.buf(),
            final(self)@.flags_word() == old(self)@.flags_word(),
    {
        self.0.set_read_index(read)
    }
}

/// Writer for one formatted message with ufmt; it publishes at `commit`.
#[allow(non_camel_case_types)]
pub struct uWriter<'c>(pub RttWriter<'c>);

impl<'c> uWriter<'c> {
    /// Loads `read` again and stages `data`; returns how many bytes it took. In
    /// `BlockIfFull` the caller hands in the rest once the host made room.
    pub fn write_bytes(&mut self, data: &[u8]) -> (n: usize)
        requires
            old(self).0.wf(),
        ensures
            *final(final(self).0.chan) == *final(old(self).0.chan),
            (old(self).0.dropped(&final(self).0) && n == 0) || old(self).0.stepped(
                &final(self).0,
                old(self).0.mode,
                data@,
                n as int,
                final(self).0.read as int,
            ),
    {
        self.0.write(data)
    }

    /// Stages the bytes of `s`, as `write_bytes` does.
    pub fn write_str(&mut self, s: &str) -> (n: usize)
        requires
            old(self).0.wf(),
        ensures
            *final(final(self).0.chan) == *final(old(self).0.chan),
            (old(self).0.dropped(&final(self).0) && n == 0) || old(self).0.stepped(
                &final(self).0,
                old(self).0.mode,
                s.spec_bytes(),
                n as int,
                final(self).0.read as int,
            ),
    {
        self.0.write(s.as_bytes())
    }

    /// The mode the message was opened with.
    pub fn mode(&self) -> (r: ChannelMode)
        ensures
            r == self.0.mode,
    {
        self.0.mode
    }

    /// Whether the message failed and will publish nothing.
    pub fn is_failed(&self) -> (r: bool)
        ensures
            r == (self.0.state == WriteState::Finished),
    {
        self.0.is_failed()
    }

    /// Publishes the message; returns how many bytes this last store published.
    pub fn commit(self) -> (n: usize)
        requires
            self.0.wf(),
        ensures
            final(self.0.chan).buf() == self.0.channel().buf(),
            final(self.0.chan).read_word() == self.0.channel().read_word(),
            final(self.0.chan).flags_word() == self.0.channel().flags_word(),
            self.0.state == WriteState::Finished ==> n == 0 && final(self.0.chan).write_word()
                == self.0.channel().write_word(),
            self.0.state != WriteState::Finished ==> n == self.0.staged().len() && final(
            self.0.chan).write_word() == self.0.write,
    {
        self.0.commit()
    }
}

/// RTT down (host to target) channel.
pub struct DownChannel(RttChannel);

impl View for DownChannel {
    type V = RttChannel;

    closed spec fn view(&self) -> RttChannel {
        self.0
    }
}

impl DownChannel {
    pub open spec fn wf(&self) -> bool {
        self@.wf()
    }

    /// Takes the descriptor of a down channel into the handle that owns it.
    pub fn new(channel: RttChannel) -> (r: DownChannel)
        requires
            channel.wf(),
        ensures
            r@ == channel,
            r.wf(),
    {
        DownChannel(channel)
    }

    /// The descriptor, as the host sees it.
    pub fn channel(&self) -> (r: &RttChannel)
        ensures
            *r == self@,
    {
        &self.0
    }

    /// Reads up to `buf.len()` bytes from the channel, oldest first, and returns
    /// how many were read. Never waits.
    pub fn read(&mut self, buf: &mut [u8]) -> (n: usize)
        requires
            old(self).wf(),
        ensures
            final(self).wf(),
            exists|w: int, r: int|
                read_done(old(self)@, final(self)@, old(buf)@, final(buf)@, n as int, w, r) && (
                final(self)@.write_word() == old(self)@.write_word() || (w == 0 && r == 0
                && final(self)@.write_word() == 0)),
    {
        let ghost out0 = old(buf)@;
        let (w, r) = self.0.read_pointers();
        let n = self.0.read_at(w, r, buf);
        assert(read_done(old(self)@, self@, out0, buf@, n as int, w as int, r as int));
        n
    }

    /// The host writes as much of `data` as fits and returns how much that was.
    pub fn host_write(&mut self, data: &[u8]) -> (n: usize)
        requires
            old(self).wf(),
        ensures
            final(self).wf(),
            exists|w: int, r: int|
                write_done(old(self)@, final(self)@, data@, n as int, w, r, ChannelMode::NoBlockTrim),
    {
        let (w, r) = self.0.read_pointers();
        let n = self.0.write_at(w, r, ChannelMode::NoBlockTrim, data);
        assert(write_done(old(self)@, self@, data@, n as int, w as int, r as int, ChannelMode::NoBlockTrim));
        n
    }

    /// The host stores `write`, in range or not.
    pub fn host_set_write(&mut self, write: usize)
        requires
            old(self).wf(),
        ensures
            final(self).wf(),
            final(self)@.write_word() == write,
            final(self)@.read_word() == old(self)@.read_word(),
            final(self)@.buf() == old(self)@.buf(),
            final(self)@.flags_word() == old(self)@.flags_word(),
    {
        self.0.set_write_index(write)
    }
}

/// An up channel that carries sixteen virtual terminals in one ring. A switch to
/// terminal `n` is the two bytes `0xff` and the hex digit of `n`.
pub struct TerminalChannel {
    channel: UpChannel,
    current: u8,
}

/// The hex digit that names terminal `n & 0x0f`.
pub open spec fn terminal_id(number: u8) -> u8 {
    let d = number % 16;
    if d < 10 {
        (48 + d) as u8
    } else {
        (55 + d) as u8
    }
}

/// The escape that switches the host to terminal `number`.
pub open spec fn escape(number: u8) -> Seq<u8> {
    seq![0xffu8, terminal_id(number)]
}

/// What a terminal writer has staged once it is opened: the escape when the
/// terminal changes and the escape fits, else nothing.
pub open spec fn switch_bytes(current: u8, number: u8, free: int) -> Seq<u8> {
    if number != current && free >= 2 {
        escape(number)
    } else {
        Seq::empty()
    }
}

impl TerminalChannel {
    pub closed spec fn chan(&self) -> RttChannel {
        self.channel@
    }

    /// The terminal that the host is switched to.
    pub closed spec fn current(&self) -> u8 {
        self.current
    }

    pub open spec fn wf(&self) -> bool {
        self.chan().wf() && self.current() < 16
    }

    /// Wraps an up channel, with terminal 0 current.
    pub fn new(channel: UpChannel) -> (t: TerminalChannel)
        requires
            channel.wf(),
        ensures
            t.wf(),
            t.chan() == channel@,
            t.current() == 0,
    {
        TerminalChannel { channel, current: 0 }
    }

    /// Opens a writer for one message to terminal `number & 0x0f`. Where that is
    /// not the current terminal, the writer first stages the switch, which is
    /// never split. In `NoBlockSkip` and `NoBlockTrim` a switch without room
    /// fails the message; in `BlockIfFull` it waits, and the writer stages it
    /// once the host has made room.
    pub fn write(&mut self, number: u8) -> (w: TerminalWriter<'_>)
        requires
            old(self).wf(),
        ensures
            w.wf(),
            w.number == number % 16,
            *w.current == old(self).current(),
            *final(w.current) == final(self).current(),
            *final(w.writer.chan) == final(self).chan(),
            opened(old(self).chan(), old(self).current(), w),
    {
        proof {
            assert(number & 0x0f == number % 16) by (bit_vector);
        }
        let number = number & 0x0f;
        let mut writer = self.channel.0.writer();
        let ghost w0 = writer.start as int;
        proof {
            assert(writer.staged() =~= Seq::<u8>::empty());
            assert(ring_put(writer.chan.buf(), w0, Seq::<u8>::empty()) =~= writer.chan.buf());
        }
        let mut switch_pending = false;
        if number != self.current {
            if writer.mode == ChannelMode::BlockIfFull && writer.room_left() < 2 {
                switch_pending = true;
            } else {
                let esc_mode = if writer.mode == ChannelMode::NoBlockTrim {
                    ChannelMode::NoBlockSkip
                } else {
                    writer.mode
                };
                let esc = escape_bytes(number);
                let _ = writer.stage(esc_mode, &esc);
                proof {
                    assert(esc@.take(2) =~= esc@);
                    assert(Seq::<u8>::empty() + esc@ =~= esc@);
                    assert(esc@.take(0) =~= Seq::<u8>::empty());
                }
            }
        }
        TerminalWriter { writer, number, current: &mut self.current, switch_pending }
    }

    /// The channel's mode, as the flags select it now.
    pub fn mode(&self) -> (r: ChannelMode) {
        self.channel.mode()
    }

    /// Sets the channel's mode.
    pub fn set_mode(&mut self, mode: ChannelMode)
        requires
            old(self).wf(),
        ensures
            final(self).wf(),
            final(self).chan().spec_mode() == mode,
            final(self).chan().flags_word() % 4 == mode_code(mode),
            final(self).chan().buf() == old(self).chan().buf(),
            final(self).chan().write_word() == old(self).chan().write_word(),
            final(self).chan().read_word() == old(self).chan().read_word(),
            final(self).current() == old(self).current(),
    {
        self.channel.set_mode(mode)
    }

    /// The underlying up channel.
    pub fn up_channel(&self) -> (r: &UpChannel)
        ensures
            r@ == self.chan(),
    {
        &self.channel
    }

    /// The terminal that the host is switched to.
    pub fn current_terminal(&self) -> (r: u8)
        ensures
            r == self.current(),
    {
        self.current
    }

    /// The host drains up to `out.len()` bytes from the channel.
    pub fn host_read(&mut self, out: &mut [u8]) -> (n: usize)
        requires
            old(self).wf(),
        ensures
            final(self).wf(),
            final(self).current() == old(self).current(),
            exists|w: int, r: int|
                read_done(old(self).chan(), final(self).chan(), old(out)@, final(out)@, n as int, w, r),
    {
        self.channel.host_read(out)
    }
}

/// `w` is a writer freshly opened on channel `c` with `current` the current
/// terminal: it loaded the indices as `w.writer.start` and `w.writer.read` and
/// staged the switch where one is due and fits.
pub open spec fn opened(c: RttChannel, current: u8, w: TerminalWriter) -> bool {
    let free = ring_free(w.writer.start as int, w.writer.read as int, c.size() as int);
    let sw = switch_bytes(current, w.number, free);
    &&& w.writer.chan.size() == c.size()
    &&& w.writer.chan.buf() == ring_put(c.buf(), w.writer.start as int, sw)
    &&& ((w.writer.chan.write_word() == c.write_word() && w.writer.chan.read_word() == c.read_word())
        || (w.writer.start == 0 && w.writer.read == 0 && w.writer.chan.write_word() == 0
        && w.writer.chan.read_word() == 0))
    &&& w.writer.chan.flags_word() == c.flags_word()
    &&& w.writer.chan.spec_name() == c.spec_name()
    &&& w.writer.write as int == ring_advance(w.writer.start as int, sw.len() as int, c.size() as int)
    &&& w.writer.staged() == sw
    &&& w.writer.room() == free - sw.len()
    &&& w.writer.state == if w.number != current && free < 2 && w.writer.mode
        != ChannelMode::BlockIfFull {
        WriteState::Finished
    } else {
        WriteState::Writable
    }
    &&& w.switch_pending == (w.number != current && free < 2 && w.writer.mode
        == ChannelMode::BlockIfFull)
}

const ASCII_ZERO: u8 = 48;

const ASCII_UPPER_A: u8 = 65;

/// The hex digit of `d < 16`, upper case.
fn hex_digit(d: u8) -> (r: u8)
    requires
        d < 16,
    ensures
        r == terminal_id(d),
{
    if d < 10 {
        ASCII_ZERO + d
    } else {
        ASCII_UPPER_A + (d - 10)
    }
}

/// The two bytes that switch the host to terminal `number`.
fn escape_bytes(number: u8) -> (r: [u8; 2])
    ensures
        r@ == escape(number),
{
    proof {
        assert(number & 0x0f == number % 16 && number % 16 < 16) by (bit_vector);
    }
    let esc: [u8; 2] = [0xff, hex_digit(number & 0x0f)];
    assert(esc@ =~= escape(number));
    esc
}

/// Writer for one message to one virtual terminal; it publishes at `commit`.
pub struct TerminalWriter<'c> {
    pub writer: RttWriter<'c>,
    pub number: u8,
    pub current: &'c mut u8,
    /// The switch to `number` waits for room (`BlockIfFull` only).
    pub switch_pending: bool,
}

impl<'c> TerminalWriter<'c> {
    pub open spec fn wf(&self) -> bool {
        &&& self.writer.wf()
        &&& self.number < 16
        &&& self.switch_pending ==> self.writer.state == WriteState::Writable && self.writer.mode
            == ChannelMode::BlockIfFull
    }

    /// The current terminal, as the borrowed field holds it now.
    pub open spec fn current_now(&self) -> u8 {
        *self.current
    }

    /// The switch still to be staged.
    pub open spec fn switch_out(&self) -> Seq<u8> {
        if self.switch_pending {
            escape(self.number)
        } else {
            Seq::empty()
        }
    }

    /// With `read` loaded as `read`, the switch waits and has no room yet.
    pub open spec fn blocked_at(&self, read: int) -> bool {
        self.switch_pending && self.writer.room_at(read) < 2
    }

    /// What staging `data`, with `read` loaded as `read`, does to the writer,
    /// from `self` to `after`, when it takes `n` bytes of `data`.
    pub open spec fn advanced(&self, after: &Self, data: Seq<u8>, n: int, read: int) -> bool {
        let room = self.writer.room_at(read) - self.switch_out().len();
        &&& after.wf()
        &&& after.number == self.number
        &&& after.current_now() == self.current_now()
        &&& after.writer.read == read
        &&& after.writer.mode == self.writer.mode
        &&& after.writer.chan.size() == self.writer.chan.size()
        &&& after.writer.chan.read_word() == self.writer.chan.read_word()
        &&& after.writer.chan.flags_word() == self.writer.chan.flags_word()
        &&& after.writer.chan.spec_name() == self.writer.chan.spec_name()
        &&& (self.blocked_at(read) ==> n == 0 && after.switch_pending && after.writer.start
            == self.writer.start && after.writer.write == self.writer.write && after.writer.state
            == self.writer.state && after.writer.chan.buf() == self.writer.chan.buf()
            && after.writer.chan.write_word() == self.writer.chan.write_word())
        &&& (!self.blocked_at(read) ==> !after.switch_pending && n == step_takes(
            self.writer.state,
            self.writer.mode,
            data.len() as int,
            room,
        ) && after.writer.state == step_state(
            self.writer.state,
            self.writer.mode,
            data.len() as int,
            room,
        ) && ring_bytes(after.writer.chan.buf(), after.writer.write as int, self.writer.start as int)
            == self.writer.staged() + self.switch_out() + data.take(n) && after.writer.write as int
            == ring_advance(
            self.writer.write as int,
            self.switch_out().len() + n,
            self.writer.chan.size() as int,
        ) && (after.writer.chan.write_word() == self.writer.chan.write_word() || (
        self.writer.mode == ChannelMode::BlockIfFull && after.writer.chan.write_word()
            == after.writer.write)))
    }

    /// Stages `data`, after the switch if that still waits and now has room,
    /// with `read` as last loaded; returns how many bytes of `data` it took.
    pub fn put_bytes(&mut self, data: &[u8]) -> (n: usize)
        requires
            old(self).wf(),
        ensures
            *final(final(self).current) == *final(old(self).current),
            *final(final(self).writer.chan) == *final(old(self).writer.chan),
            old(self).advanced(&*final(self), data@, n as int, old(self).writer.read as int),
    {
        let ghost s0 = self.writer.staged();
        let ghost st = self.writer.start as int;
        if self.switch_pending {
            if self.writer.room_left() < 2 {
                return 0;
            }
            let esc = escape_bytes(self.number);
            let _ = self.writer.stage(ChannelMode::BlockIfFull, &esc);
            self.switch_pending = false;
            proof {
                assert(esc@.take(2) =~= esc@);
            }
        } else {
            proof {
                assert(s0 + Seq::<u8>::empty() =~= s0);
            }
        }
        let mode = self.writer.mode;
        let n = self.writer.stage(mode, data);
        n
    }

    /// Loads `read` again and stages `data` as `put_bytes` does; returns how many
    /// bytes of `data` it took. A load that finds `read` out of range resets both
    /// indices to 0 and drops the message. In `BlockIfFull` the caller hands in
    /// the rest once the host made room.
    pub fn write_bytes(&mut self, data: &[u8]) -> (n: usize)
        requires
            old(self).wf(),
        ensures
            *final(final(self).current) == *final(old(self).current),
            *final(final(self).writer.chan) == *final(old(self).writer.chan),
            (old(self).writer.dropped(&final(self).writer) && n == 0 && final(self).wf()
                && final(self).number == old(self).number && final(self).current_now()
                == old(self).current_now()) || old(self).advanced(
                &*final(self),
                data@,
                n as int,
                final(self).writer.read as int,
            ),
    {
        let ghost s0 = self.writer.staged();
        self.writer.refresh();
        if self.writer.is_failed() {
            self.switch_pending = false;
            proof {
                assert(s0 + Seq::<u8>::empty() + data@.take(0) =~= s0);
            }
            return 0;
        }
        self.put_bytes(data)
    }

    /// Stages the bytes of `s`, as `write_bytes` does.
    pub fn write_str(&mut self, s: &str) -> (n: usize)
        requires
            old(self).wf(),
        ensures
            *final(final(self).current) == *final(old(self).current),
            *final(final(self).writer.chan) == *final(old(self).writer.chan),
            (old(self).writer.dropped(&final(self).writer) && n == 0) || old(self).advanced(
                &*final(self),
                s.spec_bytes(),
                n as int,
                final(self).writer.read as int,
            ),
    {
        self.write_bytes(s.as_bytes())
    }

    /// The mode the message was opened with.
    pub fn mode(&self) -> (r: ChannelMode)
        ensures
            r == self.writer.mode,
    {
        self.writer.mode
    }

    /// Whether the message failed and will publish nothing.
    pub fn is_failed(&self) -> (r: bool)
        ensures
            r == (self.writer.state == WriteState::Finished),
    {
        self.writer.is_failed()
    }

    /// Whether the switch still waits for room.
    pub fn is_switch_pending(&self) -> (r: bool)
        ensures
            r == self.switch_pending,
    {
        self.switch_pending
    }

    /// Publishes the message and, unless it failed or its switch still waits,
    /// makes `number` the current terminal; returns how many bytes this last
    /// store published.
    pub fn commit(self) -> (n: usize)
        requires
            self.wf(),
        ensures
            final(self.writer.chan).buf() == self.writer.channel().buf(),
            final(self.writer.chan).read_word() == self.writer.channel().read_word(),
            final(self.writer.chan).flags_word() == self.writer.channel().flags_word(),
            final(self.writer.chan).spec_name() == self.writer.channel().spec_name(),
            self.writer.state == WriteState::Finished ==> n == 0 && final(self.writer.chan).write_word()
                == self.writer.channel().write_word() && *final(self.current) == self.current_now(),
            self.writer.state != WriteState::Finished ==> n == self.writer.staged().len()
                && final(self.writer.chan).write_word() == self.writer.write && *final(self.current)
                == if self.switch_pending {
                self.current_now()
            } else {
                self.number
            },
    {
        let TerminalWriter { writer, number, current, switch_pending } = self;
        if !writer.is_failed() && !switch_pending {
            *current = number;
        }
        writer.commit()
    }
}

} // verus!
