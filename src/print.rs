//! Printing: one terminal channel shared by every context of the program.
//!
//! The state is a value of its own, `PrintTerminal`, so that whoever shares it
//! decides how: the program keeps one in a global behind its critical section
//! and hands it to `write_str` and `write_fmt` inside that section.
use crate::channels::{escape, switch_bytes, TerminalChannel, UpChannel};
use crate::rtt::{accepted, ring_advance, ring_bytes, ring_free, ChannelMode};
use vstd::prelude::*;
use vstd::string::StringSliceAdditionalSpecFns;

verus! {

#[verifier::external_type_specification]
#[verifier::external_body]
pub struct ExArguments<'a>(core::fmt::Arguments<'a>);

/// Relies on `core::fmt::write`: renders formatting arguments into a string. An
/// error from a formatting impl ends the text where it stands instead of
/// panicking.
#[verifier::external_body]
pub(crate) fn render(args: core::fmt::Arguments<'_>) -> (r: String) {
    let mut text = String::new();
    let _ = core::fmt::write(&mut text, args);
    text
}

/// What a message of `data` to terminal `number` publishes, when `current` is
/// the current terminal, the channel has `free` free bytes and is in `mode`; or
/// `None` where the message fails and publishes nothing, which leaves the
/// current terminal as it was.
pub open spec fn terminal_output(
    mode: ChannelMode,
    current: u8,
    number: u8,
    free: int,
    data: Seq<u8>,
) -> Option<Seq<u8>> {
    let esc = switch_bytes(current, number, free);
    let room = free - esc.len();
    if number != current && free < 2 {
        None
    } else if mode == ChannelMode::NoBlockSkip && data.len() > room {
        None
    } else {
        Some(esc + data.take(accepted(mode, data.len() as int, room)))
    }
}

/// A switch to another terminal is published whole and right before the
/// message, or the message publishes nothing at all.
pub proof fn lemma_switch_atomic(mode: ChannelMode, current: u8, number: u8, free: int, data: Seq<u8>)
    requires
        number != current,
    ensures
        match terminal_output(mode, current, number, free, data) {
            Some(out) => out.len() >= 2 && out.take(2) == escape(number) && out.skip(2)
                == data.take(accepted(mode, data.len() as int, free - 2)),
            None => free < 2 || (mode == ChannelMode::NoBlockSkip && data.len() > free - 2),
        },
{
    if let Some(out) = terminal_output(mode, current, number, free, data) {
        let rest = data.take(accepted(mode, data.len() as int, free - 2));
        assert(out == escape(number) + rest);
        assert(out.take(2) =~= escape(number));
        assert(out.skip(2) =~= rest);
    }
}

/// The print channel, once one has been set.
pub struct PrintTerminal {
    terminal: Option<TerminalChannel>,
}

/// What printing `data` to terminal `number` did to the print channel, from `t`
/// to `u`, taking `n` bytes of `data`, when it loaded the indices as `write` and
/// `read` and the mode as `mode`. Where the message fails or its switch finds no
/// room, nothing is published and the current terminal stays; else the switch
/// and the bytes taken follow what waited, in order, and `write` moves past them.
pub open spec fn printed_at(
    t: TerminalChannel,
    u: TerminalChannel,
    number: u8,
    data: Seq<u8>,
    n: int,
    write: int,
    read: int,
    mode: ChannelMode,
) -> bool {
    let size = t.chan().size() as int;
    let target = (number % 16) as u8;
    let free = ring_free(write, read, size);
    &&& 0 <= write < size
    &&& 0 <= read < size
    &&& u.wf()
    &&& u.chan().size() == t.chan().size()
    &&& u.chan().flags_word() == t.chan().flags_word()
    &&& u.chan().spec_name() == t.chan().spec_name()
    &&& (u.chan().read_word() == t.chan().read_word() || (write == 0 && read == 0
        && u.chan().read_word() == 0))
    &&& match terminal_output(mode, t.current(), target, free, data) {
        None => n == 0 && u.current() == t.current() && (u.chan().write_word()
            == t.chan().write_word() || u.chan().write_word() == write),
        Some(out) => {
            &&& u.current() == target
            &&& out == switch_bytes(t.current(), target, free) + data.take(n)
            &&& u.chan().write_word() == ring_advance(write, out.len() as int, size)
            &&& ring_bytes(u.chan().buf(), u.chan().write_word() as int, write) == out
        },
    }
}

/// `after` is `before` once a message of `data` has been printed to terminal
/// `number`, taking `n` bytes of `data`: nothing happens while no channel is set.
pub open spec fn printed(before: PrintTerminal, after: PrintTerminal, number: u8, data: Seq<u8>, n: int) -> bool {
    match before.term() {
        None => after.term() == before.term() && n == 0,
        Some(t) => match after.term() {
            None => false,
            Some(u) => exists|w: int, r: int, m: ChannelMode|
                printed_at(t, u, number, data, n, w, r, m),
        },
    }
}

impl PrintTerminal {
    pub closed spec fn term(&self) -> Option<TerminalChannel> {
        self.terminal
    }

    pub open spec fn wf(&self) -> bool {
        match self.term() {
            Some(t) => t.wf(),
            None => true,
        }
    }

    /// No print channel yet: printing is silently dropped.
    pub fn new() -> (p: PrintTerminal)
        ensures
            p.term() == None::<TerminalChannel>,
            p.wf(),
    {
        PrintTerminal { terminal: None }
    }

    /// Makes `channel` the print channel, with terminal 0 current.
    pub fn set_channel(&mut self, channel: UpChannel)
        requires
            channel.wf(),
        ensures
            final(self).wf(),
            final(self).term() is Some,
            final(self).term().unwrap().chan() == channel@,
            final(self).term().unwrap().current() == 0,
    {
        self.terminal = Some(TerminalChannel::new(channel));
    }

    /// Whether a print channel has been set.
    pub fn is_set(&self) -> (r: bool)
        ensures
            r == self.term() is Some,
    {
        self.terminal.is_some()
    }

    /// The print channel, if one has been set.
    pub fn terminal(&self) -> (r: Option<&TerminalChannel>)
        ensures
            match self.term() {
                Some(t) => r == Some(&t),
                None => r is None,
            },
    {
        match &self.terminal {
            Some(t) => Some(t),
            None => None,
        }
    }

    /// The print channel, for the host's side or for a change of mode.
    pub fn terminal_mut(&mut self) -> (r: Option<&mut TerminalChannel>)
        ensures
            match old(self).term() {
                Some(t) => r is Some && *r.unwrap() == t && final(self).term() == Some(
                    *final(r.unwrap()),
                ),
                None => r is None && final(self).term() == old(self).term(),
            },
    {
        match &mut self.terminal {
            Some(t) => Some(t),
            None => None,
        }
    }
}

/// Prints `s` to terminal `number` of the print channel, as one message, and
/// returns how many bytes of `s` it took; does nothing while no print channel
/// is set. In `BlockIfFull` the caller hands in the rest once the host made room.
pub fn write_str(print: &mut PrintTerminal, number: u8, s: &str) -> (n: usize)
    requires
        old(print).wf(),
    ensures
        final(print).wf(),
        printed(*old(print), *final(print), number, s.spec_bytes(), n as int),
{
    write_bytes(print, number, s.as_bytes())
}

/// Prints formatted arguments to terminal `number` of the print channel, as one
/// message; does nothing while no print channel is set.
pub fn write_fmt(print: &mut PrintTerminal, number: u8, args: core::fmt::Arguments<'_>)
    requires
        old(print).wf(),
    ensures
        final(print).wf(),
        exists|data: Seq<u8>, n: int| printed(*old(print), *final(print), number, data, n),
{
    if !print.is_set() {
        assert(printed(*old(print), *final(print), number, Seq::<u8>::empty(), 0));
        return;
    }
    let text = render(args);
    let _ = write_str(print, number, text.as_str());
}

/// Prints `data` to terminal `number` of the print channel, as one message, and
/// returns how many bytes of `data` it took. The indices and the mode are
/// loaded once, when the message opens.
pub fn write_bytes(print: &mut PrintTerminal, number: u8, data: &[u8]) -> (n: usize)
    requires
        old(print).wf(),
    ensures
        final(print).wf(),
        printed(*old(print), *final(print), number, data@, n as int),
{
    let ghost t0 = print.term();
    let ghost mut w0 = 0int;
    let ghost mut r0 = 0int;
    let ghost mut m0 = ChannelMode::NoBlockSkip;
    let ghost mut open_ww = 0usize;
    let ghost mut open_write = 0int;
    let ghost mut fin = false;
    let ghost mut pend = false;
    let ghost mut cur = 0int;
    let ghost mut ww = 0usize;
    let ghost mut bytes = Seq::<u8>::empty();
    let n = match &mut print.terminal {
        Some(term) => {
            let mut w = term.write(number);
            proof {
                w0 = w.writer.start as int;
                r0 = w.writer.read as int;
                m0 = w.writer.mode;
                open_ww = w.writer.chan.write_word();
                open_write = w.writer.write as int;
            }
            let n = w.put_bytes(data);
            proof {
                fin = w.writer.state == crate::rtt::WriteState::Finished;
                pend = w.switch_pending;
                cur = w.writer.write as int;
                ww = w.writer.chan.write_word();
                bytes = ring_bytes(w.writer.chan.buf(), w.writer.write as int, w0);
            }
            let _ = w.commit();
            n
        },
        None => 0,
    };
    proof {
        if let Some(t) = t0 {
            let u = print.term().unwrap();
            let size = t.chan().size() as int;
            let target = (number % 16) as u8;
            let free = ring_free(w0, r0, size);
            let sw = switch_bytes(t.current(), target, free);
            if target != t.current() && free < 2 {
                assert(n == 0);
                assert(u.current() == t.current());
            } else if m0 == ChannelMode::NoBlockSkip && data@.len() > free - sw.len() {
                assert(fin);
                assert(n == 0);
            } else {
                assert(!fin);
                assert(!pend);
                assert(bytes == sw + data@.take(n as int));
                assert(cur == ring_advance(w0, sw.len() + n, size));
                assert(u.chan().write_word() == cur);
            }
            assert(0 <= w0 < size && 0 <= r0 < size);
            assert(u.wf());
            assert(u.chan().size() == t.chan().size());
            assert(u.chan().flags_word() == t.chan().flags_word());
            assert(u.chan().spec_name() == t.chan().spec_name());
            assert(u.chan().read_word() == t.chan().read_word() || (w0 == 0 && r0 == 0
                && u.chan().read_word() == 0));
            match terminal_output(m0, t.current(), target, free, data@) {
                None => {
                    assert(n == 0);
                    assert(u.current() == t.current());
                    assert(u.chan().write_word() == t.chan().write_word() || u.chan().write_word() == w0);
                },
                Some(out) => {
                    assert(u.current() == target);
                    assert(out == sw + data@.take(n as int));
                    assert(u.chan().write_word() == ring_advance(w0, out.len() as int, size));
                    assert(ring_bytes(u.chan().buf(), u.chan().write_word() as int, w0) == out);
                },
            }
            assert(printed_at(t, u, number, data@, n as int, w0, r0, m0));
        }
    }
    n
}

} // verus!
