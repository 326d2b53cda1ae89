use rtt_target::rtt::RttChannel;
use rtt_target::{write_str, ChannelMode, PrintTerminal, TerminalChannel, UpChannel};

fn up(size: usize, mode: ChannelMode) -> UpChannel {
    let mut c = RttChannel::zeroed();
    c.init(None, mode, vec![0u8; size]);
    UpChannel::new(c)
}

fn drain(t: &mut TerminalChannel) -> Vec<u8> {
    let mut out = vec![0u8; 64];
    let n = t.host_read(&mut out);
    out.truncate(n);
    out
}

#[test]
fn switch_to_terminal_three_precedes_payload() {
    let mut t = up(16, ChannelMode::NoBlockTrim).into_terminal();
    let mut w = t.write(3);
    w.write_str("x");
    assert_eq!(w.commit(), 3);
    assert_eq!(drain(&mut t), vec![0xff, b'3', b'x']);
    assert_eq!(t.current_terminal(), 3);
}

#[test]
fn same_terminal_sends_no_switch() {
    let mut t = up(16, ChannelMode::NoBlockTrim).into_terminal();
    let mut w = t.write(0);
    w.write_str("hi");
    w.commit();
    assert_eq!(drain(&mut t), b"hi".to_vec());
}

#[test]
fn terminal_digits_above_nine_are_upper_case_hex() {
    let mut t = up(16, ChannelMode::NoBlockSkip).into_terminal();
    let w = t.write(12);
    w.commit();
    let w = t.write(15);
    w.commit();
    assert_eq!(drain(&mut t), vec![0xff, b'C', 0xff, b'F']);
}

#[test]
fn failed_switch_publishes_nothing_and_keeps_terminal() {
    let mut t = up(4, ChannelMode::NoBlockSkip).into_terminal();
    let mut w = t.write(0);
    w.write_str("ab");
    w.commit();
    let mut w = t.write(5);
    w.write_str("z");
    assert_eq!(w.commit(), 0);
    assert_eq!(t.current_terminal(), 0);
    assert_eq!(drain(&mut t), b"ab".to_vec());
    let mut w = t.write(5);
    w.write_str("z");
    assert_eq!(w.commit(), 3);
    assert_eq!(drain(&mut t), vec![0xff, b'5', b'z']);
    assert_eq!(t.current_terminal(), 5);
}

#[test]
fn switch_is_not_split_in_trim_mode() {
    let mut t = up(4, ChannelMode::NoBlockTrim).into_terminal();
    let mut w = t.write(0);
    w.write_str("ab");
    w.commit();
    let mut w = t.write(1);
    w.write_str("yz");
    assert_eq!(w.commit(), 0);
    assert_eq!(t.current_terminal(), 0);
    assert_eq!(drain(&mut t), b"ab".to_vec());
}

#[test]
fn trim_mode_trims_payload_after_switch() {
    let mut t = up(5, ChannelMode::NoBlockTrim).into_terminal();
    let mut w = t.write(7);
    w.write_str("abcdef");
    assert_eq!(w.commit(), 4);
    assert_eq!(drain(&mut t), vec![0xff, b'7', b'a', b'b']);
    assert_eq!(t.current_terminal(), 7);
}

#[test]
fn terminal_mode_follows_channel() {
    let mut t = up(8, ChannelMode::NoBlockTrim).into_terminal();
    assert!(t.mode() == ChannelMode::NoBlockTrim);
    t.set_mode(ChannelMode::BlockIfFull);
    assert!(t.mode() == ChannelMode::BlockIfFull);
    assert!(t.up_channel().mode() == ChannelMode::BlockIfFull);
}

#[test]
fn printing_before_a_channel_is_set_does_nothing() {
    let mut p = PrintTerminal::new();
    assert!(!p.is_set());
    write_str(&mut p, 0, "lost");
    assert!(!p.is_set());
    assert!(p.terminal().is_none());
}

#[test]
fn printing_goes_to_the_print_channel() {
    let mut p = PrintTerminal::new();
    p.set_channel(up(32, ChannelMode::NoBlockTrim));
    assert!(p.is_set());
    write_str(&mut p, 0, "hello\n");
    write_str(&mut p, 2, "x");
    let t = p.terminal_mut().unwrap();
    let mut expected = b"hello\n".to_vec();
    expected.extend_from_slice(&[0xff, b'2', b'x']);
    assert_eq!(drain(t), expected);
    assert_eq!(p.terminal().unwrap().current_terminal(), 2);
}

#[test]
fn blocking_switch_waits_for_room_and_is_not_split() {
    let mut t = up(4, ChannelMode::BlockIfFull).into_terminal();
    let mut w = t.write(0);
    assert_eq!(w.write_str("abc"), 3);
    w.commit();
    let mut w = t.write(5);
    assert!(w.is_switch_pending());
    assert_eq!(w.write_str("z"), 0);
    assert!(w.is_switch_pending());
    assert_eq!(w.commit(), 0);
    assert_eq!(t.current_terminal(), 0);
    assert_eq!(drain(&mut t), b"abc".to_vec());
    let mut w = t.write(5);
    assert!(!w.is_switch_pending());
    assert_eq!(w.write_str("z"), 1);
    assert_eq!(w.commit(), 3);
    assert_eq!(drain(&mut t), vec![0xff, b'5', b'z']);
    assert_eq!(t.current_terminal(), 5);
}

#[test]
fn blocking_print_takes_the_rest_after_a_drain() {
    let mut p = PrintTerminal::new();
    p.set_channel(up(4, ChannelMode::BlockIfFull));
    assert_eq!(write_str(&mut p, 0, "abcdef"), 3);
    assert_eq!(drain(p.terminal_mut().unwrap()), b"abc".to_vec());
    assert_eq!(rtt_target::print::write_bytes(&mut p, 0, b"def"), 3);
    assert_eq!(drain(p.terminal_mut().unwrap()), b"def".to_vec());
}

#[test]
fn print_returns_bytes_taken() {
    let mut p = PrintTerminal::new();
    assert_eq!(write_str(&mut p, 1, "unset"), 0);
    p.set_channel(up(8, ChannelMode::NoBlockTrim));
    assert_eq!(write_str(&mut p, 1, "abcdefgh"), 5);
    assert_eq!(drain(p.terminal_mut().unwrap()), vec![0xff, b'1', b'a', b'b', b'c', b'd', b'e']);
}

#[test]
fn read_corrupted_mid_message_resets_instead_of_panicking() {
    let mut t = up(8, ChannelMode::NoBlockTrim).into_terminal();
    let mut w = t.write(0);
    assert_eq!(w.write_str("1234567"), 7);
    w.commit();
    assert_eq!(drain(&mut t), b"1234567".to_vec());
    let mut w = t.write(2);
    w.writer.chan.set_read_index(99);
    assert_eq!(w.write_str("x"), 0);
    assert!(w.is_failed());
    assert_eq!(w.commit(), 0);
    assert_eq!(t.current_terminal(), 0);
    assert_eq!(t.up_channel().channel().write_index(), 0);
    assert_eq!(t.up_channel().channel().read_index(), 0);
    let mut w = t.write(2);
    assert_eq!(w.write_str("y"), 1);
    w.commit();
    assert_eq!(drain(&mut t), vec![0xff, b'2', b'y']);
}

#[test]
fn terminal_numbers_are_taken_modulo_sixteen() {
    let mut t = up(16, ChannelMode::NoBlockTrim).into_terminal();
    let mut w = t.write(19);
    w.write_str("q");
    w.commit();
    assert_eq!(t.current_terminal(), 3);
    assert_eq!(drain(&mut t), vec![0xff, b'3', b'q']);
}
