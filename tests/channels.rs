use rtt_target::rtt::{RttChannel, RttHeader};
use rtt_target::{ChannelMode, DownChannel, UpChannel};

fn descriptor(size: usize, mode: ChannelMode) -> RttChannel {
    let mut c = RttChannel::zeroed();
    c.init(Some(b"Terminal".to_vec()), mode, vec![0u8; size]);
    c
}

fn up(size: usize, mode: ChannelMode) -> UpChannel {
    UpChannel::new(descriptor(size, mode))
}

fn down(size: usize) -> DownChannel {
    DownChannel::new(descriptor(size, ChannelMode::NoBlockSkip))
}

fn drain(ch: &mut UpChannel) -> Vec<u8> {
    let mut out = vec![0u8; 64];
    let n = ch.host_read(&mut out);
    out.truncate(n);
    out
}

#[test]
fn trim_write_into_empty_ring() {
    let mut ch = up(8, ChannelMode::NoBlockTrim);
    assert_eq!(ch.write(b"HELLO"), 5);
    assert_eq!(ch.channel().write_index(), 5);
    assert_eq!(&ch.channel().bytes()[..5], b"HELLO");
}

#[test]
fn trim_write_keeps_gap_then_wraps() {
    let mut ch = up(8, ChannelMode::NoBlockTrim);
    assert_eq!(ch.write(b"HELLO"), 5);
    assert_eq!(ch.write(b"WORLD"), 2);
    assert_eq!(ch.channel().write_index(), 7);
    ch.host_set_read(5);
    assert_eq!(ch.write(b"RLD"), 3);
    assert_eq!(ch.channel().write_index(), 2);
    assert_eq!(ch.channel().bytes(), &b"LDLLOWOR".to_vec());
}

#[test]
fn skip_write_too_long_publishes_nothing() {
    let mut ch = up(4, ChannelMode::NoBlockSkip);
    assert_eq!(ch.write(b"ABCDE"), 0);
    assert_eq!(ch.channel().write_index(), 0);
    assert_eq!(ch.channel().bytes(), &vec![0u8; 4]);
}

#[test]
fn down_channel_reads_in_two_steps() {
    let mut ch = down(8);
    assert_eq!(ch.host_write(b"abc"), 3);
    assert_eq!(ch.channel().write_index(), 3);
    let mut buf = [0u8; 2];
    assert_eq!(ch.read(&mut buf), 2);
    assert_eq!(&buf, b"ab");
    assert_eq!(ch.channel().read_index(), 2);
    let mut buf = [0u8; 4];
    assert_eq!(ch.read(&mut buf), 1);
    assert_eq!(buf[0], b'c');
    assert_eq!(ch.channel().read_index(), 3);
}

#[test]
fn corrupt_read_index_resets_ring() {
    let mut ch = up(8, ChannelMode::NoBlockTrim);
    ch.host_set_read(99);
    assert_eq!(ch.write(b"A"), 1);
    assert_eq!(ch.channel().write_index(), 1);
    assert_eq!(ch.channel().read_index(), 0);
}

#[test]
fn read_index_equal_to_size_counts_as_corrupt() {
    let mut ch = up(8, ChannelMode::NoBlockSkip);
    assert_eq!(ch.write(b"abc"), 3);
    ch.host_set_read(8);
    assert_eq!(ch.write(b"1234567"), 7);
    assert_eq!(ch.channel().read_index(), 0);
    assert_eq!(ch.channel().write_index(), 7);
    assert_eq!(drain(&mut ch), b"1234567".to_vec());
}

#[test]
fn corrupt_write_index_on_down_channel_reads_nothing() {
    let mut ch = down(8);
    ch.host_write(b"xyz");
    ch.host_set_write(8);
    let mut buf = [0u8; 4];
    assert_eq!(ch.read(&mut buf), 0);
    assert_eq!(ch.channel().write_index(), 0);
    assert_eq!(ch.channel().read_index(), 0);
}

#[test]
fn skip_write_larger_than_free_leaves_ring_as_it_was() {
    let mut ch = up(8, ChannelMode::NoBlockSkip);
    assert_eq!(ch.write(b"12345"), 5);
    let before = ch.channel().bytes().clone();
    assert_eq!(ch.write(b"abc"), 0);
    assert_eq!(ch.channel().write_index(), 5);
    assert_eq!(ch.channel().bytes(), &before);
    assert_eq!(ch.write(b"ab"), 2);
    assert_eq!(ch.channel().write_index(), 7);
}

#[test]
fn trim_write_publishes_exactly_the_free_bytes() {
    let mut ch = up(8, ChannelMode::NoBlockTrim);
    assert_eq!(ch.write(b"12345"), 5);
    assert_eq!(ch.write(b"abc"), 2);
    assert_eq!(drain(&mut ch), b"12345ab".to_vec());
}

#[test]
fn blocking_write_finishes_while_host_drains() {
    let mut ch = up(4, ChannelMode::BlockIfFull);
    let msg = b"a longer message than the ring";
    let mut seen = Vec::new();
    let mut sent = 0;
    let mut rounds = 0;
    while sent < msg.len() {
        let n = ch.write(&msg[sent..]);
        assert!(n >= 1);
        sent += n;
        seen.extend(drain(&mut ch));
        rounds += 1;
        assert!(rounds <= msg.len());
    }
    assert_eq!(seen, msg.to_vec());
}

#[test]
fn blocking_write_into_full_ring_takes_nothing() {
    let mut ch = up(4, ChannelMode::BlockIfFull);
    assert_eq!(ch.write(b"abcdef"), 3);
    assert_eq!(ch.write(b"g"), 0);
    assert_eq!(ch.channel().write_index(), 3);
}

#[test]
fn indices_stay_in_range_and_capacity_holds() {
    let size = 5;
    let mut ch = up(size, ChannelMode::NoBlockTrim);
    let mut out = [0u8; 3];
    for step in 0..40usize {
        let chunk = vec![step as u8; step % 4 + 1];
        ch.write(&chunk);
        if step % 3 == 0 {
            ch.host_read(&mut out);
        }
        let w = ch.channel().write_index();
        let r = ch.channel().read_index();
        assert!(w < size && r < size);
        let used = if w >= r { w - r } else { size - r + w };
        assert!(used <= size - 1);
    }
}

#[test]
fn bytes_come_out_in_order_on_both_directions() {
    let mut d = down(6);
    let mut got = Vec::new();
    let input = b"the quick brown fox";
    let mut sent = 0;
    while sent < input.len() {
        sent += d.host_write(&input[sent..]);
        let mut buf = [0u8; 4];
        let n = d.read(&mut buf);
        got.extend_from_slice(&buf[..n]);
    }
    let mut buf = [0u8; 8];
    let n = d.read(&mut buf);
    got.extend_from_slice(&buf[..n]);
    assert_eq!(got, input.to_vec());

    let mut u = up(6, ChannelMode::NoBlockTrim);
    let mut seen = Vec::new();
    for part in [&b"ab"[..], b"cde", b"f", b"ghij"] {
        let mut w = u.u();
        w.write_str(std::str::from_utf8(part).unwrap());
        w.commit();
        seen.extend(drain(&mut u));
    }
    assert_eq!(seen, b"abcdefghij".to_vec());
}

#[test]
fn read_into_empty_buffer_or_from_empty_ring_returns_zero() {
    let mut ch = down(8);
    let mut empty: [u8; 0] = [];
    assert_eq!(ch.read(&mut empty), 0);
    ch.host_write(b"q");
    assert_eq!(ch.read(&mut empty), 0);
    let mut buf = [7u8; 3];
    assert_eq!(ch.read(&mut buf), 1);
    assert_eq!(buf, [b'q', 7, 7]);
    assert_eq!(ch.read(&mut buf), 0);
}

#[test]
fn host_write_fills_down_channel_up_to_gap() {
    let mut ch = down(4);
    assert_eq!(ch.host_write(b"abcdef"), 3);
    assert_eq!(ch.host_write(b"x"), 0);
    let mut buf = [0u8; 8];
    assert_eq!(ch.read(&mut buf), 3);
    assert_eq!(&buf[..3], b"abc");
}

#[test]
fn mode_is_kept_in_flags() {
    let mut ch = up(8, ChannelMode::NoBlockSkip);
    assert!(ch.mode() == ChannelMode::NoBlockSkip);
    ch.set_mode(ChannelMode::BlockIfFull);
    assert!(ch.mode() == ChannelMode::BlockIfFull);
    ch.set_mode(ChannelMode::NoBlockTrim);
    assert!(ch.mode() == ChannelMode::NoBlockTrim);
    let fresh = RttChannel::zeroed();
    assert!(fresh.mode() == ChannelMode::NoBlockSkip);
}

#[test]
fn descriptor_keeps_name_and_size() {
    let c = descriptor(16, ChannelMode::NoBlockTrim);
    assert_eq!(c.size_bytes(), 16);
    assert_eq!(c.name(), Some(&b"Terminal".to_vec()));
    assert_eq!(RttChannel::zeroed().name(), None);
    assert_eq!(RttChannel::zeroed().size_bytes(), 0);
}

#[test]
fn writer_transaction_in_skip_mode_is_all_or_nothing() {
    let mut ch = up(8, ChannelMode::NoBlockSkip);
    {
        let mut w = ch.u();
        w.write_str("abc");
        w.write_str("defgh");
        assert_eq!(w.commit(), 0);
    }
    assert_eq!(ch.channel().write_index(), 0);
    {
        let mut w = ch.u();
        w.write_str("abc");
        w.write_str("defg");
        assert_eq!(w.commit(), 7);
    }
    assert_eq!(drain(&mut ch), b"abcdefg".to_vec());
}

#[test]
fn header_init_writes_signature_and_counts() {
    let mut h = RttHeader::zeroed();
    assert_eq!(h.id(), [0u8; 16]);
    h.init(2, 1);
    let mut expected = Vec::new();
    expected.extend_from_slice(b"SEGGER ");
    expected.extend_from_slice(b"RTT");
    expected.extend_from_slice(&[0u8; 6]);
    assert_eq!(h.id().to_vec(), expected);
    assert_eq!(h.max_up_channels(), 2);
    assert_eq!(h.max_down_channels(), 1);
}

#[test]
fn blocking_writer_publishes_on_cut_and_takes_rest_later() {
    let mut ch = up(4, ChannelMode::BlockIfFull);
    {
        let mut w = ch.u();
        assert_eq!(w.write_bytes(b"ab"), 2);
        assert_eq!(w.write_bytes(b"cd"), 1);
        assert_eq!(w.write_bytes(b"d"), 0);
        assert_eq!(w.commit(), 0);
    }
    assert_eq!(ch.channel().write_index(), 3);
    assert_eq!(drain(&mut ch), b"abc".to_vec());
    {
        let mut w = ch.u();
        assert_eq!(w.write_str("d"), 1);
        assert_eq!(w.commit(), 1);
    }
    assert_eq!(drain(&mut ch), b"d".to_vec());
}
