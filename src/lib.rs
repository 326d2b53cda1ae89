//! Target side of the RTT (Real-Time Transfer) protocol: ring buffers in target
//! memory that a debug probe polls, to carry bytes between firmware and a host
//! without any dedicated peripheral.
mod volatile;
pub mod rtt;

pub use rtt::ChannelMode;
pub mod channels;

pub use channels::{DownChannel, TerminalChannel, TerminalWriter, UpChannel, uWriter};
pub mod print;

pub use print::{write_fmt, write_str, PrintTerminal};
