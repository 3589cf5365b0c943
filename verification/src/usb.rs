//! Messages over USB CDC-ACM: how a message is cut into packets, and how packets are joined.
use vstd::prelude::*;

use crate::error::Error;

verus! {

/// The size of a USB packet.
pub const PACKET_LEN: usize = 64;

/// The size of the buffer that packets are joined in.
pub const READ_BUFFER_LEN: usize = 512;

/// The number of full-size packets of a message of `len` bytes, and one more for its rest; a
/// message whose length is a multiple of the packet size (none included) ends with an empty
/// packet, which tells the reader that it is over.
pub open spec fn packet_count(len: nat) -> nat {
    len / PACKET_LEN as nat + 1
}

/// The bounds of the `k`-th packet of a message of `len` bytes.
pub open spec fn packet_bounds(len: nat, k: nat) -> (nat, nat) {
    let start = k * PACKET_LEN as nat;
    (start, if start + PACKET_LEN <= len { start + PACKET_LEN as nat } else { len })
}

/// The packets that a message is written in: 64-byte packets, then the rest, which is empty when
/// the length is a multiple of 64.
pub fn write_packets(buf: &[u8]) -> (r: Vec<&[u8]>)
    ensures
        r@.len() == packet_count(buf@.len()),
        forall|k: int|
            0 <= k < r@.len() ==> r@[k]@ == buf@.subrange(
                packet_bounds(buf@.len(), k as nat).0 as int,
                packet_bounds(buf@.len(), k as nat).1 as int,
            ),
{
    let n = buf.len();
    let mut packets: Vec<&[u8]> = Vec::new();
    let mut start: usize = 0;
    while n - start >= PACKET_LEN
        invariant
            n == buf@.len(),
            start <= n,
            start == packets@.len() * PACKET_LEN,
            forall|k: int|
                0 <= k < packets@.len() ==> packets@[k]@ == buf@.subrange(
                    packet_bounds(buf@.len(), k as nat).0 as int,
                    packet_bounds(buf@.len(), k as nat).1 as int,
                ),
        decreases n - start,
    {
        packets.push(&buf[start..start + PACKET_LEN]);
        start = start + PACKET_LEN;
    }
    packets.push(&buf[start..n]);
    assert(packets@.len() == packet_count(n as nat)) by (nonlinear_arith)
        requires
            start == (packets@.len() - 1) * PACKET_LEN,
            n - start < PACKET_LEN,
            start <= n,
            packets@.len() >= 1,
    ;
    packets
}

/// What the reader does after a packet of `read_len` bytes, with `filled` bytes joined before
/// it: a full packet means more are coming; a shorter one ends the message, of this many bytes.
pub fn read_step(filled: usize, read_len: usize) -> (r: Option<usize>)
    requires
        filled + read_len <= READ_BUFFER_LEN,
    ensures
        read_len == PACKET_LEN ==> r is None,
        read_len != PACKET_LEN ==> r == Some((filled + read_len) as usize),
{
    if read_len == PACKET_LEN {
        None
    } else {
        Some(filled + read_len)
    }
}

/// Joins the packets that come over USB into messages.
#[derive(Debug)]
pub struct UsbPacketReader<T> {
    buffer: Vec<u8>,
    /// The CDC-ACM class that the packets are read from.
    pub class: T,
}

impl<T> UsbPacketReader<T> {
    /// The bytes of the message joined so far.
    pub closed spec fn joined(&self) -> Seq<u8> {
        self.buffer@
    }

    /// The class that the packets are read from.
    pub closed spec fn class_spec(&self) -> T {
        self.class
    }

    /// A reader on `class`, with nothing joined.
    pub fn new(class: T) -> (r: UsbPacketReader<T>)
        ensures
            r.class_spec() == class,
            r.joined() == Seq::<u8>::empty(),
    {
        UsbPacketReader { buffer: Vec::new(), class }
    }

    /// The room left for packets in the buffer.
    pub fn free_space(&self) -> (r: usize)
        ensures
            r == if self.joined().len() <= READ_BUFFER_LEN {
                READ_BUFFER_LEN - self.joined().len()
            } else {
                0
            },
    {
        if self.buffer.len() >= READ_BUFFER_LEN {
            0
        } else {
            READ_BUFFER_LEN - self.buffer.len()
        }
    }

    /// Takes a packet that was read: a full packet means more are coming; a shorter one ends the
    /// message, which is handed out, and the reader starts over.
    pub fn take_packet(&mut self, packet: &[u8]) -> (r: Option<Vec<u8>>)
        requires
            old(self).joined().len() + packet@.len() <= READ_BUFFER_LEN,
        ensures
            final(self).class_spec() == old(self).class_spec(),
            packet@.len() == PACKET_LEN ==> r is None && final(self).joined() == old(self).joined()
                + packet@,
            packet@.len() != PACKET_LEN ==> (r matches Some(m) && m@ == old(self).joined() + packet@
                && final(self).joined() == Seq::<u8>::empty()),
    {
        let filled = self.buffer.len();
        let mut k: usize = 0;
        while k < packet.len()
            invariant
                k <= packet@.len(),
                self.buffer@ == old(self).buffer@ + packet@.subrange(0, k as int),
                self.class == old(self).class,
            decreases packet@.len() - k,
        {
            self.buffer.push(packet[k]);
            k = k + 1;
            assert(self.buffer@ =~= old(self).buffer@ + packet@.subrange(0, k as int));
        }
        assert(packet@.subrange(0, packet@.len() as int) =~= packet@);
        match read_step(filled, packet.len()) {
            None => None,
            Some(_) => {
                let mut message: Vec<u8> = Vec::new();
                std::mem::swap(&mut message, &mut self.buffer);
                Some(message)
            },
        }
    }
}

/// The length of the `k`-th packet of a message of `len` bytes.
pub open spec fn packet_len(len: nat, k: nat) -> int {
    packet_bounds(len, k).1 - packet_bounds(len, k).0
}

/// A reader gets back what a writer sent: every packet of a message but the last is full, so
/// the reader keeps joining, and the last is shorter, so it stops there; the packets cover the
/// message in order, without gaps.
pub proof fn lemma_packets_read_back(len: nat)
    ensures
        forall|k: nat| k + 1 < packet_count(len) ==> #[trigger] packet_len(len, k) == PACKET_LEN,
        packet_len(len, (packet_count(len) - 1) as nat) < PACKET_LEN,
        packet_bounds(len, 0).0 == 0,
        packet_bounds(len, (packet_count(len) - 1) as nat).1 == len,
        forall|k: nat| k + 1 < packet_count(len) ==> #[trigger] packet_bounds(len, k).1 == packet_bounds(
            len,
            k + 1,
        ).0,
{
    let n = packet_count(len);
    assert forall|k: nat| k + 1 < packet_count(len) implies #[trigger] packet_len(len, k) == PACKET_LEN by {
        assert(k + 1 <= len / 64);
        assert((k + 1) * 64 <= (len / 64) * 64) by (nonlinear_arith)
            requires
                k + 1 <= len / 64,
        ;
        assert((len / 64) * 64 <= len) by (nonlinear_arith);
        assert(k * 64 + 64 == (k + 1) * 64) by (nonlinear_arith);
    }
    let last = (n - 1) as nat;
    assert(last == len / 64);
    assert(last * 64 <= len && len < last * 64 + 64) by (nonlinear_arith)
        requires
            last == len / 64,
    ;
    assert forall|k: nat| k + 1 < packet_count(len) implies #[trigger] packet_bounds(len, k).1 == packet_bounds(len, k + 1).0 by {
        assert((k + 1) * 64 <= (len / 64) * 64) by (nonlinear_arith)
            requires
                k + 1 <= len / 64,
        ;
        assert((len / 64) * 64 <= len) by (nonlinear_arith);
        assert(k * 64 + 64 == (k + 1) * 64) by (nonlinear_arith);
    }
}

/// The version of the protocol over USB, sent in the handshake.
pub const PROTOCOL_VERSION: u32 = 0;

/// The commands that come over USB, without what they carry.
#[derive(Debug, Clone, Copy, PartialEq, Eq, Structural)]
pub enum UsbCommandKind {
    /// Identify the device and the protocol version.
    Handshake,
    /// Send the stored configurations.
    GetConfig,
    /// Store and apply a modem configuration.
    ConfigureModem,
    /// Store and apply an MQTT configuration.
    ConfigureMqtt,
    /// Apply a device configuration.
    ConfigureDevice,
    /// Erase the flash.
    EraseFlash,
    /// Send the stored MiniCallHome logs.
    GetMiniCallHomeLogs,
    /// Send the stored logs of AT responses.
    GetLoggedAtResponseLogs,
}

/// The kinds of stored logs that can be listed over USB.
#[derive(Debug, Clone, Copy, PartialEq, Eq, Structural)]
pub enum LogKind {
    /// MiniCallHome logs, sent encoded in at most `MINI_CALL_HOME_LOG_LEN` bytes.
    MiniCallHome,
    /// Logs of AT responses, sent encoded in at most `AT_RESPONSE_LOG_LEN` bytes.
    AtResponse,
}

/// The most bytes of an encoded MiniCallHome log in a USB answer.
pub const MINI_CALL_HOME_LOG_LEN: usize = 54;

/// The most bytes of an encoded AT response log in a USB answer.
pub const AT_RESPONSE_LOG_LEN: usize = 384;

/// The most bytes that an encoded log of a kind may take in a USB answer.
pub open spec fn log_capacity(kind: LogKind) -> nat {
    match kind {
        LogKind::MiniCallHome => MINI_CALL_HOME_LOG_LEN as nat,
        LogKind::AtResponse => AT_RESPONSE_LOG_LEN as nat,
    }
}

/// What reading the next stored log gave.
#[derive(Debug, Clone, Copy, PartialEq, Eq, Structural)]
pub enum LogRead {
    /// A log, which encodes in this many bytes.
    Entry(usize),
    /// No log is left.
    Exhausted,
    /// Reading the flash failed with this error.
    Failed(Error),
}

/// What a listing does with what reading the next log gave.
#[derive(Debug, Clone, Copy, PartialEq, Eq, Structural)]
pub enum LogAction {
    /// Send the log and read on.
    Send,
    /// Leave the log out and read on.
    Skip,
    /// End the listing; the answer goes on with its next step.
    Finish,
    /// The answer fails with this error.
    Fail(Error),
}

/// A listing sends each log that fits its answer. It ends when the logs run out. A
/// MiniCallHome log that does not fit fails the answer, and so does a failed read, with its own
/// error; a listing of AT responses leaves out a log that does not fit and ends at a failed read
/// as it does after the last log.
pub open spec fn log_action_spec(kind: LogKind, read: LogRead) -> LogAction {
    match read {
        LogRead::Entry(n) => if n <= log_capacity(kind) {
            LogAction::Send
        } else if kind is AtResponse {
            LogAction::Skip
        } else {
            LogAction::Fail(Error::BufferTooSmallError)
        },
        LogRead::Exhausted => LogAction::Finish,
        LogRead::Failed(e) => if kind is AtResponse {
            LogAction::Finish
        } else {
            LogAction::Fail(e)
        },
    }
}

/// What a listing of logs of `kind` does with what reading the next log gave.
pub fn log_action(kind: LogKind, read: LogRead) -> (r: LogAction)
    ensures
        r == log_action_spec(kind, read),
{
    match read {
        LogRead::Entry(n) => {
            let capacity = match kind {
                LogKind::MiniCallHome => MINI_CALL_HOME_LOG_LEN,
                LogKind::AtResponse => AT_RESPONSE_LOG_LEN,
            };
            if n <= capacity {
                LogAction::Send
            } else {
                match kind {
                    LogKind::AtResponse => LogAction::Skip,
                    LogKind::MiniCallHome => LogAction::Fail(Error::BufferTooSmallError),
                }
            }
        },
        LogRead::Exhausted => LogAction::Finish,
        LogRead::Failed(e) => match kind {
            LogKind::AtResponse => LogAction::Finish,
            LogKind::MiniCallHome => LogAction::Fail(e),
        },
    }
}

/// How a listing of logs of `kind` ends after the reads `reads`: `Some(Ok(k))` once it has
/// finished, having sent `k` logs; `Some(Err(e))` once it has failed; `None` while it reads on.
pub open spec fn listing_outcome(kind: LogKind, reads: Seq<LogRead>) -> Option<Result<nat, Error>>
    decreases reads.len(),
{
    if reads.len() == 0 {
        None
    } else {
        match log_action_spec(kind, reads[0]) {
            LogAction::Finish => Some(Ok(0)),
            LogAction::Fail(e) => Some(Err(e)),
            LogAction::Skip => listing_outcome(kind, reads.drop_first()),
            LogAction::Send => match listing_outcome(kind, reads.drop_first()) {
                Some(Ok(k)) => Some(Ok(k + 1)),
                other => other,
            },
        }
    }
}

/// A listing of AT responses never fails: whatever the reads give, it either reads on or ends
/// with the answer going on to `Ok`, and it sends no more logs than it read.
pub proof fn lemma_at_listing_never_fails(reads: Seq<LogRead>)
    ensures
        listing_outcome(LogKind::AtResponse, reads) matches Some(Err(_)) ==> false,
        listing_outcome(LogKind::AtResponse, reads) matches Some(Ok(k)) ==> k <= reads.len(),
    decreases reads.len(),
{
    if reads.len() > 0 {
        lemma_at_listing_never_fails(reads.drop_first());
    }
}

/// A step of answering a USB command; the answer stops at the first step that fails.
#[derive(Debug, Clone, Copy, PartialEq, Eq, Structural)]
pub enum UsbStep {
    /// Send the handshake: `YAROC` and `PROTOCOL_VERSION`.
    Handshake,
    /// Read the stored configurations and send them.
    SendConfig,
    /// Store the configuration that came with the command.
    StoreConfig,
    /// Send `PartialOk` with the time in milliseconds that the next step may take.
    PartialOk(u32),
    /// Apply the configuration that came with the command.
    ApplyConfig,
    /// Erase the flash.
    EraseFlash,
    /// Until the listing ends: send `PartialOk` with this time, read the next log of this kind
    /// and do with it what `log_action` says.
    SendLogs(u32, LogKind),
    /// Send `Ok`: the command succeeded.
    Done,
}

/// The steps that answer a USB command. A slow step is announced by a `PartialOk` with the time
/// it may take: 155 s to configure the modem, 125 s to configure MQTT, 8 s to erase the flash,
/// and 3 s or 5 s per log.
pub open spec fn respond_plan_spec(command: UsbCommandKind) -> Seq<UsbStep> {
    match command {
        UsbCommandKind::Handshake => seq![UsbStep::Handshake],
        UsbCommandKind::GetConfig => seq![UsbStep::SendConfig],
        UsbCommandKind::ConfigureModem => seq![
            UsbStep::StoreConfig,
            UsbStep::PartialOk(155_000),
            UsbStep::ApplyConfig,
            UsbStep::Done,
        ],
        UsbCommandKind::ConfigureMqtt => seq![
            UsbStep::StoreConfig,
            UsbStep::PartialOk(125_000),
            UsbStep::ApplyConfig,
            UsbStep::Done,
        ],
        UsbCommandKind::ConfigureDevice => seq![UsbStep::ApplyConfig, UsbStep::Done],
        UsbCommandKind::EraseFlash => seq![UsbStep::PartialOk(8_000), UsbStep::EraseFlash, UsbStep::Done],
        UsbCommandKind::GetMiniCallHomeLogs => seq![
            UsbStep::SendLogs(3_000, LogKind::MiniCallHome),
            UsbStep::Done,
        ],
        UsbCommandKind::GetLoggedAtResponseLogs => seq![
            UsbStep::SendLogs(5_000, LogKind::AtResponse),
            UsbStep::Done,
        ],
    }
}

/// The steps that answer a USB command.
pub fn respond_plan(command: UsbCommandKind) -> (r: Vec<UsbStep>)
    ensures
        r@ == respond_plan_spec(command),
{
    match command {
        UsbCommandKind::Handshake => vec![UsbStep::Handshake],
        UsbCommandKind::GetConfig => vec![UsbStep::SendConfig],
        UsbCommandKind::ConfigureModem => vec![
            UsbStep::StoreConfig,
            UsbStep::PartialOk(155_000),
            UsbStep::ApplyConfig,
            UsbStep::Done,
        ],
        UsbCommandKind::ConfigureMqtt => vec![
            UsbStep::StoreConfig,
            UsbStep::PartialOk(125_000),
            UsbStep::ApplyConfig,
            UsbStep::Done,
        ],
        UsbCommandKind::ConfigureDevice => vec![UsbStep::ApplyConfig, UsbStep::Done],
        UsbCommandKind::EraseFlash => vec![UsbStep::PartialOk(8_000), UsbStep::EraseFlash, UsbStep::Done],
        UsbCommandKind::GetMiniCallHomeLogs => vec![
            UsbStep::SendLogs(3_000, LogKind::MiniCallHome),
            UsbStep::Done,
        ],
        UsbCommandKind::GetLoggedAtResponseLogs => vec![
            UsbStep::SendLogs(5_000, LogKind::AtResponse),
            UsbStep::Done,
        ],
    }
}

/// Every slow step of an answer is announced: a flash erase, and applying a modem or MQTT
/// configuration, directly follow a `PartialOk`.
pub proof fn lemma_slow_steps_announced(command: UsbCommandKind, i: int)
    requires
        0 <= i < respond_plan_spec(command).len(),
        respond_plan_spec(command)[i] is EraseFlash || (respond_plan_spec(command)[i] is ApplyConfig
            && (command is ConfigureModem || command is ConfigureMqtt)),
    ensures
        i >= 1 && respond_plan_spec(command)[i - 1] is PartialOk,
{
}

} // verus!
