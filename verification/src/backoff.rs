//! Sending punches with exponential backoff: the message slots, the waiting times, and the
//! decisions of the retry loop.
//!
//! Durations and instants are milliseconds.
use vstd::prelude::*;

use crate::mqtt::{MqttStatus, StatusCode};

verus! {

/// The largest number of punches waiting to be sent, plus one.
pub const PUNCH_QUEUE_SIZE: usize = 100;

/// The factor by which the backoff grows after a failed attempt.
pub const BACKOFF_MULTIPLIER: u64 = 2;

/// A punch to be sent, with the time to wait before its next attempt.
#[derive(Debug, Clone, Copy, PartialEq, Eq)]
pub struct PunchMsg {
    /// The punch record.
    pub punch: [u8; 20],
    /// The time to wait before the next attempt.
    pub backoff: u64,
    /// The ID of the punch.
    pub id: u16,
    /// The ID of the MQTT message, which is also the slot of the punch.
    pub msg_id: u16,
}

impl Default for PunchMsg {
    fn default() -> (r: PunchMsg)
        ensures
            r.punch@ == Seq::new(20, |i: int| 0u8),
            r.backoff == 1000,
            r.id == 0,
            r.msg_id == 0,
    {
        let r = PunchMsg { punch: [0u8; 20], backoff: 1000, id: 0, msg_id: 0 };
        assert(r.punch@ =~= Seq::new(20, |i: int| 0u8));
        r
    }
}

impl PunchMsg {
    /// A punch message with an initial backoff.
    pub fn new(punch: [u8; 20], id: u16, msg_id: u16, initial_backoff: u64) -> (r: PunchMsg)
        ensures
            r == (PunchMsg { punch, backoff: initial_backoff, id, msg_id }),
    {
        PunchMsg { punch, id, msg_id, backoff: initial_backoff }
    }

    /// When the next attempt is due, for an attempt that failed at `now`.
    pub fn next_send(&self, now: u64) -> (r: u64)
        requires
            now + self.backoff <= u64::MAX,
        ensures
            r == now + self.backoff,
    {
        now + self.backoff
    }

    /// Doubles the backoff.
    pub fn update_backoff(&mut self)
        requires
            old(self).backoff * BACKOFF_MULTIPLIER <= u64::MAX,
        ensures
            *final(self) == (PunchMsg { backoff: (old(self).backoff * BACKOFF_MULTIPLIER) as u64, ..*old(self) }),
    {
        self.backoff = self.backoff * BACKOFF_MULTIPLIER;
    }

    /// Halves the backoff.
    pub fn halve_backoff(&mut self)
        ensures
            *final(self) == (PunchMsg { backoff: old(self).backoff / 2, ..*old(self) }),
    {
        self.backoff = self.backoff / 2;
    }
}

/// A command to the backoff loop.
#[derive(Debug, Clone, Copy, PartialEq, Eq)]
pub enum BackoffCommand {
    /// Publish this punch, with this punch ID.
    PublishPunch([u8; 20], u16),
    /// The punch with this ID was published as the message with this ID.
    PunchPublished(u16, u16),
    MqttDisconnected,
    MqttConnected,
    /// The modem reported the status of a message.
    Status(MqttStatus),
}

/// An MQTT connection event, as the senders of punches see it.
#[derive(Debug, Clone, Copy, PartialEq, Eq, Structural)]
pub enum MqttEvent {
    Connect,
    Disconnect,
}

/// What the backoff loop does for a command.
#[derive(Debug, Clone, Copy, PartialEq, Eq)]
pub enum BackoffAction {
    /// Start sending this message with retries.
    Spawn(PunchMsg),
    /// No slot is free; the punch is dropped.
    QueueFull,
    /// Pass the status code on to the sender of the message in this slot.
    Signal(u16, StatusCode),
    /// Tell every sender of this MQTT event.
    Broadcast(MqttEvent),
    /// Nothing more to do.
    Nothing,
}

/// The slots of the messages being sent: `true` marks a slot in use. Slot 0 is never used, as
/// message ID 0 is for QoS 0 messages.
#[derive(Debug, Clone, PartialEq, Eq)]
pub struct BackoffRetries {
    unpublished_msgs: Vec<bool>,
    initial_backoff: u64,
    send_punch_timeout: u64,
}

impl BackoffRetries {
    /// The slots: `true` for a slot in use.
    pub closed spec fn slots(&self) -> Seq<bool> {
        self.unpublished_msgs@
    }

    /// The backoff of a new message.
    pub closed spec fn initial_backoff_spec(&self) -> u64 {
        self.initial_backoff
    }

    /// The time after which a sender gives up waiting for a status.
    pub closed spec fn send_punch_timeout_spec(&self) -> u64 {
        self.send_punch_timeout
    }

    /// Slots for `capacity` messages, all free.
    pub fn new(initial_backoff: u64, send_punch_timeout: u64, capacity: usize) -> (r: BackoffRetries)
        requires
            capacity + 1 <= PUNCH_QUEUE_SIZE,
        ensures
            r.slots() == Seq::new((capacity + 1) as nat, |i: int| false),
            r.initial_backoff_spec() == initial_backoff,
            r.send_punch_timeout_spec() == send_punch_timeout,
    {
        let mut unpublished_msgs: Vec<bool> = Vec::new();
        let mut i: usize = 0;
        while i < capacity + 1
            invariant
                capacity + 1 <= PUNCH_QUEUE_SIZE,
                i <= capacity + 1,
                unpublished_msgs@ == Seq::new(i as nat, |j: int| false),
            decreases capacity + 1 - i,
        {
            unpublished_msgs.push(false);
            i = i + 1;
            assert(unpublished_msgs@ =~= Seq::new(i as nat, |j: int| false));
        }
        BackoffRetries { unpublished_msgs, initial_backoff, send_punch_timeout }
    }

    /// The time after which a sender gives up waiting for a status.
    pub fn send_punch_timeout(&self) -> (r: u64)
        ensures
            r == self.send_punch_timeout_spec(),
    {
        self.send_punch_timeout
    }

    /// The last free slot.
    pub fn vacant_idx(&self) -> (r: Option<usize>)
        ensures
            match r {
                Some(i) => i < self.slots().len() && !self.slots()[i as int] && forall|j: int|
                    i < j < self.slots().len() ==> self.slots()[j],
                None => forall|j: int| 0 <= j < self.slots().len() ==> self.slots()[j],
            },
    {
        let mut i: usize = self.unpublished_msgs.len();
        while i > 0
            invariant
                i <= self.unpublished_msgs@.len(),
                forall|j: int| i <= j < self.unpublished_msgs@.len() ==> self.unpublished_msgs@[j],
            decreases i,
        {
            if !self.unpublished_msgs[i - 1] {
                return Some(i - 1);
            }
            i = i - 1;
        }
        None
    }

    /// Frees the slot `idx`, after its message was published.
    pub fn delete_msg(&mut self, idx: u16)
        requires
            idx < old(self).slots().len(),
        ensures
            final(self).slots() == old(self).slots().update(idx as int, false),
            final(self).initial_backoff_spec() == old(self).initial_backoff_spec(),
            final(self).send_punch_timeout_spec() == old(self).send_punch_timeout_spec(),
    {
        self.unpublished_msgs.set(idx as usize, false);
    }

    /// Takes a slot for a punch to be published: the last free one, unless that is slot 0.
    /// Returns the message to send, or `None` when the queue is full.
    pub fn handle_publish_request(&mut self, punch: [u8; 20], punch_id: u16) -> (r: Option<PunchMsg>)
        requires
            old(self).slots().len() <= PUNCH_QUEUE_SIZE,
        ensures
            final(self).initial_backoff_spec() == old(self).initial_backoff_spec(),
            final(self).send_punch_timeout_spec() == old(self).send_punch_timeout_spec(),
            match r {
                Some(m) => {
                    &&& 0 < m.msg_id < old(self).slots().len()
                    &&& !old(self).slots()[m.msg_id as int]
                    &&& forall|j: int| m.msg_id < j < old(self).slots().len() ==> old(self).slots()[j]
                    &&& final(self).slots() == old(self).slots().update(m.msg_id as int, true)
                    &&& m == PunchMsg::new_spec(punch, punch_id, m.msg_id, old(self).initial_backoff_spec())
                },
                None => {
                    &&& final(self).slots() == old(self).slots()
                    &&& forall|j: int| 0 < j < old(self).slots().len() ==> old(self).slots()[j]
                },
            },
    {
        match self.vacant_idx() {
            Some(msg_id) => {
                if msg_id > 0 {
                    let msg = PunchMsg::new(punch, punch_id, msg_id as u16, self.initial_backoff);
                    self.unpublished_msgs.set(msg_id, true);
                    Some(msg)
                } else {
                    None
                }
            },
            None => None,
        }
    }

    /// What the backoff loop does for a command.
    pub fn handle_command(&mut self, cmd: BackoffCommand) -> (a: BackoffAction)
        requires
            old(self).slots().len() <= PUNCH_QUEUE_SIZE,
            cmd matches BackoffCommand::Status(s) ==> s.msg_id < PUNCH_QUEUE_SIZE,
            cmd matches BackoffCommand::PunchPublished(_, m) ==> m < old(self).slots().len(),
        ensures
            final(self).initial_backoff_spec() == old(self).initial_backoff_spec(),
            final(self).send_punch_timeout_spec() == old(self).send_punch_timeout_spec(),
            match cmd {
                BackoffCommand::PublishPunch(_, _) => a is Spawn || a is QueueFull,
                BackoffCommand::Status(s) => a == BackoffAction::Signal(s.msg_id, s.code)
                    && final(self).slots() == old(self).slots(),
                BackoffCommand::MqttDisconnected => a == BackoffAction::Broadcast(MqttEvent::Disconnect)
                    && final(self).slots() == old(self).slots(),
                BackoffCommand::MqttConnected => a == BackoffAction::Broadcast(MqttEvent::Connect)
                    && final(self).slots() == old(self).slots(),
                BackoffCommand::PunchPublished(_, m) => a == BackoffAction::Nothing
                    && final(self).slots() == old(self).slots().update(m as int, false),
            },
            a matches BackoffAction::Spawn(msg) ==> cmd matches BackoffCommand::PublishPunch(p, id)
                && 0 < msg.msg_id < old(self).slots().len() && !old(self).slots()[msg.msg_id as int]
                && (forall|j: int| msg.msg_id < j < old(self).slots().len() ==> old(self).slots()[j])
                && spawn_slot(old(self).slots()) == Some(msg.msg_id as int)
                && final(self).slots() == old(self).slots().update(msg.msg_id as int, true)
                && msg == PunchMsg::new_spec(p, id, msg.msg_id, old(self).initial_backoff_spec()),
            a is QueueFull ==> final(self).slots() == old(self).slots() && spawn_slot(old(self).slots())
                is None && forall|j: int| 0 < j < old(self).slots().len() ==> old(self).slots()[j],
            final(self).slots() == slots_after(old(self).slots(), cmd),
    {
        proof {
            lemma_spawn_slot(old(self).slots());
        }
        match cmd {
            BackoffCommand::PublishPunch(punch, punch_id) => {
                match self.handle_publish_request(punch, punch_id) {
                    Some(msg) => BackoffAction::Spawn(msg),
                    None => BackoffAction::QueueFull,
                }
            },
            BackoffCommand::Status(status) => BackoffAction::Signal(status.msg_id, status.code),
            BackoffCommand::MqttDisconnected => BackoffAction::Broadcast(MqttEvent::Disconnect),
            BackoffCommand::MqttConnected => BackoffAction::Broadcast(MqttEvent::Connect),
            BackoffCommand::PunchPublished(_, msg_id) => {
                self.delete_msg(msg_id);
                BackoffAction::Nothing
            },
        }
    }
}

impl PunchMsg {
    /// The message that `new` makes.
    pub open spec fn new_spec(punch: [u8; 20], id: u16, msg_id: u16, initial_backoff: u64) -> PunchMsg {
        PunchMsg { punch, backoff: initial_backoff, id, msg_id }
    }
}

/// What a sender learns while waiting for the outcome of an attempt.
#[derive(Debug, Clone, Copy, PartialEq, Eq, Structural)]
pub enum SendEvent {
    /// The modem reported a status for the message.
    Status(StatusCode),
    /// An MQTT connection event.
    Mqtt(MqttEvent),
}

/// Whether an attempt is over after `event`: `Some(true)` when the message was published,
/// `Some(false)` when the attempt failed (timeout, MQTT error, disconnection), `None` when the
/// sender keeps waiting (a connection, a retry by the modem, an unknown status).
pub fn attempt_outcome(event: SendEvent) -> (r: Option<bool>)
    ensures
        r == match event {
            SendEvent::Status(StatusCode::Published) => Some(true),
            SendEvent::Status(StatusCode::Timeout) => Some(false),
            SendEvent::Status(StatusCode::MqttError) => Some(false),
            SendEvent::Mqtt(MqttEvent::Disconnect) => Some(false),
            _ => None::<bool>,
        },
{
    match event {
        SendEvent::Status(StatusCode::Published) => Some(true),
        SendEvent::Status(StatusCode::Timeout) | SendEvent::Status(StatusCode::MqttError)
        | SendEvent::Mqtt(MqttEvent::Disconnect) => Some(false),
        SendEvent::Mqtt(MqttEvent::Connect) => None,
        SendEvent::Status(StatusCode::Retrying(_)) => None,
        SendEvent::Status(StatusCode::Unknown) => None,
    }
}

/// What ends a backoff wait.
#[derive(Debug, Clone, Copy, PartialEq, Eq, Structural)]
pub enum WaitEvent {
    /// The backoff time passed.
    TimerFired,
    /// An MQTT connection event.
    Mqtt(MqttEvent),
}

/// Handles what happened during a backoff wait; returns whether the wait is over.
///
/// When the time passed, the backoff doubles; after an MQTT connection it halves, so that the
/// message is tried again soon; a disconnection does not end the wait.
pub fn backoff_step(msg: &mut PunchMsg, event: WaitEvent) -> (done: bool)
    requires
        event is TimerFired ==> old(msg).backoff * BACKOFF_MULTIPLIER <= u64::MAX,
    ensures
        match event {
            WaitEvent::TimerFired => done && *final(msg) == (PunchMsg {
                backoff: (old(msg).backoff * BACKOFF_MULTIPLIER) as u64,
                ..*old(msg)
            }),
            WaitEvent::Mqtt(MqttEvent::Connect) => done && *final(msg) == (PunchMsg {
                backoff: old(msg).backoff / 2,
                ..*old(msg)
            }),
            WaitEvent::Mqtt(MqttEvent::Disconnect) => !done && *final(msg) == *old(msg),
        },
{
    match event {
        WaitEvent::TimerFired => {
            msg.update_backoff();
            true
        },
        WaitEvent::Mqtt(MqttEvent::Connect) => {
            msg.halve_backoff();
            true
        },
        WaitEvent::Mqtt(MqttEvent::Disconnect) => false,
    }
}

/// The outcome of one attempt to send a punch, as the sender sees it.
#[derive(Debug, Clone, Copy, PartialEq, Eq, Structural)]
pub enum AttemptResult {
    /// The message was published.
    Published,
    /// No status came in time.
    TimedOut,
    /// The attempt failed.
    Failed,
}

/// What a sender does after an attempt.
#[derive(Debug, Clone, Copy, PartialEq, Eq, Structural)]
pub enum RetryAction {
    /// Report the punch as published and stop.
    ReportPublished,
    /// Try again at once.
    RetryNow,
    /// Wait for the backoff, then try again.
    WaitAndRetry,
}

/// After an attempt: report a publication, retry at once after a timeout, or back off after a
/// failure.
pub fn retry_decision(result: AttemptResult) -> (r: RetryAction)
    ensures
        r == match result {
            AttemptResult::Published => RetryAction::ReportPublished,
            AttemptResult::TimedOut => RetryAction::RetryNow,
            AttemptResult::Failed => RetryAction::WaitAndRetry,
        },
{
    match result {
        AttemptResult::Published => RetryAction::ReportPublished,
        AttemptResult::TimedOut => RetryAction::RetryNow,
        AttemptResult::Failed => RetryAction::WaitAndRetry,
    }
}

/// The slot that a new punch takes: the last free slot but slot 0, if there is one.
pub open spec fn spawn_slot(slots: Seq<bool>) -> Option<int> {
    free_slot_below(slots, slots.len() as int)
}

/// The last free slot in `1..n`.
pub open spec fn free_slot_below(slots: Seq<bool>, n: int) -> Option<int>
    decreases n,
{
    if n <= 1 {
        None
    } else if !slots[n - 1] {
        Some(n - 1)
    } else {
        free_slot_below(slots, n - 1)
    }
}

proof fn lemma_free_slot_below(slots: Seq<bool>, n: int)
    requires
        n <= slots.len(),
    ensures
        match free_slot_below(slots, n) {
            Some(k) => 0 < k < n && !slots[k] && forall|j: int| k < j < n ==> slots[j],
            None => forall|j: int| 0 < j < n ==> slots[j],
        },
    decreases n,
{
    if n > 1 && slots[n - 1] {
        lemma_free_slot_below(slots, n - 1);
    }
}

/// `spawn_slot` is the last free slot but slot 0, and there is none exactly when every slot but
/// slot 0 is taken.
pub proof fn lemma_spawn_slot(slots: Seq<bool>)
    ensures
        match spawn_slot(slots) {
            Some(k) => 0 < k < slots.len() && !slots[k] && forall|j: int|
                k < j < slots.len() ==> slots[j],
            None => forall|j: int| 0 < j < slots.len() ==> slots[j],
        },
{
    lemma_free_slot_below(slots, slots.len() as int);
}

/// The slots after the backoff loop handled `cmd`: a punch takes the last free slot but slot 0
/// (or none, when all are taken), a published punch frees its slot, and the other commands
/// leave the slots as they were.
pub open spec fn slots_after(slots: Seq<bool>, cmd: BackoffCommand) -> Seq<bool> {
    match cmd {
        BackoffCommand::PublishPunch(_, _) => match spawn_slot(slots) {
            Some(k) => slots.update(k, true),
            None => slots,
        },
        BackoffCommand::PunchPublished(_, m) => if m < slots.len() {
            slots.update(m as int, false)
        } else {
            slots
        },
        _ => slots,
    }
}

/// The slots after the commands `cmds`, from `capacity` free slots (and slot 0).
pub open spec fn slots_run(capacity: nat, cmds: Seq<BackoffCommand>) -> Seq<bool>
    decreases cmds.len(),
{
    if cmds.len() == 0 {
        Seq::new(capacity + 1, |i: int| false)
    } else {
        slots_after(slots_run(capacity, cmds.drop_last()), cmds.last())
    }
}

/// The message IDs of the punches taken by the commands `cmds` and not yet reported published.
pub open spec fn outstanding(capacity: nat, cmds: Seq<BackoffCommand>) -> Set<int>
    decreases cmds.len(),
{
    if cmds.len() == 0 {
        Set::empty()
    } else {
        let before = outstanding(capacity, cmds.drop_last());
        match cmds.last() {
            BackoffCommand::PublishPunch(_, _) => match spawn_slot(
                slots_run(capacity, cmds.drop_last()),
            ) {
                Some(k) => before.insert(k),
                None => before,
            },
            BackoffCommand::PunchPublished(_, m) => before.remove(m as int),
            _ => before,
        }
    }
}

/// Over any sequence of commands, from the slots that `new` makes: the slots keep their number,
/// slot 0 is never taken, the slots taken are exactly the IDs of the punches outstanding, which
/// lie in `1..=capacity`, and a new punch takes an ID that no outstanding punch has.
pub proof fn lemma_slots_track_outstanding(capacity: nat, cmds: Seq<BackoffCommand>)
    ensures
        slots_run(capacity, cmds).len() == capacity + 1,
        !slots_run(capacity, cmds)[0],
        forall|j: int|
            0 <= j < slots_run(capacity, cmds).len() ==> (#[trigger] slots_run(capacity, cmds)[j]
                <==> outstanding(capacity, cmds).contains(j)),
        forall|k: int| #[trigger] outstanding(capacity, cmds).contains(k) ==> 1 <= k <= capacity,
        spawn_slot(slots_run(capacity, cmds)) matches Some(k) ==> 1 <= k <= capacity
            && !outstanding(capacity, cmds).contains(k),
    decreases cmds.len(),
{
    let s = slots_run(capacity, cmds);
    if cmds.len() > 0 {
        lemma_slots_track_outstanding(capacity, cmds.drop_last());
        lemma_spawn_slot(slots_run(capacity, cmds.drop_last()));
    }
    lemma_spawn_slot(s);
}

/// A punch keeps its slot until it is reported published: an ID outstanding after the first
/// `i` commands is still outstanding after all of them, when no later command reports it.
pub proof fn lemma_kept_until_published(
    capacity: nat,
    cmds: Seq<BackoffCommand>,
    i: int,
    k: int,
)
    requires
        0 <= i <= cmds.len(),
        outstanding(capacity, cmds.subrange(0, i)).contains(k),
        forall|j: int|
            i <= j < cmds.len() ==> !(#[trigger] cmds[j] matches BackoffCommand::PunchPublished(
                _,
                m,
            ) && m == k),
    ensures
        outstanding(capacity, cmds).contains(k),
    decreases cmds.len() - i,
{
    if i < cmds.len() {
        let next = cmds.subrange(0, i + 1);
        assert(next.drop_last() =~= cmds.subrange(0, i));
        assert(next.last() == cmds[i]);
        lemma_kept_until_published(capacity, cmds, i + 1, k);
    } else {
        assert(cmds.subrange(0, i) =~= cmds);
    }
}

/// A slot taken for a punch is freed when the punch is reported published, and the other slots
/// are left as they were.
pub proof fn lemma_publish_then_delete(slots: Seq<bool>, m: int)
    requires
        0 < m < slots.len(),
        !slots[m],
    ensures
        slots.update(m, true).update(m, false) == slots,
{
    assert(slots.update(m, true).update(m, false) =~= slots);
}

} // verus!
