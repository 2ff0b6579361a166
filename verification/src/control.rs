use vstd::prelude::*;

verus! {

use crate::messages::{ControlCommand, CommandModel, Event};

/// Capacity of the bounded command channel: a producer that outruns the scan
/// by more than this many commands blocks until a checkpoint drains some.
pub const CONTROL_QUEUE_CAPACITY: usize = 16;

/// How long one paused checkpoint waits for a command before polling again,
/// in milliseconds.
pub const POLL_INTERVAL_MS: u64 = 50;

/// How many waits one paused checkpoint performs before it gives up the
/// pause: large enough that a live controller can never exhaust it, while
/// keeping every loop in the engine provably finite.
pub const PAUSE_WAIT_BUDGET: u64 = u64::MAX;

#[verifier::external_type_specification]
#[verifier::external_body]
#[verifier::reject_recursive_types(T)]
pub struct ExSender<T>(crossbeam_channel::Sender<T>);

#[verifier::external_type_specification]
#[verifier::external_body]
#[verifier::reject_recursive_types(T)]
pub struct ExReceiver<T>(crossbeam_channel::Receiver<T>);

/// What one bounded wait for a command produced.
pub enum RecvOutcome {
    /// A command arrived.
    Command(ControlCommand),
    /// Nothing arrived within the interval.
    TimedOut,
    /// Every sender is gone; nothing can arrive any more.
    Disconnected,
}

/// Relies on `crossbeam_channel::bounded`: a channel pair whose queue holds at
/// most `cap` pending commands. Nothing about the pair itself is assumed. The
/// bound on `cap` keeps the capacity arithmetic inside `bounded` from
/// overflowing on any platform, where it would panic; the scanner only ever
/// passes [`CONTROL_QUEUE_CAPACITY`].
#[verifier::external_body]
pub(crate) fn command_channel(cap: usize) -> (r: (
    crossbeam_channel::Sender<ControlCommand>,
    crossbeam_channel::Receiver<ControlCommand>,
))
    requires
        cap <= 0x4000_0000,
{
    crossbeam_channel::bounded(cap)
}

/// Relies on `crossbeam_channel::Receiver::try_recv`: returns a pending
/// command without blocking, or nothing when the queue is empty or every
/// sender is gone. Which command arrives depends on the other thread, so
/// nothing is assumed about the result.
#[verifier::external_body]
pub(crate) fn try_recv_command(rx: &crossbeam_channel::Receiver<ControlCommand>) -> (r: Option<
    ControlCommand,
>) {
    match rx.try_recv() {
        Ok(c) => Some(c),
        Err(crossbeam_channel::TryRecvError::Empty) => None,
        Err(crossbeam_channel::TryRecvError::Disconnected) => None,
    }
}

/// Relies on `crossbeam_channel::Receiver::recv_timeout`: blocks until a
/// command arrives, at most `millis` milliseconds, and reports a
/// disconnected channel as such. Nothing is assumed about which outcome
/// occurs.
#[verifier::external_body]
pub(crate) fn recv_command_timeout(
    rx: &crossbeam_channel::Receiver<ControlCommand>,
    millis: u64,
) -> (r: RecvOutcome) {
    match rx.recv_timeout(std::time::Duration::from_millis(millis)) {
        Ok(c) => RecvOutcome::Command(c),
        Err(crossbeam_channel::RecvTimeoutError::Timeout) => RecvOutcome::TimedOut,
        Err(crossbeam_channel::RecvTimeoutError::Disconnected) => RecvOutcome::Disconnected,
    }
}

/// The run state a scan's coordinator is in; `cancelled` is terminal.
pub struct CtlState {
    pub paused: bool,
    pub cancelled: bool,
}

/// The state after one command: pausing and resuming toggle suspension,
/// cancelling is permanent, a refresh request changes nothing, and a
/// cancelled coordinator ignores everything.
pub open spec fn apply_state(st: CtlState, c: CommandModel) -> CtlState {
    if st.cancelled {
        st
    } else {
        match c {
            CommandModel::Pause => CtlState { paused: true, ..st },
            CommandModel::Resume => CtlState { paused: false, ..st },
            CommandModel::Cancel => CtlState { cancelled: true, ..st },
            CommandModel::Refresh(_) => st,
        }
    }
}

/// The acknowledgement one command earns: each applied command is acknowledged
/// with a status event; a cancelled coordinator acknowledges nothing.
pub open spec fn ack_events(st: CtlState, c: CommandModel) -> Seq<Event> {
    if st.cancelled {
        Seq::empty()
    } else {
        match c {
            CommandModel::Pause => seq![Event::Status { status: "paused"@ }],
            CommandModel::Resume => seq![Event::Status { status: "resumed"@ }],
            CommandModel::Cancel => seq![Event::Status { status: "cancelled"@ }],
            CommandModel::Refresh(p) => seq![Event::Status { status: "refreshing:"@ + p }],
        }
    }
}

/// The state after a whole batch of commands, applied in order.
pub open spec fn apply_all_state(st: CtlState, cs: Seq<CommandModel>) -> CtlState
    decreases cs.len(),
{
    if cs.len() == 0 {
        st
    } else {
        apply_state(apply_all_state(st, cs.drop_last()), cs.last())
    }
}

/// The acknowledgements a whole batch of commands earns, in order.
pub open spec fn apply_all_events(st: CtlState, cs: Seq<CommandModel>) -> Seq<Event>
    decreases cs.len(),
{
    if cs.len() == 0 {
        Seq::empty()
    } else {
        apply_all_events(st, cs.drop_last()) + ack_events(
            apply_all_state(st, cs.drop_last()),
            cs.last(),
        )
    }
}

/// Cancellation is permanent under any batch of commands.
pub proof fn lemma_apply_all_cancel_mono(st: CtlState, cs: Seq<CommandModel>)
    requires
        st.cancelled,
    ensures
        apply_all_state(st, cs).cancelled,
    decreases cs.len(),
{
    if cs.len() > 0 {
        lemma_apply_all_cancel_mono(st, cs.drop_last());
    }
}

/// Every acknowledgement is a status event.
pub proof fn lemma_acks_are_status(st: CtlState, cs: Seq<CommandModel>)
    ensures
        forall|k: int|
            0 <= k < apply_all_events(st, cs).len() ==> (#[trigger] apply_all_events(st, cs)[k]) is Status,
    decreases cs.len(),
{
    if cs.len() > 0 {
        lemma_acks_are_status(st, cs.drop_last());
    }
}

} // verus!
