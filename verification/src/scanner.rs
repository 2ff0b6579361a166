use std::io::Write;
use vstd::prelude::*;

verus! {

use crate::messages::{
    FileEntry,
    ControlCommand,
    ScanMessage,
    ScanTotals,
    ScanError,
    Event,
    is_progress_event,
    progress_events,
    is_cancel_ack,
    has_cancel_ack,
    no_progress_after_cancel,
    lemma_push_ack_keeps_quiet,
    lemma_push_before_cancel_keeps_quiet,
    lemma_progress_push,
    lemma_progress_status_suffix,
    lemma_prefix_trans,
    lemma_prefix_extend,
    lemma_prefix_cat,
    appends_no_done,
    lemma_appends_no_done_trans,
    is_pause_ack,
    is_unpause_ack,
    pause_pending,
    quiet_while_paused,
    lemma_pending_push_other,
    lemma_quiet_push_nonprogress,
    lemma_quiet_push_calm,
    models_of,
    CommandModel,
};
use crate::control::{
    CONTROL_QUEUE_CAPACITY,
    POLL_INTERVAL_MS,
    PAUSE_WAIT_BUDGET,
    RecvOutcome,
    command_channel,
    try_recv_command,
    recv_command_timeout,
    CtlState,
    apply_state,
    ack_events,
    apply_all_state,
    apply_all_events,
    lemma_apply_all_cancel_mono,
    lemma_acks_are_status,
};
use crate::encode::{encode_event, encode_message};
use crate::tree::{
    FsNode,
    NodeKind,
    is_dir_node,
    size_of,
    items_of,
    sum_sizes,
    sum_items,
    events_of,
    children_events,
    child_events,
    entry_model_of,
    lemma_children_step,
    lemma_children_all,
    lemma_sum_prefix_le,
};
use crate::util::{sat64, sat_add};
use crate::classify::detect_file_type;
use vstd::string::StringExecFns;

/// Relies on `std::io::Stdout`: writes one line to standard output. A failed
/// write is deliberately ignored — an unwritable sink must not kill a scan.
#[verifier::external_body]
fn print_line(s: &String) {
    let mut so = std::io::stdout();
    let _ = writeln!(so, "{}", s);
}

/// The traversal engine together with its control coordinator.
///
/// The scanner walks an observed directory tree depth-first, accumulates
/// totals, and appends one encoded line per event to `emitted` (the scan's
/// append-only event log), printing it with batched flushes. Control commands
/// arrive through the bounded channel and are observed only at checkpoints.
pub struct Scanner {
    /// Whether the scan is suspended.
    pub paused: bool,
    /// Whether the scan was cancelled; permanent once set.
    pub cancelled: bool,
    /// Where commands arrive, when the scan is controllable.
    pub control_rx: Option<crossbeam_channel::Receiver<ControlCommand>>,
    /// Every line emitted so far, in emission order.
    pub emitted: Vec<String>,
    /// How many of those lines have been written to the sink.
    pub printed: usize,
    /// How many entry lines may be buffered before a flush.
    pub flush_batch_size: usize,
    /// The emission history, as events.
    pub history: Ghost<Seq<Event>>,
}

impl Scanner {
    /// The scanner's invariant: the emitted lines are exactly the encodings
    /// of the event history, at most `printed` of them are still unflushed,
    /// no node event follows a cancellation acknowledgement, and a scanner
    /// without a channel is never paused.
    pub open spec fn wf(self) -> bool {
        &&& self.printed <= self.emitted@.len()
        &&& self.emitted@.len() == self.history@.len()
        &&& (forall|i: int|
            0 <= i < self.history@.len() ==> (#[trigger] self.emitted@[i])@ == encode_event(
                self.history@[i],
            ))
        &&& no_progress_after_cancel(self.history@)
        &&& (has_cancel_ack(self.history@) ==> self.cancelled)
        &&& (!self.cancelled && !self.paused ==> !pause_pending(self.history@))
        &&& quiet_while_paused(self.history@)
        &&& (self.control_rx is None ==> !self.paused)
        &&& self.flush_batch_size >= 1
    }

    /// The coordinator state of this scanner.
    pub open spec fn ctl(self) -> CtlState {
        CtlState { paused: self.paused, cancelled: self.cancelled }
    }

    /// Acknowledgement discipline of one step: whatever the step appended is
    /// already on the sink when it returns; a step that appended nothing
    /// leaves the sink exactly as it was.
    pub open spec fn acks_flushed(pre: Scanner, post: Scanner) -> bool {
        &&& (post.history@.len() > pre.history@.len() ==> post.printed == post.emitted@.len())
        &&& (post.history@.len() == pre.history@.len() ==> post.printed == pre.printed
            && post.emitted@ == pre.emitted@)
    }

    /// [`Scanner::acks_flushed`] composes along growing histories.
    pub proof fn lemma_acks_flushed_trans(a: Scanner, b: Scanner, c: Scanner)
        requires
            Scanner::acks_flushed(a, b),
            Scanner::acks_flushed(b, c),
            a.history@.len() <= b.history@.len() <= c.history@.len(),
        ensures
            Scanner::acks_flushed(a, c),
    {
    }

    /// Everything observable is as in `other` (the channel is compared only
    /// by presence).
    pub open spec fn untouched(self, other: Scanner) -> bool {
        &&& self.paused == other.paused
        &&& self.cancelled == other.cancelled
        &&& self.history@ == other.history@
        &&& self.emitted@ == other.emitted@
        &&& self.printed == other.printed
        &&& self.flush_batch_size == other.flush_batch_size
        &&& (self.control_rx is None <==> other.control_rx is None)
    }

    /// A fresh scanner without a control channel: running, nothing emitted.
    pub fn new() -> (s: Self)
        ensures
            s.wf(),
            !s.paused,
            !s.cancelled,
            s.control_rx is None,
            s.history@ == Seq::<Event>::empty(),
            s.emitted@ == Seq::<String>::empty(),
            s.printed == 0,
            s.flush_batch_size == 256,
    {
        Scanner {
            paused: false,
            cancelled: false,
            control_rx: None,
            emitted: Vec::new(),
            printed: 0,
            flush_batch_size: 256,
            history: Ghost(Seq::empty()),
        }
    }

    /// A fresh scanner wired to a bounded command channel, together with the
    /// sender half for the controlling side.
    pub fn with_control_channel() -> (r: (Self, crossbeam_channel::Sender<ControlCommand>))
        ensures
            r.0.wf(),
            !r.0.paused,
            !r.0.cancelled,
            r.0.control_rx is Some,
            r.0.history@ == Seq::<Event>::empty(),
            r.0.emitted@ == Seq::<String>::empty(),
            r.0.printed == 0,
            r.0.flush_batch_size == 256,
    {
        let (tx, rx) = command_channel(CONTROL_QUEUE_CAPACITY);
        let scanner = Scanner {
            paused: false,
            cancelled: false,
            control_rx: Some(rx),
            emitted: Vec::new(),
            printed: 0,
            flush_batch_size: 256,
            history: Ghost(Seq::empty()),
        };
        (scanner, tx)
    }

    /// Write every buffered line to the sink.
    fn flush(&mut self)
        requires
            old(self).wf(),
        ensures
            final(self).wf(),
            final(self).printed == final(self).emitted@.len(),
            final(self).paused == old(self).paused,
            final(self).cancelled == old(self).cancelled,
            final(self).history@ == old(self).history@,
            final(self).emitted@ == old(self).emitted@,
            final(self).flush_batch_size == old(self).flush_batch_size,
            (final(self).control_rx is None) == (old(self).control_rx is None),
    {
        while self.printed < self.emitted.len()
            invariant
                self.wf(),
                self.paused == old(self).paused,
                self.cancelled == old(self).cancelled,
                self.history@ == old(self).history@,
                self.emitted@ == old(self).emitted@,
                self.flush_batch_size == old(self).flush_batch_size,
                (self.control_rx is None) == (old(self).control_rx is None),
            decreases self.emitted@.len() - self.printed,
        {
            print_line(&self.emitted[self.printed]);
            self.printed = self.printed + 1;
        }
    }

    /// Encode one message, append it to the event log, and flush either
    /// immediately or once enough entry lines have gathered.
    fn write_message(&mut self, m: ScanMessage, force_flush: bool)
        requires
            old(self).wf(),
            m@ is Entry || m@ is Complete ==> !old(self).cancelled && !old(self).paused,
            is_cancel_ack(m@) ==> old(self).cancelled,
            is_pause_ack(m@) ==> old(self).paused || old(self).cancelled,
        ensures
            final(self).wf(),
            final(self).history@ == old(self).history@.push(m@),
            final(self).paused == old(self).paused,
            final(self).cancelled == old(self).cancelled,
            final(self).flush_batch_size == old(self).flush_batch_size,
            (final(self).control_rx is None) == (old(self).control_rx is None),
            final(self).emitted@.len() == old(self).emitted@.len() + 1,
            old(self).emitted@.is_prefix_of(final(self).emitted@),
            final(self).printed == (if force_flush || old(self).emitted@.len() + 1
                >= old(self).printed + old(self).flush_batch_size {
                final(self).emitted@.len()
            } else {
                old(self).printed as nat
            }),
            !(m@ is Done) ==> appends_no_done(old(self).history@, final(self).history@),
    {
        let line = encode_message(&m);
        self.emitted.push(line);
        proof {
            let h = self.history@;
            if m@ is Entry || m@ is Complete {
                assert(!has_cancel_ack(h));
                lemma_push_before_cancel_keeps_quiet(h, m@);
                lemma_quiet_push_calm(h, m@);
            } else {
                lemma_push_ack_keeps_quiet(h, m@);
                lemma_quiet_push_nonprogress(h, m@);
            }
            if is_pause_ack(m@) {
            } else if is_unpause_ack(m@) {
                assert(h.push(m@).last() == m@);
                assert(!pause_pending(h.push(m@)));
            } else {
                lemma_pending_push_other(h, m@);
            }
            if has_cancel_ack(h.push(m@)) {
                let i = choose|i: int| 0 <= i < h.push(m@).len() && is_cancel_ack(h.push(m@)[i]);
                if i < h.len() {
                    assert(is_cancel_ack(h[i]));
                    assert(has_cancel_ack(h));
                } else {
                    assert(h.push(m@)[i] == m@);
                }
            }
        }
        self.history = Ghost(self.history@.push(m@));
        assert(old(self).emitted@.is_prefix_of(self.emitted@)) by {
            assert(old(self).emitted@ =~= self.emitted@.subrange(0, old(self).emitted@.len() as int));
        }
        assert(old(self).history@.is_prefix_of(self.history@)) by {
            assert(old(self).history@ =~= self.history@.subrange(0, old(self).history@.len() as int));
        }
        if force_flush {
            self.flush();
        } else if self.emitted.len() - self.printed >= self.flush_batch_size {
            self.flush();
        }
    }

    /// Emit one message and flush at once.
    fn emit(&mut self, m: ScanMessage)
        requires
            old(self).wf(),
            m@ is Entry || m@ is Complete ==> !old(self).cancelled && !old(self).paused,
            is_cancel_ack(m@) ==> old(self).cancelled,
            is_pause_ack(m@) ==> old(self).paused || old(self).cancelled,
        ensures
            final(self).wf(),
            final(self).history@ == old(self).history@.push(m@),
            final(self).paused == old(self).paused,
            final(self).cancelled == old(self).cancelled,
            final(self).flush_batch_size == old(self).flush_batch_size,
            (final(self).control_rx is None) == (old(self).control_rx is None),
            old(self).emitted@.is_prefix_of(final(self).emitted@),
            final(self).printed == final(self).emitted@.len(),
            final(self).emitted@.len() == old(self).emitted@.len() + 1,
            !(m@ is Done) ==> appends_no_done(old(self).history@, final(self).history@),
    {
        self.write_message(m, true);
    }

    /// Emit one entry, buffered.
    fn emit_entry(&mut self, entry: FileEntry)
        requires
            old(self).wf(),
            !old(self).cancelled,
            !old(self).paused,
        ensures
            final(self).wf(),
            final(self).history@ == old(self).history@.push(Event::Entry(entry@)),
            final(self).paused == old(self).paused,
            final(self).cancelled == old(self).cancelled,
            final(self).flush_batch_size == old(self).flush_batch_size,
            (final(self).control_rx is None) == (old(self).control_rx is None),
            old(self).emitted@.is_prefix_of(final(self).emitted@),
            appends_no_done(old(self).history@, final(self).history@),
    {
        self.write_message(ScanMessage::Entry(entry), false);
    }

    /// Apply one command: toggle suspension, make cancellation permanent, or
    /// acknowledge a refresh request, emitting the corresponding status
    /// event. A cancelled coordinator ignores everything.
    pub fn apply_command(&mut self, cmd: &ControlCommand)
        requires
            old(self).wf(),
            old(self).control_rx is Some,
        ensures
            final(self).wf(),
            final(self).paused == apply_state(old(self).ctl(), cmd@).paused,
            final(self).cancelled == apply_state(old(self).ctl(), cmd@).cancelled,
            final(self).history@ == old(self).history@ + ack_events(old(self).ctl(), cmd@),
            (final(self).control_rx is None) == (old(self).control_rx is None),
            final(self).flush_batch_size == old(self).flush_batch_size,
            old(self).emitted@.is_prefix_of(final(self).emitted@),
            Scanner::acks_flushed(*old(self), *final(self)),
            appends_no_done(old(self).history@, final(self).history@),
    {
        if self.cancelled {
            proof {
                assert(self.history@ =~= self.history@ + Seq::<Event>::empty());
                assert(self.emitted@ =~= self.emitted@.subrange(0, self.emitted@.len() as int));
                assert(self.history@ =~= self.history@.subrange(0, self.history@.len() as int));
            }
            return ;
        }
        proof {
            reveal_strlit("paused");
            reveal_strlit("resumed");
            reveal_strlit("cancelled");
            reveal_strlit("refreshing:");
            assert("paused"@.len() == 6);
            assert("resumed"@.len() == 7);
            assert("refreshing:"@.len() == 11);
            assert("cancelled"@.len() == 9);
            assert("paused"@ != "cancelled"@);
            assert("resumed"@ != "cancelled"@);
            assert("resumed"@ != "paused"@);
        }
        match cmd {
            ControlCommand::Pause => {
                self.paused = true;
                self.emit(ScanMessage::Status { status: "paused".to_owned() });
            },
            ControlCommand::Resume => {
                self.emit(ScanMessage::Status { status: "resumed".to_owned() });
                self.paused = false;
                proof {
                    assert(self.history@.last() == (Event::Status { status: "resumed"@ }));
                    assert(!pause_pending(self.history@));
                }
            },
            ControlCommand::Cancel => {
                self.cancelled = true;
                self.emit(ScanMessage::Status { status: "cancelled".to_owned() });
            },
            ControlCommand::Refresh(p) => {
                let mut status = "refreshing:".to_owned();
                status.append(p.as_str());
                self.emit(ScanMessage::Status { status });
            },
        }
        proof {
            assert(final(self).history@ =~= old(self).history@ + ack_events(
                old(self).ctl(),
                cmd@,
            ));
        }
    }

    /// Apply a whole batch of commands, in the order received.
    pub fn apply_commands(&mut self, cmds: &Vec<ControlCommand>)
        requires
            old(self).wf(),
            old(self).control_rx is Some,
        ensures
            final(self).wf(),
            final(self).paused == apply_all_state(old(self).ctl(), models_of(cmds@)).paused,
            final(self).cancelled == apply_all_state(old(self).ctl(), models_of(cmds@)).cancelled,
            final(self).history@ == old(self).history@ + apply_all_events(
                old(self).ctl(),
                models_of(cmds@),
            ),
            (final(self).control_rx is None) == (old(self).control_rx is None),
            final(self).flush_batch_size == old(self).flush_batch_size,
            old(self).emitted@.is_prefix_of(final(self).emitted@),
            Scanner::acks_flushed(*old(self), *final(self)),
            appends_no_done(old(self).history@, final(self).history@),
    {
        let ghost ms = models_of(cmds@);
        let ghost st0 = old(self).ctl();
        proof {
            assert(ms.subrange(0, 0) =~= Seq::<CommandModel>::empty());
            assert(self.history@ =~= old(self).history@ + apply_all_events(
                st0,
                ms.subrange(0, 0),
            ));
            assert(self.emitted@ =~= self.emitted@.subrange(0, self.emitted@.len() as int));
            assert(self.history@ =~= self.history@.subrange(0, self.history@.len() as int));
        }
        let mut i: usize = 0;
        while i < cmds.len()
            invariant
                self.wf(),
                self.control_rx is Some,
                i <= cmds.len(),
                ms == models_of(cmds@),
                ms.len() == cmds@.len(),
                st0 == old(self).ctl(),
                self.paused == apply_all_state(st0, ms.subrange(0, i as int)).paused,
                self.cancelled == apply_all_state(st0, ms.subrange(0, i as int)).cancelled,
                self.history@ == old(self).history@ + apply_all_events(
                    st0,
                    ms.subrange(0, i as int),
                ),
                self.flush_batch_size == old(self).flush_batch_size,
                old(self).emitted@.is_prefix_of(self.emitted@),
                Scanner::acks_flushed(*old(self), *self),
                appends_no_done(old(self).history@, self.history@),
            decreases cmds.len() - i,
        {
            let ghost pre = self.emitted@;
            let ghost mid = *self;
            self.apply_command(&cmds[i]);
            proof {
                let p1 = ms.subrange(0, i + 1);
                assert(p1.drop_last() =~= ms.subrange(0, i as int));
                assert(p1.last() == ms[i as int]);
                assert(ms[i as int] == cmds@[i as int]@);
                assert(self.history@ =~= old(self).history@ + apply_all_events(
                    st0,
                    ms.subrange(0, i + 1),
                ));
                lemma_prefix_trans(old(self).emitted@, pre, self.emitted@);
                Scanner::lemma_acks_flushed_trans(*old(self), mid, *self);
                lemma_appends_no_done_trans(old(self).history@, mid.history@, self.history@);
            }
            i += 1;
        }
        proof {
            assert(ms.subrange(0, cmds@.len() as int) =~= ms);
        }
    }

    /// Drain pending commands without blocking — at most the channel's
    /// capacity per checkpoint — and apply them in order.
    pub fn process_commands(&mut self)
        requires
            old(self).wf(),
        ensures
            final(self).wf(),
            (final(self).control_rx is None) == (old(self).control_rx is None),
            progress_events(final(self).history@) == progress_events(old(self).history@),
            old(self).history@.is_prefix_of(final(self).history@),
            old(self).cancelled ==> final(self).cancelled,
            old(self).control_rx is None ==> final(self).untouched(*old(self)),
            final(self).flush_batch_size == old(self).flush_batch_size,
            old(self).emitted@.is_prefix_of(final(self).emitted@),
            Scanner::acks_flushed(*old(self), *final(self)),
            appends_no_done(old(self).history@, final(self).history@),
    {
        proof {
            assert(self.emitted@ =~= self.emitted@.subrange(0, self.emitted@.len() as int));
            assert(self.history@ =~= self.history@.subrange(0, self.history@.len() as int));
        }
        if self.control_rx.is_none() {
            return ;
        }
        let mut cmds: Vec<ControlCommand> = Vec::new();
        let mut k: usize = 0;
        let mut more = true;
        while more && k < CONTROL_QUEUE_CAPACITY
            invariant
                self.wf(),
                self.untouched(*old(self)),
                self.control_rx is Some,
            decreases CONTROL_QUEUE_CAPACITY - k,
        {
            let got = match &self.control_rx {
                Some(rx) => try_recv_command(rx),
                None => None,
            };
            match got {
                Some(c) => {
                    cmds.push(c);
                },
                None => {
                    more = false;
                },
            }
            k = k + 1;
        }
        let ghost st0 = self.ctl();
        let ghost h0 = self.history@;
        let ghost mid = *self;
        self.apply_commands(&cmds);
        proof {
            let ms = models_of(cmds@);
            let evs = apply_all_events(st0, ms);
            lemma_acks_are_status(st0, ms);
            assert(forall|j: int| 0 <= j < evs.len() ==> !is_progress_event(#[trigger] evs[j]));
            lemma_progress_status_suffix(h0, evs);
            lemma_prefix_extend(h0, evs);
            if old(self).cancelled {
                lemma_apply_all_cancel_mono(st0, ms);
            }
            Scanner::lemma_acks_flushed_trans(*old(self), mid, *self);
        }
    }

    /// End a pause that no controller will ever end — the command channel
    /// disconnected, or the wait budget ran out — announcing the forced
    /// transition with a `resumed` status event, so the wire shows every end
    /// of a pause.
    fn end_pause(&mut self)
        requires
            old(self).wf(),
            !old(self).cancelled,
        ensures
            final(self).wf(),
            !final(self).paused,
            final(self).cancelled == old(self).cancelled,
            final(self).history@ == old(self).history@.push(
                Event::Status { status: "resumed"@ },
            ),
            (final(self).control_rx is None) == (old(self).control_rx is None),
            final(self).flush_batch_size == old(self).flush_batch_size,
            old(self).emitted@.is_prefix_of(final(self).emitted@),
            old(self).history@.is_prefix_of(final(self).history@),
            progress_events(final(self).history@) == progress_events(old(self).history@),
            final(self).printed == final(self).emitted@.len(),
            Scanner::acks_flushed(*old(self), *final(self)),
            appends_no_done(old(self).history@, final(self).history@),
    {
        proof {
            reveal_strlit("paused");
            reveal_strlit("resumed");
            reveal_strlit("cancelled");
            assert("paused"@.len() == 6);
            assert("resumed"@.len() == 7);
            assert("cancelled"@.len() == 9);
            assert("resumed"@ != "cancelled"@);
            assert("resumed"@ != "paused"@);
        }
        let ghost h0 = self.history@;
        self.emit(ScanMessage::Status { status: "resumed".to_owned() });
        self.paused = false;
        proof {
            let ev = Event::Status { status: "resumed"@ };
            lemma_progress_push(h0, ev);
            assert(progress_events(h0) + Seq::<Event>::empty() =~= progress_events(h0));
            assert(h0.is_prefix_of(self.history@)) by {
                assert(h0 =~= self.history@.subrange(0, h0.len() as int));
            }
            assert(self.history@.last() == ev);
            assert(!pause_pending(self.history@));
        }
    }

    /// The checkpoint the traversal calls between units of work: observed
    /// cancellation stops the walk at once; otherwise pending commands are
    /// drained and applied, and while paused the scanner blocks for commands.
    /// A vanished controller or an exhausted wait budget ends the pause with
    /// a `resumed` acknowledgement. A true result means it is safe to
    /// proceed: not cancelled and not paused.
    pub fn check_control(&mut self) -> (cont: bool)
        requires
            old(self).wf(),
        ensures
            final(self).wf(),
            cont == !final(self).cancelled,
            cont ==> !final(self).paused,
            (final(self).control_rx is None) == (old(self).control_rx is None),
            progress_events(final(self).history@) == progress_events(old(self).history@),
            old(self).history@.is_prefix_of(final(self).history@),
            old(self).cancelled ==> final(self).untouched(*old(self)),
            old(self).cancelled ==> final(self).cancelled,
            old(self).control_rx is None ==> final(self).untouched(*old(self)),
            final(self).flush_batch_size == old(self).flush_batch_size,
            old(self).emitted@.is_prefix_of(final(self).emitted@),
            Scanner::acks_flushed(*old(self), *final(self)),
            appends_no_done(old(self).history@, final(self).history@),
    {
        proof {
            assert(self.emitted@ =~= self.emitted@.subrange(0, self.emitted@.len() as int));
            assert(self.history@ =~= self.history@.subrange(0, self.history@.len() as int));
        }
        if self.cancelled {
            return false;
        }
        self.process_commands();
        let mut budget: u64 = PAUSE_WAIT_BUDGET;
        while self.paused && !self.cancelled && budget > 0
            invariant
                self.wf(),
                old(self).control_rx is None ==> self.untouched(*old(self)),
                (self.control_rx is None) == (old(self).control_rx is None),
                progress_events(self.history@) == progress_events(old(self).history@),
                old(self).history@.is_prefix_of(self.history@),
                self.flush_batch_size == old(self).flush_batch_size,
                old(self).emitted@.is_prefix_of(self.emitted@),
                Scanner::acks_flushed(*old(self), *self),
                appends_no_done(old(self).history@, self.history@),
            decreases budget,
        {
            budget = budget - 1;
            let outcome = match &self.control_rx {
                Some(rx) => recv_command_timeout(rx, POLL_INTERVAL_MS),
                None => RecvOutcome::Disconnected,
            };
            let ghost mid = *self;
            match outcome {
                RecvOutcome::Command(c) => {
                    self.apply_command(&c);
                    proof {
                        let evs = ack_events(mid.ctl(), c@);
                        assert(forall|j: int|
                            0 <= j < evs.len() ==> !is_progress_event(#[trigger] evs[j]));
                        lemma_progress_status_suffix(mid.history@, evs);
                        lemma_prefix_extend(mid.history@, evs);
                        lemma_prefix_trans(old(self).history@, mid.history@, self.history@);
                        lemma_prefix_trans(old(self).emitted@, mid.emitted@, self.emitted@);
                        Scanner::lemma_acks_flushed_trans(*old(self), mid, *self);
                        lemma_appends_no_done_trans(old(self).history@, mid.history@, self.history@);
                    }
                },
                RecvOutcome::TimedOut => {},
                RecvOutcome::Disconnected => {
                    self.end_pause();
                    proof {
                        lemma_prefix_trans(old(self).history@, mid.history@, self.history@);
                        lemma_prefix_trans(old(self).emitted@, mid.emitted@, self.emitted@);
                        Scanner::lemma_acks_flushed_trans(*old(self), mid, *self);
                        lemma_appends_no_done_trans(old(self).history@, mid.history@, self.history@);
                    }
                },
            }
        }
        if self.cancelled {
            return false;
        }
        if self.paused {
            let ghost mid = *self;
            self.end_pause();
            proof {
                lemma_prefix_trans(old(self).history@, mid.history@, self.history@);
                lemma_prefix_trans(old(self).emitted@, mid.emitted@, self.emitted@);
                Scanner::lemma_acks_flushed_trans(*old(self), mid, *self);
                lemma_appends_no_done_trans(old(self).history@, mid.history@, self.history@);
            }
        }
        !self.cancelled
    }

    /// Walk one observed directory depth-first and return its `(total_size,
    /// total_items)`.
    ///
    /// Between units of work the scanner consults its checkpoint: an observed
    /// cancellation makes the walk return the totals accumulated so far and
    /// suppresses any further entry or completion event. An unreadable
    /// directory is reported (when emitting) and contributes nothing; an
    /// entry without metadata is reported and skipped. With `emit_entries`
    /// false the walk is a pure totals computation and reports nothing.
    pub fn scan_directory(&mut self, node: &FsNode, emit_entries: bool) -> (r: (u64, u64))
        requires
            old(self).wf(),
            is_dir_node(*node),
        ensures
            final(self).wf(),
            (final(self).control_rx is None) == (old(self).control_rx is None),
            final(self).flush_batch_size == old(self).flush_batch_size,
            old(self).history@.is_prefix_of(final(self).history@),
            old(self).emitted@.is_prefix_of(final(self).emitted@),
            old(self).cancelled ==> final(self).untouched(*old(self)) && r.0 == 0 && r.1 == 0,
            old(self).cancelled ==> final(self).cancelled,
            r.0 <= sat64(size_of(*node)),
            r.1 <= sat64(items_of(*node)),
            !final(self).cancelled ==> r.0 == sat64(size_of(*node)) && r.1 == sat64(
                items_of(*node),
            ),
            !final(self).cancelled ==> progress_events(final(self).history@) == progress_events(
                old(self).history@,
            ) + (if emit_entries {
                events_of(*node)
            } else {
                Seq::<Event>::empty()
            }),
            old(self).control_rx is None ==> final(self).paused == old(self).paused
                && final(self).cancelled == old(self).cancelled,
            old(self).control_rx is None && !emit_entries
                ==> final(self).history@ == old(self).history@,
            !emit_entries ==> progress_events(final(self).history@) == progress_events(
                old(self).history@,
            ),
            emit_entries ==> (exists|p: Seq<Event>|
                #![auto]
                p.is_prefix_of(events_of(*node)) && progress_events(final(self).history@)
                    == progress_events(old(self).history@) + p),
            appends_no_done(old(self).history@, final(self).history@),
            !final(self).cancelled ==> !final(self).paused,
        decreases *node,
    {
        if !self.check_control() {
            proof {
                if emit_entries {
                    let pw = Seq::<Event>::empty();
                    assert(pw.is_prefix_of(events_of(*node))) by {
                        assert(pw =~= events_of(*node).subrange(0, 0));
                    }
                    assert(progress_events(self.history@) =~= progress_events(old(self).history@)
                        + pw);
                }
            }
            return (0, 0);
        }
        match &node.kind {
            NodeKind::DirUnreadable(m) => {
                if emit_entries {
                    let ghost h1 = self.history@;
                    self.emit_error(&node.path, m);
                    proof {
                        lemma_progress_push(h1, Event::Trouble { path: node.path@, message: m@ });
                        assert(progress_events(self.history@) =~= progress_events(
                            old(self).history@,
                        ) + events_of(*node));
                        lemma_prefix_trans(old(self).history@, h1, self.history@);
                        lemma_prefix_extend(h1, seq![
                            Event::Trouble { path: node.path@, message: m@ },
                        ]);
                        assert(h1.push(Event::Trouble { path: node.path@, message: m@ }) =~= h1
                            + seq![Event::Trouble { path: node.path@, message: m@ }]);
                        lemma_appends_no_done_trans(old(self).history@, h1, self.history@);
                        let pw = events_of(*node);
                        assert(pw.is_prefix_of(events_of(*node))) by {
                            assert(pw =~= events_of(*node).subrange(0, pw.len() as int));
                        }
                    }
                }
                (0, 0)
            },
            NodeKind::DirListed(children) => {
                let ghost cs = children@;
                let mut total_size: u64 = 0;
                let mut total_items: u64 = 0;
                let mut i: usize = 0;
                proof {
                    assert(cs.subrange(0, 0) =~= Seq::<FsNode>::empty());
                }
                while i < children.len()
                    invariant
                        self.wf(),
                        i <= children.len(),
                        cs == children@,
                        node.kind matches NodeKind::DirListed(chs) && chs@ == cs,
                        !old(self).cancelled,
                        (self.control_rx is None) == (old(self).control_rx is None),
                        self.flush_batch_size == old(self).flush_batch_size,
                        old(self).history@.is_prefix_of(self.history@),
                        old(self).emitted@.is_prefix_of(self.emitted@),
                        total_size <= sat64(sum_sizes(cs.subrange(0, i as int))),
                        total_items <= sat64(sum_items(cs.subrange(0, i as int))),
                        !self.cancelled ==> total_size == sat64(
                            sum_sizes(cs.subrange(0, i as int)),
                        ) && total_items == sat64(sum_items(cs.subrange(0, i as int))),
                        !self.cancelled ==> progress_events(self.history@) == progress_events(
                            old(self).history@,
                        ) + (if emit_entries {
                            children_events(cs.subrange(0, i as int))
                        } else {
                            Seq::<Event>::empty()
                        }),
                        old(self).control_rx is None ==> self.paused == old(self).paused
                            && self.cancelled == old(self).cancelled,
                        old(self).control_rx is None && !emit_entries ==> self.history@ == old(
                            self,
                        ).history@,
                        !emit_entries ==> progress_events(self.history@) == progress_events(
                            old(self).history@,
                        ),
                        (emit_entries && self.cancelled) ==> (exists|p: Seq<Event>|
                            #![auto]
                            p.is_prefix_of(children_events(cs)) && progress_events(self.history@)
                                == progress_events(old(self).history@) + p),
                        appends_no_done(old(self).history@, self.history@),
                        !self.cancelled ==> !self.paused,
                    decreases children.len() - i,
                {
                    let ghost head = *self;
                    if !self.check_control() {
                        proof {
                            lemma_sum_prefix_le(cs, i as int);
                            crate::util::lemma_sat_mono(sum_sizes(cs.subrange(0, i as int)), sum_sizes(cs));
                            crate::util::lemma_sat_mono(sum_items(cs.subrange(0, i as int)), sum_items(cs));
                            lemma_appends_no_done_trans(old(self).history@, head.history@, self.history@);
                            if emit_entries {
                                let pbase: Seq<Event> = if head.cancelled {
                                    choose|p: Seq<Event>|
                                        #![auto]
                                        p.is_prefix_of(children_events(cs)) && progress_events(
                                            head.history@,
                                        ) == progress_events(old(self).history@) + p
                                } else {
                                    children_events(cs.subrange(0, i as int))
                                };
                                if !head.cancelled {
                                    crate::tree::lemma_children_events_prefix(cs, i as int);
                                }
                                assert(pbase.is_prefix_of(children_events(cs)));
                                assert(progress_events(self.history@) == progress_events(
                                    old(self).history@,
                                ) + pbase);
                                let tail = seq![
                                    Event::Complete {
                                        path: node.path@,
                                        total_size: sat64(size_of(*node)),
                                    },
                                ];
                                assert(events_of(*node) == children_events(cs) + tail);
                                lemma_prefix_extend(children_events(cs), tail);
                                lemma_prefix_trans(pbase, children_events(cs), events_of(*node));
                            }
                        }
                        return (total_size, total_items);
                    }
                    proof {
                        lemma_appends_no_done_trans(old(self).history@, head.history@, self.history@);
                    }
                    let c = &children[i];
                    let ghost h_i = self.history@;
                    let ghost sz_c = size_of(*c);
                    let ghost it_c = items_of(*c);
                    match &c.kind {
                        NodeKind::MetaUnavailable(msg) => {
                            if emit_entries {
                                self.emit_error(&c.path, msg);
                                proof {
                                    lemma_progress_push(
                                        h_i,
                                        Event::Trouble { path: c.path@, message: msg@ },
                                    );
                                    lemma_prefix_extend(h_i, seq![
                                        Event::Trouble { path: c.path@, message: msg@ },
                                    ]);
                                    assert(h_i.push(Event::Trouble { path: c.path@, message: msg@ })
                                        =~= h_i + seq![
                                        Event::Trouble { path: c.path@, message: msg@ },
                                    ]);
                                    lemma_prefix_trans(old(self).history@, h_i, self.history@);
                                    lemma_appends_no_done_trans(old(self).history@, h_i, self.history@);
                                }
                            }
                            proof {
                                lemma_children_step(cs, i as int);
                                assert(child_events(cs[i as int]) =~= seq![
                                    Event::Trouble { path: c.path@, message: msg@ },
                                ]);
                                if !self.cancelled && emit_entries {
                                    assert(progress_events(self.history@) =~= progress_events(
                                        old(self).history@,
                                    ) + children_events(cs.subrange(0, i + 1)));
                                }
                            }
                        },
                        _ => {
                            let is_sub = match &c.kind {
                                NodeKind::DirListed(_) => true,
                                NodeKind::DirUnreadable(_) => true,
                                _ => false,
                            };
                            let ghost pre = *self;
                            let (sz, cnt) = if is_sub {
                                proof {
                                    assert(decreases_to!(*node => *c));
                                }
                                self.scan_directory(c, emit_entries)
                            } else {
                                (c.size, 1)
                            };
                            proof {
                                assert(sz as nat <= sat64(sz_c));
                                assert(cnt as nat <= sat64(it_c));
                                lemma_prefix_trans(old(self).history@, pre.history@, self.history@);
                                lemma_prefix_trans(old(self).emitted@, pre.emitted@, self.emitted@);
                                lemma_appends_no_done_trans(
                                    old(self).history@,
                                    pre.history@,
                                    self.history@,
                                );
                                if emit_entries && self.cancelled {
                                    assert(is_sub);
                                    let p_c = choose|p: Seq<Event>|
                                        #![auto]
                                        p.is_prefix_of(events_of(*c)) && progress_events(
                                            self.history@,
                                        ) == progress_events(pre.history@) + p;
                                    let entry_tail = seq![Event::Entry(entry_model_of(*c))];
                                    assert(child_events(cs[i as int]) == events_of(*c)
                                        + entry_tail);
                                    lemma_prefix_extend(events_of(*c), entry_tail);
                                    lemma_prefix_trans(
                                        p_c,
                                        events_of(*c),
                                        child_events(cs[i as int]),
                                    );
                                    lemma_children_step(cs, i as int);
                                    lemma_prefix_cat(
                                        children_events(cs.subrange(0, i as int)),
                                        p_c,
                                        child_events(cs[i as int]),
                                    );
                                    crate::tree::lemma_children_events_prefix(cs, i + 1);
                                    lemma_prefix_trans(
                                        children_events(cs.subrange(0, i as int)) + p_c,
                                        children_events(cs.subrange(0, i + 1)),
                                        children_events(cs),
                                    );
                                    let pw = children_events(cs.subrange(0, i as int)) + p_c;
                                    assert(progress_events(self.history@) =~= progress_events(
                                        old(self).history@,
                                    ) + pw);
                                }
                            }
                            if emit_entries && !self.cancelled {
                                let entry = FileEntry {
                                    path: c.path.clone(),
                                    name: c.name.clone(),
                                    size: sz,
                                    is_dir: is_sub,
                                    is_symlink: match &c.kind {
                                        NodeKind::Symlink => true,
                                        _ => false,
                                    },
                                    modified: c.modified,
                                    item_count: cnt,
                                    file_type: detect_file_type(c.name.as_str()),
                                };
                                proof {
                                    assert(entry@ == entry_model_of(*c));
                                }
                                let ghost h_e = self.history@;
                                self.emit_entry(entry);
                                proof {
                                    lemma_progress_push(h_e, Event::Entry(entry_model_of(*c)));
                                    lemma_prefix_extend(h_e, seq![Event::Entry(entry_model_of(*c))]);
                                    assert(h_e.push(Event::Entry(entry_model_of(*c))) =~= h_e
                                        + seq![Event::Entry(entry_model_of(*c))]);
                                    lemma_prefix_trans(old(self).history@, h_e, self.history@);
                                    lemma_appends_no_done_trans(old(self).history@, h_e, self.history@);
                                }
                            }
                            let ghost t0 = total_size;
                            let ghost n0 = total_items;
                            total_size = sat_add(total_size, sz);
                            total_items = sat_add(total_items, cnt);
                            proof {
                                lemma_children_step(cs, i as int);
                                crate::util::lemma_sat_add_le(
                                    t0,
                                    sz,
                                    sum_sizes(cs.subrange(0, i as int)),
                                    sz_c,
                                );
                                crate::util::lemma_sat_add_le(
                                    n0,
                                    cnt,
                                    sum_items(cs.subrange(0, i as int)),
                                    it_c,
                                );
                                if !self.cancelled {
                                    crate::util::lemma_sat_add_fold(
                                        sum_sizes(cs.subrange(0, i as int)),
                                        sz_c,
                                    );
                                    crate::util::lemma_sat_add_fold(
                                        sum_items(cs.subrange(0, i as int)),
                                        it_c,
                                    );
                                    if emit_entries {
                                        assert(child_events(cs[i as int]) == (if is_sub {
                                            events_of(*c) + seq![Event::Entry(entry_model_of(*c))]
                                        } else {
                                            seq![Event::Entry(entry_model_of(*c))]
                                        }));
                                        assert(progress_events(self.history@) =~= progress_events(
                                            old(self).history@,
                                        ) + children_events(cs.subrange(0, i + 1)));
                                    }
                                }
                            }
                        },
                    }
                    proof {
                        lemma_children_step(cs, i as int);
                    }
                    i += 1;
                }
                proof {
                    lemma_children_all(cs);
                    assert(cs.subrange(0, cs.len() as int) =~= cs);
                }
                if emit_entries && !self.cancelled {
                    let ghost h_c = self.history@;
                    let done = ScanMessage::FolderComplete {
                        path: node.path.clone(),
                        total_size,
                    };
                    self.emit(done);
                    proof {
                        let ev = Event::Complete { path: node.path@, total_size };
                        lemma_progress_push(h_c, ev);
                        lemma_prefix_extend(h_c, seq![ev]);
                        assert(h_c.push(ev) =~= h_c + seq![ev]);
                        lemma_prefix_trans(old(self).history@, h_c, self.history@);
                        lemma_appends_no_done_trans(old(self).history@, h_c, self.history@);
                        assert(progress_events(self.history@) =~= progress_events(
                            old(self).history@,
                        ) + events_of(*node));
                        let pw = events_of(*node);
                        assert(pw.is_prefix_of(events_of(*node))) by {
                            assert(pw =~= events_of(*node).subrange(0, pw.len() as int));
                        }
                    }
                } else {
                    proof {
                        if emit_entries {
                            let pbase = choose|p: Seq<Event>|
                                #![auto]
                                p.is_prefix_of(children_events(cs)) && progress_events(
                                    self.history@,
                                ) == progress_events(old(self).history@) + p;
                            let tail = seq![
                                Event::Complete {
                                    path: node.path@,
                                    total_size: sat64(size_of(*node)),
                                },
                            ];
                            assert(events_of(*node) == children_events(cs) + tail);
                            lemma_prefix_extend(children_events(cs), tail);
                            lemma_prefix_trans(pbase, children_events(cs), events_of(*node));
                        }
                    }
                }
                (total_size, total_items)
            },
            _ => {
                proof {
                    assert(false);
                }
                (0, 0)
            },
        }
    }

    /// Scan a whole observed tree and stream every event.
    ///
    /// `root` is what the host observed at `root_path`: `None` when the path
    /// does not exist, in which case exactly one error event referencing that
    /// path is emitted and nothing is traversed (no terminal event either).
    /// Otherwise the tree is walked with full emission and the terminal
    /// `done` event — emitted exactly once, even after cancellation — carries
    /// the accumulated totals.
    pub fn scan(&mut self, root_path: &str, root: Option<&FsNode>)
        requires
            old(self).wf(),
            root matches Some(n) ==> is_dir_node(*n),
        ensures
            final(self).wf(),
            old(self).history@.is_prefix_of(final(self).history@),
            root is None ==> final(self).history@ == old(self).history@.push(
                Event::Trouble { path: root_path@, message: "Path does not exist"@ },
            ),
            root is None ==> final(self).paused == old(self).paused && final(self).cancelled
                == old(self).cancelled,
            root matches Some(n) ==> (!final(self).cancelled ==> progress_events(
                final(self).history@,
            ) == progress_events(old(self).history@) + events_of(*n) + seq![
                Event::Done {
                    total_size: sat64(size_of(*n)),
                    total_items: sat64(items_of(*n)),
                },
            ]),
            root matches Some(n) ==> final(self).history@.len() > 0
                && (final(self).history@.last() matches Event::Done { total_size, total_items }
                && total_size <= sat64(size_of(*n)) && total_items <= sat64(items_of(*n))),
            root matches Some(n) ==> (exists|p: Seq<Event>|
                #![auto]
                p.is_prefix_of(events_of(*n)) && progress_events(final(self).history@)
                    == progress_events(old(self).history@) + p + seq![
                    final(self).history@.last(),
                ]),
            root is Some ==> (forall|k: int|
                old(self).history@.len() <= k < final(self).history@.len() - 1
                    ==> !((#[trigger] final(self).history@[k]) is Done)),
            final(self).printed == final(self).emitted@.len(),
    {
        match root {
            None => {
                self.emit(
                    ScanMessage::Error {
                        path: root_path.to_owned(),
                        message: "Path does not exist".to_owned(),
                    },
                );
                proof {
                    assert(old(self).history@ =~= self.history@.subrange(
                        0,
                        old(self).history@.len() as int,
                    ));
                }
            },
            Some(n) => {
                let (total_size, total_items) = self.scan_directory(n, true);
                let ghost h2 = self.history@;
                self.emit(ScanMessage::Done { total_size, total_items });
                proof {
                    let ev = Event::Done { total_size, total_items };
                    lemma_progress_push(h2, ev);
                    lemma_prefix_extend(h2, seq![ev]);
                    assert(h2.push(ev) =~= h2 + seq![ev]);
                    lemma_prefix_trans(old(self).history@, h2, self.history@);
                    if !self.cancelled {
                        assert(progress_events(self.history@) =~= progress_events(
                            old(self).history@,
                        ) + events_of(*n) + seq![ev]);
                    }
                    let pw = choose|p: Seq<Event>|
                        #![auto]
                        p.is_prefix_of(events_of(*n)) && progress_events(h2) == progress_events(
                            old(self).history@,
                        ) + p;
                    assert(progress_events(self.history@) =~= progress_events(old(self).history@)
                        + pw + seq![self.history@.last()]);
                }
            },
        }
    }

    /// Emit a non-fatal failure tied to one path.
    fn emit_error(&mut self, path: &String, message: &String)
        requires
            old(self).wf(),
        ensures
            final(self).wf(),
            final(self).history@ == old(self).history@.push(
                Event::Trouble { path: path@, message: message@ },
            ),
            final(self).paused == old(self).paused,
            final(self).cancelled == old(self).cancelled,
            final(self).flush_batch_size == old(self).flush_batch_size,
            (final(self).control_rx is None) == (old(self).control_rx is None),
            old(self).emitted@.is_prefix_of(final(self).emitted@),
            final(self).printed == final(self).emitted@.len(),
            appends_no_done(old(self).history@, final(self).history@),
    {
        self.emit(ScanMessage::Error { path: path.clone(), message: message.clone() });
    }
}

impl Default for Scanner {
    /// Same as [`Scanner::new`].
    fn default() -> (s: Self)
        ensures
            s.wf(),
            !s.paused,
            !s.cancelled,
            s.control_rx is None,
            s.history@ == Seq::<Event>::empty(),
            s.emitted@ == Seq::<String>::empty(),
            s.printed == 0,
            s.flush_batch_size == 256,
    {
        Scanner::new()
    }
}

/// Cancellation silences the traversal: in every history a well-formed
/// scanner can hold, no entry or completion event follows the status event
/// that acknowledged `cancel`. The terminal event may still follow, carrying
/// only the work completed before the cancellation.
pub proof fn lemma_no_progress_after_cancel_ack(s: Scanner)
    requires
        s.wf(),
    ensures
        no_progress_after_cancel(s.history@),
{
}

/// A pause silences the traversal: in every history a well-formed scanner can
/// hold, no entry or completion event stands between a `paused`
/// acknowledgement and the `resumed` or `cancelled` acknowledgement that ends
/// it — while suspended, the traversal makes no progress.
pub proof fn lemma_quiet_while_paused(s: Scanner)
    requires
        s.wf(),
    ensures
        quiet_while_paused(s.history@),
{
}

/// The totals of one observed subtree, computed without emitting anything:
/// exactly the saturated sums that [`size_of`] and [`items_of`] state.
/// `root` is `None` when the path does not exist, which is the one error.
pub fn compute_directory_totals(root: Option<&FsNode>) -> (r: Result<ScanTotals, ScanError>)
    requires
        root matches Some(n) ==> is_dir_node(*n),
    ensures
        (root is None) <==> (r is Err),
        r matches Err(e) ==> e == ScanError::PathNotFound,
        root matches Some(n) ==> r matches Ok(t) && t.total_size == sat64(size_of(*n))
            && t.total_items == sat64(items_of(*n)),
{
    match root {
        None => Err(ScanError::PathNotFound),
        Some(n) => {
            let mut scanner = Scanner::new();
            let (total_size, total_items) = scanner.scan_directory(n, false);
            Ok(ScanTotals { total_size, total_items })
        },
    }
}

} // verus!
