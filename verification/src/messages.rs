use vstd::prelude::*;

verus! {

/// One filesystem node observed during traversal, as it appears on the wire.
///
/// For directories, `size` is the cumulative size of the recursively scanned
/// contents and `item_count` the number of descendant entries scanned; for
/// everything else `size` is the node's own byte length and `item_count` is 1.
#[derive(Debug, Clone)]
pub struct FileEntry {
    pub path: String,
    pub name: String,
    pub size: u64,
    pub is_dir: bool,
    pub is_symlink: bool,
    pub modified: Option<u64>,
    pub item_count: u64,
    pub file_type: String,
}

/// An out-of-band command for a running scan.
#[derive(Debug, Clone)]
pub enum ControlCommand {
    Pause,
    Resume,
    Cancel,
    /// Asks an outer driver to rescan the given path; acknowledged but not
    /// acted on by the traversal itself.
    Refresh(String),
}

/// The wire-level unit of progress for one scan invocation.
#[derive(Debug, Clone)]
pub enum ScanMessage {
    Entry(FileEntry),
    /// Emitted once a directory's children are fully processed.
    FolderComplete { path: String, total_size: u64 },
    /// A non-fatal failure tied to one path.
    Error { path: String, message: String },
    /// A control acknowledgement.
    Status { status: String },
    /// Terminal event of a scan, emitted exactly once.
    Done { total_size: u64, total_items: u64 },
}

/// Aggregate result for a subtree.
#[derive(Debug, Clone, Copy)]
pub struct ScanTotals {
    pub total_size: u64,
    pub total_items: u64,
}

/// Why a totals-only computation could not run.
#[derive(Debug, Clone, Copy, PartialEq, Eq, Structural)]
pub enum ScanError {
    /// The root path does not exist.
    PathNotFound,
}

/// The mathematical image of a [`FileEntry`].
pub struct EntryModel {
    pub path: Seq<char>,
    pub name: Seq<char>,
    pub size: u64,
    pub is_dir: bool,
    pub is_symlink: bool,
    pub modified: Option<u64>,
    pub item_count: u64,
    pub file_type: Seq<char>,
}

/// The mathematical image of a [`ScanMessage`].
pub enum Event {
    Entry(EntryModel),
    Complete { path: Seq<char>, total_size: u64 },
    Trouble { path: Seq<char>, message: Seq<char> },
    Status { status: Seq<char> },
    Done { total_size: u64, total_items: u64 },
}

/// The mathematical image of a [`ControlCommand`].
pub enum CommandModel {
    Pause,
    Resume,
    Cancel,
    Refresh(Seq<char>),
}

impl View for FileEntry {
    type V = EntryModel;

    open spec fn view(&self) -> EntryModel {
        EntryModel {
            path: self.path@,
            name: self.name@,
            size: self.size,
            is_dir: self.is_dir,
            is_symlink: self.is_symlink,
            modified: self.modified,
            item_count: self.item_count,
            file_type: self.file_type@,
        }
    }
}

impl View for ScanMessage {
    type V = Event;

    open spec fn view(&self) -> Event {
        match self {
            ScanMessage::Entry(e) => Event::Entry(e@),
            ScanMessage::FolderComplete { path, total_size } => Event::Complete {
                path: path@,
                total_size: *total_size,
            },
            ScanMessage::Error { path, message } => Event::Trouble {
                path: path@,
                message: message@,
            },
            ScanMessage::Status { status } => Event::Status { status: status@ },
            ScanMessage::Done { total_size, total_items } => Event::Done {
                total_size: *total_size,
                total_items: *total_items,
            },
        }
    }
}

impl View for ControlCommand {
    type V = CommandModel;

    open spec fn view(&self) -> CommandModel {
        match self {
            ControlCommand::Pause => CommandModel::Pause,
            ControlCommand::Resume => CommandModel::Resume,
            ControlCommand::Cancel => CommandModel::Cancel,
            ControlCommand::Refresh(p) => CommandModel::Refresh(p@),
        }
    }
}

/// Events that belong to the traversal itself, as opposed to control
/// acknowledgements.
pub open spec fn is_progress_event(e: Event) -> bool {
    !(e is Status)
}

/// The traversal's own events within an emission history, in order.
pub open spec fn progress_events(h: Seq<Event>) -> Seq<Event> {
    h.filter(|e: Event| is_progress_event(e))
}

/// The acknowledgement that a cancellation was observed.
pub open spec fn is_cancel_ack(e: Event) -> bool {
    e matches Event::Status { status } && status == "cancelled"@
}

/// Whether a history contains a cancellation acknowledgement.
pub open spec fn has_cancel_ack(h: Seq<Event>) -> bool {
    exists|i: int| 0 <= i < h.len() && is_cancel_ack(h[i])
}

/// No `Entry` or `FolderComplete` event may follow a cancellation
/// acknowledgement: once a checkpoint observes `cancel`, the traversal stops
/// reporting nodes.
pub open spec fn no_progress_after_cancel(h: Seq<Event>) -> bool {
    forall|i: int, j: int|
        0 <= i < j < h.len() && is_cancel_ack(#[trigger] h[i]) ==> !((#[trigger] h[j]) is Entry
            || h[j] is Complete)
}

/// Appending a non-`Entry`, non-`Complete` event preserves
/// [`no_progress_after_cancel`].
pub proof fn lemma_push_ack_keeps_quiet(h: Seq<Event>, e: Event)
    requires
        no_progress_after_cancel(h),
        !(e is Entry),
        !(e is Complete),
    ensures
        no_progress_after_cancel(h.push(e)),
{
    assert forall|i: int, j: int|
        0 <= i < j < h.push(e).len() && is_cancel_ack(#[trigger] h.push(e)[i]) implies !((#[trigger] h.push(
        e,
    )[j]) is Entry || h.push(e)[j] is Complete) by {
        if j < h.len() {
            assert(h.push(e)[i] == h[i]);
            assert(h.push(e)[j] == h[j]);
        } else {
            assert(h.push(e)[j] == e);
        }
    }
}

/// Appending any event to a history without a cancellation acknowledgement
/// preserves [`no_progress_after_cancel`], provided the new event is not
/// itself followed by anything.
pub proof fn lemma_push_before_cancel_keeps_quiet(h: Seq<Event>, e: Event)
    requires
        no_progress_after_cancel(h),
        !has_cancel_ack(h),
        !is_cancel_ack(e),
    ensures
        no_progress_after_cancel(h.push(e)),
        !has_cancel_ack(h.push(e)),
{
    assert forall|i: int, j: int|
        0 <= i < j < h.push(e).len() && is_cancel_ack(#[trigger] h.push(e)[i]) implies !((#[trigger] h.push(
        e,
    )[j]) is Entry || h.push(e)[j] is Complete) by {
        assert(h.push(e)[i] == if i < h.len() {
            h[i]
        } else {
            e
        });
        assert(!is_cancel_ack(h.push(e)[i]));
    }
    assert forall|i: int| 0 <= i < h.push(e).len() implies !is_cancel_ack(#[trigger] h.push(e)[i]) by {
        if i < h.len() {
            assert(h.push(e)[i] == h[i]);
        } else {
            assert(h.push(e)[i] == e);
        }
    }
}

/// The acknowledgement that a pause began.
pub open spec fn is_pause_ack(e: Event) -> bool {
    e matches Event::Status { status } && status == "paused"@
}

/// An acknowledgement that ends a pause: a resume, or the terminal
/// cancellation.
pub open spec fn is_unpause_ack(e: Event) -> bool {
    e matches Event::Status { status } && (status == "resumed"@ || status == "cancelled"@)
}

/// Whether a history ends inside a pause: its last pause or unpause
/// acknowledgement, if any, began one.
pub open spec fn pause_pending(h: Seq<Event>) -> bool
    decreases h.len(),
{
    if h.len() == 0 {
        false
    } else if is_pause_ack(h.last()) {
        true
    } else if is_unpause_ack(h.last()) {
        false
    } else {
        pause_pending(h.drop_last())
    }
}

/// While a pause is pending — a `paused` acknowledgement with no `resumed` or
/// `cancelled` acknowledgement after it — no entry or completion event
/// appears: a paused traversal makes no progress.
pub open spec fn quiet_while_paused(h: Seq<Event>) -> bool {
    forall|i: int, j: int|
        (0 <= i < j < h.len() && is_pause_ack(#[trigger] h[i]) && (forall|k: int|
            i < k < j ==> !is_unpause_ack(#[trigger] h[k]))) ==> !((#[trigger] h[j]) is Entry
            || h[j] is Complete)
}

/// Pushing an event that is no pause or unpause acknowledgement does not
/// change whether a pause is pending.
pub proof fn lemma_pending_push_other(h: Seq<Event>, e: Event)
    requires
        !is_pause_ack(e),
        !is_unpause_ack(e),
    ensures
        pause_pending(h.push(e)) == pause_pending(h),
{
    assert(h.push(e).drop_last() =~= h);
    assert(h.push(e).last() == e);
}

/// A pause acknowledgement that no later acknowledgement ended leaves the
/// pause pending.
pub proof fn lemma_dangling_pause_is_pending(h: Seq<Event>, i: int)
    requires
        0 <= i < h.len(),
        is_pause_ack(h[i]),
        forall|k: int| i < k < h.len() ==> !is_unpause_ack(#[trigger] h[k]),
    ensures
        pause_pending(h),
    decreases h.len(),
{
    if i == h.len() - 1 {
    } else {
        assert(!is_unpause_ack(h.last()));
        if !is_pause_ack(h.last()) {
            assert(forall|k: int|
                i < k < h.drop_last().len() ==> !is_unpause_ack(#[trigger] h.drop_last()[k]));
            lemma_dangling_pause_is_pending(h.drop_last(), i);
        }
    }
}

/// Appending anything but an entry or completion keeps a history quiet.
pub proof fn lemma_quiet_push_nonprogress(h: Seq<Event>, e: Event)
    requires
        quiet_while_paused(h),
        !(e is Entry),
        !(e is Complete),
    ensures
        quiet_while_paused(h.push(e)),
{
    let h2 = h.push(e);
    assert forall|i: int, j: int|
        (0 <= i < j < h2.len() && is_pause_ack(#[trigger] h2[i]) && (forall|k: int|
            i < k < j ==> !is_unpause_ack(#[trigger] h2[k]))) implies !((#[trigger] h2[j]) is Entry
        || h2[j] is Complete) by {
        if j < h.len() {
            assert(h2[i] == h[i]);
            assert(forall|k: int| i < k < j ==> !is_unpause_ack(#[trigger] h[k])) by {
                assert(forall|k: int| i < k < j ==> h[k] == h2[k]);
            }
            assert(!((h[j]) is Entry || h[j] is Complete));
            assert(h2[j] == h[j]);
        } else {
            assert(h2[j] == e);
        }
    }
}

/// When no pause is pending, anything may be appended and the history stays
/// quiet.
pub proof fn lemma_quiet_push_calm(h: Seq<Event>, e: Event)
    requires
        quiet_while_paused(h),
        !pause_pending(h),
    ensures
        quiet_while_paused(h.push(e)),
{
    let h2 = h.push(e);
    assert forall|i: int, j: int|
        (0 <= i < j < h2.len() && is_pause_ack(#[trigger] h2[i]) && (forall|k: int|
            i < k < j ==> !is_unpause_ack(#[trigger] h2[k]))) implies !((#[trigger] h2[j]) is Entry
        || h2[j] is Complete) by {
        if j < h.len() {
            assert(h2[i] == h[i]);
            assert(forall|k: int| i < k < j ==> !is_unpause_ack(#[trigger] h[k])) by {
                assert(forall|k: int| i < k < j ==> h[k] == h2[k]);
            }
            assert(!((h[j]) is Entry || h[j] is Complete));
            assert(h2[j] == h[j]);
        } else {
            // j is the new event: a dangling pause would have to be pending
            assert(h2[i] == h[i]);
            assert(forall|k: int| i < k < h.len() ==> !is_unpause_ack(#[trigger] h[k])) by {
                assert(forall|k: int| i < k < j ==> h[k] == h2[k]);
            }
            lemma_dangling_pause_is_pending(h, i);
            assert(false);
        }
    }
}

/// The models of a batch of commands, in order.
pub open spec fn models_of(cs: Seq<ControlCommand>) -> Seq<CommandModel> {
    cs.map_values(|c: ControlCommand| c@)
}

/// Appending one event extends the progress projection by that event when it
/// is one, and leaves it alone otherwise.
pub proof fn lemma_progress_push(h: Seq<Event>, e: Event)
    ensures
        progress_events(h.push(e)) == progress_events(h) + (if is_progress_event(e) {
            seq![e]
        } else {
            Seq::empty()
        }),
{
    reveal(Seq::filter);
    assert(h.push(e).drop_last() =~= h);
    assert(h.push(e).last() == e);
    if is_progress_event(e) {
        assert(progress_events(h).push(e) =~= progress_events(h) + seq![e]);
    } else {
        assert(progress_events(h) =~= progress_events(h) + Seq::<Event>::empty());
    }
}

/// A suffix of pure status events does not change the progress projection.
pub proof fn lemma_progress_status_suffix(h: Seq<Event>, t: Seq<Event>)
    requires
        forall|k: int| 0 <= k < t.len() ==> !is_progress_event(#[trigger] t[k]),
    ensures
        progress_events(h + t) == progress_events(h),
    decreases t.len(),
{
    if t.len() == 0 {
        assert(h + t =~= h);
    } else {
        assert(forall|k: int| 0 <= k < t.drop_last().len() ==> !is_progress_event(
            #[trigger] t.drop_last()[k],
        ));
        lemma_progress_status_suffix(h, t.drop_last());
        assert((h + t).drop_last() =~= h + t.drop_last());
        assert((h + t).last() == t.last());
        reveal(Seq::filter);
        assert((h + t).len() > 0);
    }
}

/// Being a prefix is transitive.
pub proof fn lemma_prefix_trans<A>(a: Seq<A>, b: Seq<A>, c: Seq<A>)
    requires
        a.is_prefix_of(b),
        b.is_prefix_of(c),
    ensures
        a.is_prefix_of(c),
{
    assert(a =~= c.subrange(0, a.len() as int));
}

/// Extending a history keeps every earlier history a prefix.
pub proof fn lemma_prefix_extend<A>(a: Seq<A>, t: Seq<A>)
    ensures
        a.is_prefix_of(a + t),
{
    assert(a =~= (a + t).subrange(0, a.len() as int));
}

/// Concatenation on the left preserves being a prefix.
pub proof fn lemma_prefix_cat<A>(a: Seq<A>, p: Seq<A>, q: Seq<A>)
    requires
        p.is_prefix_of(q),
    ensures
        (a + p).is_prefix_of(a + q),
{
    assert(a + p =~= (a + q).subrange(0, (a + p).len() as int));
}

/// One step of a scan extends the history without ever appending a terminal
/// event: only `scan` itself closes an invocation with `Done`.
pub open spec fn appends_no_done(h0: Seq<Event>, h1: Seq<Event>) -> bool {
    &&& h0.is_prefix_of(h1)
    &&& (forall|k: int| h0.len() <= k < h1.len() ==> !((#[trigger] h1[k]) is Done))
}

/// [`appends_no_done`] composes.
pub proof fn lemma_appends_no_done_trans(a: Seq<Event>, b: Seq<Event>, c: Seq<Event>)
    requires
        appends_no_done(a, b),
        appends_no_done(b, c),
    ensures
        appends_no_done(a, c),
{
    lemma_prefix_trans(a, b, c);
    assert forall|k: int| a.len() <= k < c.len() implies !((#[trigger] c[k]) is Done) by {
        if k < b.len() {
            assert(c[k] == b[k]);
        }
    }
}

} // verus!
