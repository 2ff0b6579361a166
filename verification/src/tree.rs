use vstd::prelude::*;

verus! {

use crate::messages::{Event, EntryModel};
use crate::classify::file_type_of;
use crate::util::sat64;

/// One filesystem node as the host application observed it.
///
/// The traversal engine works on this observed form: the host lists
/// directories and reads metadata, records what it saw here, and the engine's
/// behaviour is then a function of this value alone.
#[derive(Debug)]
pub struct FsNode {
    /// Textual path used on the wire.
    pub path: String,
    /// Final path component.
    pub name: String,
    /// The node's own on-disk byte length (meaningful for non-directories).
    pub size: u64,
    /// Seconds since the epoch of the last modification, if available.
    pub modified: Option<u64>,
    pub kind: NodeKind,
}

/// What kind of node was observed, and — for directories — what listing it
/// produced.
#[derive(Debug)]
pub enum NodeKind {
    /// A regular file (or anything else that is neither directory nor
    /// symlink).
    File,
    /// A symbolic link. Never recursed into, wherever it points.
    Symlink,
    /// A directory whose children could be listed, in the order they were
    /// read.
    DirListed(Vec<FsNode>),
    /// A directory that could not be listed; carries the failure message.
    DirUnreadable(String),
    /// An entry whose metadata could not be read; carries the failure
    /// message. Such an entry is reported and skipped, never counted.
    MetaUnavailable(String),
}

/// Whether the node was observed to be a directory.
pub open spec fn is_dir_node(n: FsNode) -> bool {
    n.kind is DirListed || n.kind is DirUnreadable
}

/// The total size of a subtree: a directory contributes the sum of its
/// children, a file or symlink its own byte length, and unreadable or
/// metadata-less nodes contribute nothing.
pub open spec fn size_of(n: FsNode) -> nat
    decreases n, 0int,
{
    match n.kind {
        NodeKind::File => n.size as nat,
        NodeKind::Symlink => n.size as nat,
        NodeKind::DirListed(children) => sum_sizes(children@),
        NodeKind::DirUnreadable(_) => 0,
        NodeKind::MetaUnavailable(_) => 0,
    }
}

/// Sum of [`size_of`] over a sequence of children.
pub open spec fn sum_sizes(cs: Seq<FsNode>) -> nat
    decreases cs, 1int,
{
    if cs.len() == 0 {
        0
    } else {
        sum_sizes(cs.drop_last()) + size_of(cs.last())
    }
}

/// The item count of a subtree: each file or symlink counts 1, a directory
/// the count of its descendants (itself excluded), unreadable or
/// metadata-less nodes 0.
pub open spec fn items_of(n: FsNode) -> nat
    decreases n, 0int,
{
    match n.kind {
        NodeKind::File => 1,
        NodeKind::Symlink => 1,
        NodeKind::DirListed(children) => sum_items(children@),
        NodeKind::DirUnreadable(_) => 0,
        NodeKind::MetaUnavailable(_) => 0,
    }
}

/// Sum of [`items_of`] over a sequence of children.
pub open spec fn sum_items(cs: Seq<FsNode>) -> nat
    decreases cs, 1int,
{
    if cs.len() == 0 {
        0
    } else {
        sum_items(cs.drop_last()) + items_of(cs.last())
    }
}

/// The wire entry a parent emits for a child it just processed.
pub open spec fn entry_model_of(c: FsNode) -> EntryModel {
    EntryModel {
        path: c.path@,
        name: c.name@,
        size: sat64(size_of(c)),
        is_dir: is_dir_node(c),
        is_symlink: c.kind is Symlink,
        modified: c.modified,
        item_count: sat64(items_of(c)),
        file_type: file_type_of(c.name@),
    }
}

/// The traversal events an uncancelled, emitting scan produces for a node
/// scanned as a directory: all children's events in listing order, then the
/// directory's own completion event.
pub open spec fn events_of(n: FsNode) -> Seq<Event>
    decreases n, 0int,
{
    match n.kind {
        NodeKind::DirListed(children) => children_events(children@) + seq![
            Event::Complete { path: n.path@, total_size: sat64(size_of(n)) },
        ],
        NodeKind::DirUnreadable(m) => seq![Event::Trouble { path: n.path@, message: m@ }],
        _ => Seq::empty(),
    }
}

/// The events of a sequence of children, in order.
pub open spec fn children_events(cs: Seq<FsNode>) -> Seq<Event>
    decreases cs, 1int,
{
    if cs.len() == 0 {
        Seq::empty()
    } else {
        children_events(cs.drop_last()) + child_events(cs.last())
    }
}

/// The events one child contributes: an unreadable entry is only reported; a
/// directory first yields its whole subtree (ending in its completion event)
/// and is then announced by its parent; a leaf is announced directly.
pub open spec fn child_events(c: FsNode) -> Seq<Event>
    decreases c, 2int,
{
    match c.kind {
        NodeKind::MetaUnavailable(m) => seq![Event::Trouble { path: c.path@, message: m@ }],
        NodeKind::DirListed(_) => events_of(c) + seq![Event::Entry(entry_model_of(c))],
        NodeKind::DirUnreadable(_) => events_of(c) + seq![Event::Entry(entry_model_of(c))],
        _ => seq![Event::Entry(entry_model_of(c))],
    }
}

/// Unfolding one child at the right end of a prefix of a child list.
pub proof fn lemma_children_step(cs: Seq<FsNode>, i: int)
    requires
        0 <= i < cs.len(),
    ensures
        sum_sizes(cs.subrange(0, i + 1)) == sum_sizes(cs.subrange(0, i)) + size_of(cs[i]),
        sum_items(cs.subrange(0, i + 1)) == sum_items(cs.subrange(0, i)) + items_of(cs[i]),
        children_events(cs.subrange(0, i + 1)) == children_events(cs.subrange(0, i))
            + child_events(cs[i]),
{
    let pre = cs.subrange(0, i + 1);
    assert(pre.drop_last() =~= cs.subrange(0, i));
    assert(pre.last() == cs[i]);
}

/// A prefix of a child list never sums to more than the whole list.
pub proof fn lemma_sum_prefix_le(cs: Seq<FsNode>, i: int)
    requires
        0 <= i <= cs.len(),
    ensures
        sum_sizes(cs.subrange(0, i)) <= sum_sizes(cs),
        sum_items(cs.subrange(0, i)) <= sum_items(cs),
    decreases cs.len(),
{
    if i == cs.len() {
        assert(cs.subrange(0, i) =~= cs);
    } else {
        assert(cs.subrange(0, i) =~= cs.drop_last().subrange(0, i));
        lemma_sum_prefix_le(cs.drop_last(), i);
    }
}

/// The events of a prefix of a child list are a prefix of the whole list's
/// events.
pub proof fn lemma_children_events_prefix(cs: Seq<FsNode>, i: int)
    requires
        0 <= i <= cs.len(),
    ensures
        children_events(cs.subrange(0, i)).is_prefix_of(children_events(cs)),
    decreases cs.len(),
{
    if i == cs.len() {
        assert(cs.subrange(0, i) =~= cs);
        assert(children_events(cs) =~= children_events(cs).subrange(
            0,
            children_events(cs).len() as int,
        ));
    } else {
        assert(cs.subrange(0, i) =~= cs.drop_last().subrange(0, i));
        lemma_children_events_prefix(cs.drop_last(), i);
        crate::messages::lemma_prefix_extend(
            children_events(cs.drop_last()),
            child_events(cs.last()),
        );
        crate::messages::lemma_prefix_trans(
            children_events(cs.subrange(0, i)),
            children_events(cs.drop_last()),
            children_events(cs),
        );
    }
}

/// A whole child list is the full prefix of itself.
pub proof fn lemma_children_all(cs: Seq<FsNode>)
    ensures
        sum_sizes(cs.subrange(0, cs.len() as int)) == sum_sizes(cs),
        sum_items(cs.subrange(0, cs.len() as int)) == sum_items(cs),
        children_events(cs.subrange(0, cs.len() as int)) == children_events(cs),
{
    assert(cs.subrange(0, cs.len() as int) =~= cs);
}

/// The paths a scan announces below a node, in emission order: one for every
/// entry event an uncancelled emitting scan produces (reported-and-skipped
/// entries announce nothing).
pub open spec fn announced_paths(n: FsNode) -> Seq<Seq<char>>
    decreases n, 0int,
{
    match n.kind {
        NodeKind::DirListed(children) => children_paths(children@),
        _ => Seq::empty(),
    }
}

/// The announced paths of a child list, in order.
pub open spec fn children_paths(cs: Seq<FsNode>) -> Seq<Seq<char>>
    decreases cs, 1int,
{
    if cs.len() == 0 {
        Seq::empty()
    } else {
        children_paths(cs.drop_last()) + child_paths(cs.last())
    }
}

/// The paths one child announces: its subtree's, then its own; an entry
/// without metadata is only reported, never announced.
pub open spec fn child_paths(c: FsNode) -> Seq<Seq<char>>
    decreases c, 2int,
{
    match c.kind {
        NodeKind::MetaUnavailable(_) => Seq::empty(),
        NodeKind::DirListed(_) => announced_paths(c) + seq![c.path@],
        NodeKind::DirUnreadable(_) => announced_paths(c) + seq![c.path@],
        _ => seq![c.path@],
    }
}

/// The paths carried by the entry events of a stream, in order.
pub open spec fn entry_paths(evs: Seq<Event>) -> Seq<Seq<char>>
    decreases evs.len(),
{
    if evs.len() == 0 {
        Seq::empty()
    } else {
        entry_paths(evs.drop_last()) + (match evs.last() {
            Event::Entry(en) => seq![en.path],
            _ => Seq::empty(),
        })
    }
}

/// [`entry_paths`] distributes over concatenation.
pub proof fn lemma_entry_paths_add(a: Seq<Event>, b: Seq<Event>)
    ensures
        entry_paths(a + b) == entry_paths(a) + entry_paths(b),
    decreases b.len(),
{
    if b.len() == 0 {
        assert(a + b =~= a);
        assert(entry_paths(a) + entry_paths(b) =~= entry_paths(a));
    } else {
        lemma_entry_paths_add(a, b.drop_last());
        assert((a + b).drop_last() =~= a + b.drop_last());
        assert((a + b).last() == b.last());
        assert(entry_paths(a + b) =~= entry_paths(a) + entry_paths(b));
    }
}

/// The entry events of a node's stream carry exactly the announced paths.
pub proof fn lemma_entry_paths_of_events(n: FsNode)
    ensures
        entry_paths(events_of(n)) == announced_paths(n),
    decreases n, 0int,
{
    assert(entry_paths(Seq::<Event>::empty()) == Seq::<Seq<char>>::empty());
    match n.kind {
        NodeKind::DirListed(children) => {
            lemma_entry_paths_of_children(children@);
            let tail = seq![
                Event::Complete { path: n.path@, total_size: sat64(size_of(n)) },
            ];
            lemma_entry_paths_add(children_events(children@), tail);
            assert(tail.drop_last() =~= Seq::<Event>::empty());
            assert(entry_paths(tail) =~= Seq::<Seq<char>>::empty());
            assert(entry_paths(events_of(n)) =~= announced_paths(n));
        },
        NodeKind::DirUnreadable(m) => {
            let evs = seq![Event::Trouble { path: n.path@, message: m@ }];
            assert(evs.drop_last() =~= Seq::<Event>::empty());
            assert(entry_paths(evs) =~= Seq::<Seq<char>>::empty());
        },
        _ => {},
    }
}

/// Child-list version of [`lemma_entry_paths_of_events`].
pub proof fn lemma_entry_paths_of_children(cs: Seq<FsNode>)
    ensures
        entry_paths(children_events(cs)) == children_paths(cs),
    decreases cs, 1int,
{
    if cs.len() == 0 {
        assert(entry_paths(children_events(cs)) =~= children_paths(cs));
    } else {
        lemma_entry_paths_of_children(cs.drop_last());
        lemma_entry_paths_of_child(cs.last());
        lemma_entry_paths_add(children_events(cs.drop_last()), child_events(cs.last()));
    }
}

/// Single-child version of [`lemma_entry_paths_of_events`].
pub proof fn lemma_entry_paths_of_child(c: FsNode)
    ensures
        entry_paths(child_events(c)) == child_paths(c),
    decreases c, 2int,
{
    assert(entry_paths(Seq::<Event>::empty()) == Seq::<Seq<char>>::empty());
    match c.kind {
        NodeKind::MetaUnavailable(m) => {
            let evs = seq![Event::Trouble { path: c.path@, message: m@ }];
            assert(evs.drop_last() =~= Seq::<Event>::empty());
            assert(entry_paths(evs) =~= Seq::<Seq<char>>::empty());
        },
        NodeKind::DirListed(_) | NodeKind::DirUnreadable(_) => {
            lemma_entry_paths_of_events(c);
            let tail = seq![Event::Entry(entry_model_of(c))];
            lemma_entry_paths_add(events_of(c), tail);
            assert(tail.drop_last() =~= Seq::<Event>::empty());
            assert(entry_paths(tail) =~= seq![c.path@]);
            assert(entry_paths(child_events(c)) =~= child_paths(c));
        },
        _ => {
            let evs = seq![Event::Entry(entry_model_of(c))];
            assert(evs.drop_last() =~= Seq::<Event>::empty());
            assert(entry_paths(evs) =~= seq![c.path@]);
        },
    }
}

/// Entry paths are unique per emission: when the observed tree announces no
/// path twice — true of a snapshot of a real filesystem, where every node
/// stands at its own path — the entry events of the scan's stream carry
/// pairwise distinct paths.
pub proof fn lemma_entry_paths_unique(n: FsNode)
    requires
        announced_paths(n).no_duplicates(),
    ensures
        entry_paths(events_of(n)).no_duplicates(),
{
    lemma_entry_paths_of_events(n);
}

/// A tree holding only regular files (below directories): no symlinks, no
/// unreadable directories, no entries without metadata.
pub open spec fn regular_tree(n: FsNode) -> bool
    decreases n, 0int,
{
    match n.kind {
        NodeKind::File => true,
        NodeKind::DirListed(children) => regular_children(children@),
        _ => false,
    }
}

/// All children are regular trees.
pub open spec fn regular_children(cs: Seq<FsNode>) -> bool
    decreases cs, 1int,
{
    if cs.len() == 0 {
        true
    } else {
        regular_children(cs.drop_last()) && regular_tree(cs.last())
    }
}

/// How many regular files a subtree holds.
pub open spec fn file_count(n: FsNode) -> nat
    decreases n, 0int,
{
    match n.kind {
        NodeKind::File => 1,
        NodeKind::DirListed(children) => children_file_count(children@),
        _ => 0,
    }
}

/// Sum of [`file_count`] over children.
pub open spec fn children_file_count(cs: Seq<FsNode>) -> nat
    decreases cs, 1int,
{
    if cs.len() == 0 {
        0
    } else {
        children_file_count(cs.drop_last()) + file_count(cs.last())
    }
}

/// Sum of the files' own byte sizes in a subtree.
pub open spec fn file_size_sum(n: FsNode) -> nat
    decreases n, 0int,
{
    match n.kind {
        NodeKind::File => n.size as nat,
        NodeKind::DirListed(children) => children_file_size_sum(children@),
        _ => 0,
    }
}

/// Sum of [`file_size_sum`] over children.
pub open spec fn children_file_size_sum(cs: Seq<FsNode>) -> nat
    decreases cs, 1int,
{
    if cs.len() == 0 {
        0
    } else {
        children_file_size_sum(cs.drop_last()) + file_size_sum(cs.last())
    }
}

/// For a tree with only regular files, the scanned totals are exactly the
/// sum of all file byte sizes and the count of files — directories are
/// excluded from the item count.
pub proof fn lemma_regular_tree_totals(n: FsNode)
    requires
        regular_tree(n),
    ensures
        size_of(n) == file_size_sum(n),
        items_of(n) == file_count(n),
    decreases n, 0int,
{
    match n.kind {
        NodeKind::DirListed(children) => {
            lemma_regular_children_totals(children@);
        },
        _ => {},
    }
}

/// Children version of [`lemma_regular_tree_totals`].
pub proof fn lemma_regular_children_totals(cs: Seq<FsNode>)
    requires
        regular_children(cs),
    ensures
        sum_sizes(cs) == children_file_size_sum(cs),
        sum_items(cs) == children_file_count(cs),
    decreases cs, 1int,
{
    if cs.len() > 0 {
        lemma_regular_children_totals(cs.drop_last());
        lemma_regular_tree_totals(cs.last());
    }
}

/// A symlink is never recursed into, wherever it points: it contributes
/// exactly one item and its own on-disk size, and it yields exactly one
/// event — its own entry, with `item_count` 1 — never events for a target's
/// contents.
pub proof fn lemma_symlink_is_leaf(c: FsNode)
    requires
        c.kind is Symlink,
    ensures
        items_of(c) == 1,
        size_of(c) == c.size,
        child_events(c) == seq![Event::Entry(entry_model_of(c))],
        entry_model_of(c).item_count == 1,
        entry_model_of(c).is_symlink,
        !entry_model_of(c).is_dir,
{
}

/// A directory's completion event is emitted strictly after all events of
/// its direct children: the directory's events are exactly the children's
/// events, in listing order, followed by its own completion event.
pub proof fn lemma_complete_after_children(n: FsNode, cs: Seq<FsNode>)
    requires
        (n.kind matches NodeKind::DirListed(children) && children@ == cs),
    ensures
        events_of(n).len() == children_events(cs).len() + 1,
        events_of(n).last() == (Event::Complete { path: n.path@, total_size: sat64(size_of(n)) }),
        forall|k: int|
            0 <= k < children_events(cs).len() ==> events_of(n)[k] == children_events(cs)[k],
{
}

} // verus!
