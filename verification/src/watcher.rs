//! The queue of file changes seen by the project watcher.
//!
//! The watcher itself (an OS facility) reports events to the caller, which
//! hands them here: only `.luau` files are recorded, the queue keeps the most
//! recent `MAX_QUEUE_SIZE` changes, and polling takes the oldest first.
use std::collections::VecDeque;
use vstd::prelude::*;
use crate::text::{push_str, str_eq, string_from_chars};

verus! {

/// Maximum changes to queue before dropping old ones.
pub const MAX_QUEUE_SIZE: usize = 1000;

/// Type of file change.
#[derive(Debug, Clone, Copy, PartialEq, Eq, Structural)]
pub enum ChangeKind {
    Created,
    Modified,
    Deleted,
    /// Watcher error: file watching may have stopped working.
    WatcherError,
}

/// A recorded file change event.
#[derive(Debug, Clone)]
pub struct FileChange {
    pub path: String,
    pub kind: ChangeKind,
    pub timestamp: u64,
}

pub struct ChangeModel {
    pub path: Seq<char>,
    pub kind: ChangeKind,
    pub timestamp: u64,
}

pub open spec fn change_view(c: FileChange) -> ChangeModel {
    ChangeModel { path: c.path@, kind: c.kind, timestamp: c.timestamp }
}

pub open spec fn changes_view(v: Seq<FileChange>) -> Seq<ChangeModel> {
    v.map_values(|c: FileChange| change_view(c))
}

/// The kind of a watcher event, as far as the queue cares.
#[derive(Debug, Clone, Copy, PartialEq, Eq, Structural)]
pub enum WatchEventKind {
    Create,
    Modify,
    Remove,
    Other,
}

/// One path named by a watcher event.
#[derive(Debug)]
pub struct EventPath {
    /// `Path::extension`, read lossily as text.
    pub extension: Option<String>,
    /// The path relative to the project root (or as given when it lies
    /// outside), displayed.
    pub relative: String,
}

pub struct EventPathModel {
    pub extension: Option<Seq<char>>,
    pub relative: Seq<char>,
}

pub open spec fn event_path_view(p: EventPath) -> EventPathModel {
    EventPathModel {
        extension: match p.extension {
            Some(x) => Some(x@),
            None => None,
        },
        relative: p.relative@,
    }
}

pub open spec fn change_kind_of(k: WatchEventKind) -> Option<ChangeKind> {
    match k {
        WatchEventKind::Create => Some(ChangeKind::Created),
        WatchEventKind::Modify => Some(ChangeKind::Modified),
        WatchEventKind::Remove => Some(ChangeKind::Deleted),
        WatchEventKind::Other => None,
    }
}

/// The changes an event records: one per `.luau` path, for creations,
/// modifications and removals.
pub open spec fn event_changes(k: WatchEventKind, paths: Seq<EventPathModel>, timestamp: u64) -> Seq<ChangeModel>
    decreases paths.len(),
{
    if paths.len() == 0 {
        Seq::empty()
    } else {
        let rest = event_changes(k, paths.drop_last(), timestamp);
        let p = paths.last();
        if p.extension == Some("luau"@) && change_kind_of(k) is Some {
            rest.push(ChangeModel { path: p.relative, kind: change_kind_of(k)->0, timestamp })
        } else {
            rest
        }
    }
}

/// Appending to a queue that keeps the most recent `n` items.
pub open spec fn push_bounded(q: Seq<ChangeModel>, c: ChangeModel, n: nat) -> Seq<ChangeModel> {
    if q.len() >= n {
        q.drop_first().push(c)
    } else {
        q.push(c)
    }
}

pub open spec fn push_all_bounded(q: Seq<ChangeModel>, cs: Seq<ChangeModel>, n: nat) -> Seq<ChangeModel>
    decreases cs.len(),
{
    if cs.len() == 0 {
        q
    } else {
        push_bounded(push_all_bounded(q, cs.drop_last(), n), cs.last(), n)
    }
}

/// The queue of changes waiting to be polled.
#[derive(Debug)]
pub struct ChangeQueue {
    changes: VecDeque<FileChange>,
}

impl View for ChangeQueue {
    type V = Seq<ChangeModel>;

    closed spec fn view(&self) -> Seq<ChangeModel> {
        changes_view(self.changes@)
    }
}

impl ChangeQueue {
    pub fn new() -> (q: Self)
        ensures
            q@ == Seq::<ChangeModel>::empty(),
    {
        let q = ChangeQueue { changes: VecDeque::new() };
        assert(q@ =~= Seq::<ChangeModel>::empty());
        q
    }

    /// Queue a change; the oldest one leaves when the queue is full.
    pub fn push(&mut self, change: FileChange)
        ensures
            final(self)@ == push_bounded(old(self)@, change_view(change), MAX_QUEUE_SIZE as nat),
    {
        let ghost c = change_view(change);
        let ghost q0 = self@;
        let ghost raw0 = self.changes@;
        if self.changes.len() >= MAX_QUEUE_SIZE {
            let _ = self.changes.pop_front();
            assert(changes_view(self.changes@) =~= q0.drop_first());
        }
        let ghost raw1 = self.changes@;
        self.changes.push_back(change);
        proof {
            assert(self.changes@ == raw1.push(change));
            assert(changes_view(self.changes@) =~= changes_view(raw1).push(c));
        }
    }

    /// Record a watcher event that happened at `timestamp`.
    pub fn record_event(&mut self, kind: WatchEventKind, paths: &Vec<EventPath>, timestamp: u64)
        ensures
            final(self)@ == push_all_bounded(
                old(self)@,
                event_changes(kind, paths@.map_values(|p: EventPath| event_path_view(p)), timestamp),
                MAX_QUEUE_SIZE as nat,
            ),
    {
        let ghost pv = paths@.map_values(|p: EventPath| event_path_view(p));
        let ghost q0 = self@;
        let mut i: usize = 0;
        while i < paths.len()
            invariant
                i <= paths.len(),
                pv == paths@.map_values(|p: EventPath| event_path_view(p)),
                self@ == push_all_bounded(q0, event_changes(kind, pv.subrange(0, i as int), timestamp), MAX_QUEUE_SIZE as nat),
            decreases paths.len() - i,
        {
            let ghost pre = pv.subrange(0, i as int);
            let ghost nxt = pv.subrange(0, i + 1);
            assert(nxt.drop_last() =~= pre);
            assert(nxt.last() == event_path_view(paths@[i as int]));
            let p = &paths[i];
            let is_luau = match &p.extension {
                Some(x) => str_eq(x.as_str(), "luau"),
                None => false,
            };
            let k = match kind {
                WatchEventKind::Create => Some(ChangeKind::Created),
                WatchEventKind::Modify => Some(ChangeKind::Modified),
                WatchEventKind::Remove => Some(ChangeKind::Deleted),
                WatchEventKind::Other => None,
            };
            let ghost q_before = self@;
            let ghost ec = event_changes(kind, pre, timestamp);
            assert(is_luau == (pv[i as int].extension == Some("luau"@)));
            assert(k == change_kind_of(kind));
            if is_luau {
                if let Some(ck) = k {
                    self.push(FileChange { path: p.relative.clone(), kind: ck, timestamp });
                    proof {
                        let c = ChangeModel { path: pv[i as int].relative, kind: ck, timestamp };
                        assert(event_changes(kind, nxt, timestamp) == ec.push(c));
                        assert(ec.push(c).drop_last() =~= ec);
                    }
                } else {
                    assert(event_changes(kind, nxt, timestamp) == ec);
                }
            } else {
                assert(event_changes(kind, nxt, timestamp) == ec);
            }
            i += 1;
        }
        assert(pv.subrange(0, paths.len() as int) =~= pv);
    }

    /// Record a watcher failure, so that pollers learn that watching may
    /// have stopped.
    pub fn record_error(&mut self, message: &str, timestamp: u64)
        ensures
            final(self)@ == push_bounded(
                old(self)@,
                ChangeModel { path: "[WATCHER_ERROR] "@ + message@, kind: ChangeKind::WatcherError, timestamp },
                MAX_QUEUE_SIZE as nat,
            ),
    {
        let mut v: Vec<char> = Vec::new();
        push_str(&mut v, "[WATCHER_ERROR] ");
        push_str(&mut v, message);
        self.push(FileChange { path: string_from_chars(&v), kind: ChangeKind::WatcherError, timestamp });
    }

    /// Take up to `limit` changes, oldest first.
    pub fn poll(&mut self, limit: usize) -> (r: Vec<FileChange>)
        ensures
            changes_view(r@) == old(self)@.take(if limit < old(self)@.len() { limit as int } else { old(self)@.len() as int }),
            final(self)@ == old(self)@.skip(if limit < old(self)@.len() { limit as int } else { old(self)@.len() as int }),
    {
        let ghost q0 = self@;
        let n = if limit < self.changes.len() { limit } else { self.changes.len() };
        let mut out: Vec<FileChange> = Vec::new();
        let mut i: usize = 0;
        while i < n
            invariant
                i <= n <= q0.len(),
                changes_view(out@) == q0.take(i as int),
                self@ == q0.skip(i as int),
            decreases n - i,
        {
            let ghost before = self.changes@;
            assert(changes_view(before).len() == before.len());
            assert(changes_view(before) == q0.skip(i as int));
            match self.changes.pop_front() {
                Some(c) => {
                    let ghost ob = out@;
                    out.push(c);
                    proof {
                        assert(changes_view(before)[0] == change_view(c));
                        assert(changes_view(out@) =~= changes_view(ob).push(change_view(c)));
                        assert(q0.take(i + 1) =~= q0.take(i as int).push(q0[i as int]));
                        assert(q0.skip(i as int)[0] == q0[i as int]);
                        assert(self.changes@ == before.subrange(1, before.len() as int));
                        assert(changes_view(self.changes@) =~= changes_view(before).drop_first());
                        assert(changes_view(self.changes@) =~= q0.skip(i + 1));
                    }
                },
                None => {
                    assert(false);
                },
            }
            i += 1;
        }
        out
    }

    /// The number of changes waiting.
    pub fn pending_count(&self) -> (n: usize)
        ensures
            n == self@.len(),
    {
        self.changes.len()
    }
}

/// The queue never holds more than `MAX_QUEUE_SIZE` changes, and it holds
/// the most recent ones: whatever was pushed, in order, minus what had to
/// leave from the front.
pub proof fn law_queue_bounded(q: Seq<ChangeModel>, cs: Seq<ChangeModel>)
    requires
        q.len() <= MAX_QUEUE_SIZE,
    ensures
        push_all_bounded(q, cs, MAX_QUEUE_SIZE as nat).len() <= MAX_QUEUE_SIZE,
        push_all_bounded(q, cs, MAX_QUEUE_SIZE as nat).len() == if q.len() + cs.len() <= MAX_QUEUE_SIZE {
            (q.len() + cs.len()) as int
        } else {
            MAX_QUEUE_SIZE as int
        },
        (q + cs).len() >= push_all_bounded(q, cs, MAX_QUEUE_SIZE as nat).len() && push_all_bounded(q, cs, MAX_QUEUE_SIZE as nat)
            == (q + cs).skip((q + cs).len() - push_all_bounded(q, cs, MAX_QUEUE_SIZE as nat).len()),
    decreases cs.len(),
{
    if cs.len() > 0 {
        law_queue_bounded(q, cs.drop_last());
        let p = push_all_bounded(q, cs.drop_last(), MAX_QUEUE_SIZE as nat);
        let all = q + cs;
        assert(all.drop_last() =~= q + cs.drop_last());
        let r = push_all_bounded(q, cs, MAX_QUEUE_SIZE as nat);
        if p.len() >= MAX_QUEUE_SIZE {
            assert(r =~= all.skip(all.len() - r.len()));
        } else {
            assert(r =~= all.skip(all.len() - r.len()));
        }
    } else {
        assert(q + cs =~= q);
        assert(q.skip(0) =~= q);
    }
}

/// Polling everything hands back the queue in order and leaves it empty;
/// polling in two steps hands back the same changes as one poll.
pub proof fn law_poll_in_order(q: Seq<ChangeModel>, a: int, b: int)
    requires
        0 <= a,
        0 <= b,
        a + b <= q.len(),
    ensures
        q.take(a) + q.skip(a).take(b) == q.take(a + b),
        q.skip(a).skip(b) == q.skip(a + b),
{
    assert(q.take(a) + q.skip(a).take(b) =~= q.take(a + b));
    assert(q.skip(a).skip(b) =~= q.skip(a + b));
}

} // verus!
