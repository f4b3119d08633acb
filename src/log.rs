//! The replicated log of one shard: log matching, commit advancement,
//! ordered application, and the leader's view of each follower.
use vstd::prelude::*;

use crate::{LogIndex, ShardId, Term};

verus! {

/// One replicated entry: the term it was created in, its position, and an
/// opaque payload for the storage layer.
#[derive(Debug, Clone)]
pub struct LogEntry {
    pub term: Term,
    pub index: LogIndex,
    pub payload: Vec<u8>,
}

/// An entry as a mathematical value: its term and payload bytes.
pub type EntryView = (Term, Seq<u8>);

pub open spec fn entries_view(s: Seq<LogEntry>) -> Seq<EntryView> {
    s.map_values(|e: LogEntry| (e.term, e.payload@))
}

/// A shard's log on one node, as a mathematical value.
pub struct LogView {
    pub entries: Seq<EntryView>,
    pub commit_index: LogIndex,
    pub last_applied: LogIndex,
    pub halted: bool,
}

/// Reply of a follower to an append: on success the index up to which its
/// log now matches the leader's, on failure the highest index it can confirm.
#[derive(Debug, Clone, Copy, PartialEq, Eq, Structural)]
pub struct AppendOutcome {
    pub success: bool,
    pub match_index: LogIndex,
}

/// Places entry `e` at position `idx` (1-based): kept when the term there
/// agrees, otherwise the log is cut before `idx` and `e` appended.
pub open spec fn merge_entry(log: Seq<EntryView>, idx: int, e: EntryView) -> Seq<EntryView> {
    if idx <= log.len() {
        if log[idx - 1].0 == e.0 {
            log
        } else {
            log.subrange(0, idx - 1).push(e)
        }
    } else {
        log.push(e)
    }
}

/// Places the entries `new` after position `prev`, in order.
pub open spec fn merge(log: Seq<EntryView>, prev: int, new: Seq<EntryView>) -> Seq<EntryView>
    decreases new.len(),
{
    if new.len() == 0 {
        log
    } else {
        merge_entry(merge(log, prev, new.drop_last()), prev + new.len(), new.last())
    }
}

impl LogView {
    pub open spec fn inv(self) -> bool {
        &&& self.entries.len() < u64::MAX
        &&& self.last_applied <= self.commit_index <= self.entries.len()
    }

    pub open spec fn last_index(self) -> int {
        self.entries.len() as int
    }

    pub open spec fn last_term(self) -> Term {
        if self.entries.len() == 0 {
            0
        } else {
            self.entries.last().0
        }
    }

    /// The log holds an entry of term `prev_term` at `prev` (position 0 is
    /// the empty prefix, which always matches).
    pub open spec fn prev_matches(self, prev: LogIndex, prev_term: Term) -> bool {
        prev == 0 || (prev <= self.entries.len() && self.entries[prev - 1].0 == prev_term)
    }

    /// Some entry of `new` disagrees in term with a committed entry.
    pub open spec fn conflicts_committed(self, prev: LogIndex, new: Seq<EntryView>) -> bool {
        exists|k: int|
            0 <= k < new.len() && prev + k + 1 <= self.commit_index && #[trigger] new[k].0
                != self.entries[prev + k].0
    }

    pub open spec fn accepts_append(self, prev: LogIndex, prev_term: Term, new: Seq<EntryView>) -> bool {
        &&& self.prev_matches(prev, prev_term)
        &&& !self.conflicts_committed(prev, new)
        &&& prev + new.len() < u64::MAX
    }

    pub open spec fn after_append_entries(
        self,
        prev: LogIndex,
        prev_term: Term,
        new: Seq<EntryView>,
        leader_commit: LogIndex,
    ) -> LogView {
        if self.accepts_append(prev, prev_term, new) {
            let last_new = prev + new.len();
            let target = if leader_commit < last_new {
                leader_commit as int
            } else {
                last_new
            };
            LogView {
                entries: merge(self.entries, prev as int, new),
                commit_index: if target > self.commit_index {
                    target as LogIndex
                } else {
                    self.commit_index
                },
                ..self
            }
        } else {
            self
        }
    }

    pub open spec fn append_outcome(self, prev: LogIndex, prev_term: Term, new: Seq<EntryView>) -> AppendOutcome {
        if self.accepts_append(prev, prev_term, new) {
            AppendOutcome { success: true, match_index: (prev + new.len()) as LogIndex }
        } else if prev > self.entries.len() {
            AppendOutcome { success: false, match_index: self.entries.len() as LogIndex }
        } else if !self.prev_matches(prev, prev_term) {
            AppendOutcome { success: false, match_index: (prev - 1) as LogIndex }
        } else {
            AppendOutcome { success: false, match_index: self.commit_index }
        }
    }
}

/// Number of values in `ms` that are at least `n`.
pub open spec fn count_at_least(ms: Seq<LogIndex>, n: int) -> nat
    decreases ms.len(),
{
    if ms.len() == 0 {
        0
    } else {
        count_at_least(ms.drop_last(), n) + if ms.last() >= n {
            1nat
        } else {
            0nat
        }
    }
}

impl LogView {
    /// Entry `n` is held by a strict majority of `cluster_size` nodes: the
    /// leader itself and the followers whose match index reaches `n`.
    pub open spec fn on_majority(self, matches: Seq<LogIndex>, cluster_size: nat, n: int) -> bool {
        (count_at_least(matches, n) + 1) * 2 > cluster_size
    }

    /// The largest index `n <= upto` above the commit index whose entry is
    /// of `term` and held by a majority; the commit index if there is none.
    pub open spec fn commit_target(
        self,
        term: Term,
        matches: Seq<LogIndex>,
        cluster_size: nat,
        upto: int,
    ) -> LogIndex
        decreases upto,
    {
        if upto <= self.commit_index || upto > self.entries.len() || upto >= u64::MAX {
            self.commit_index
        } else if self.entries[upto - 1].0 == term && self.on_majority(matches, cluster_size, upto) {
            upto as LogIndex
        } else {
            self.commit_target(term, matches, cluster_size, upto - 1)
        }
    }

    pub open spec fn after_advance_commit(self, term: Term, matches: Seq<LogIndex>, cluster_size: nat) -> LogView {
        LogView {
            commit_index: self.commit_target(term, matches, cluster_size, self.entries.len() as int),
            ..self
        }
    }

    /// The next index to hand to the storage layer, if any.
    pub open spec fn next_to_apply(self) -> Option<LogIndex> {
        if !self.halted && self.last_applied < self.commit_index {
            Some((self.last_applied + 1) as LogIndex)
        } else {
            None
        }
    }

    /// Records the storage layer's answer for entry `index`: only the next
    /// committed index counts; a failure halts applying for good, and any
    /// other delivery changes nothing.
    pub open spec fn after_apply(self, index: LogIndex, ok: bool) -> LogView {
        if !self.halted && index == self.last_applied + 1 && index <= self.commit_index {
            if ok {
                LogView { last_applied: index, ..self }
            } else {
                LogView { halted: true, ..self }
            }
        } else {
            self
        }
    }

    pub open spec fn after_submit(self, term: Term, payload: Seq<u8>) -> LogView {
        if self.entries.len() + 1 < u64::MAX {
            LogView { entries: self.entries.push((term, payload)), ..self }
        } else {
            self
        }
    }

    pub open spec fn step(self, e: LogEvent) -> LogView {
        match e {
            LogEvent::Submit(term, payload) => self.after_submit(term, payload),
            LogEvent::Append(prev, prev_term, new, leader_commit) => self.after_append_entries(
                prev,
                prev_term,
                new,
                leader_commit,
            ),
            LogEvent::AdvanceCommit(term, matches, size) => self.after_advance_commit(
                term,
                matches,
                size,
            ),
            LogEvent::Apply(index, ok) => self.after_apply(index, ok),
        }
    }
}

/// One operation on a shard's log.
pub enum LogEvent {
    Submit(Term, Seq<u8>),
    Append(LogIndex, Term, Seq<EntryView>, LogIndex),
    AdvanceCommit(Term, Seq<LogIndex>, nat),
    Apply(LogIndex, bool),
}

/// The log reached from `s` after the operations `es`, in order.
pub open spec fn run_log(s: LogView, es: Seq<LogEvent>) -> LogView
    decreases es.len(),
{
    if es.len() == 0 {
        s
    } else {
        run_log(s, es.drop_last()).step(es.last())
    }
}

proof fn lemma_commit_target_at_least(s: LogView, term: Term, matches: Seq<LogIndex>, size: nat, upto: int)
    ensures
        s.commit_target(term, matches, size, upto) >= s.commit_index,
        s.inv() ==> s.commit_target(term, matches, size, upto) <= s.entries.len(),
    decreases upto,
{
    if upto > s.commit_index && upto <= s.entries.len() && upto < u64::MAX && !(s.entries[upto - 1].0 == term
        && s.on_majority(matches, size, upto)) {
        lemma_commit_target_at_least(s, term, matches, size, upto - 1);
    }
}

/// No operation lowers the commit index.
pub proof fn lemma_step_commit_monotonic(s: LogView, e: LogEvent)
    ensures
        s.step(e).commit_index >= s.commit_index,
{
    if let LogEvent::AdvanceCommit(term, matches, size) = e {
        lemma_commit_target_at_least(s, term, matches, size, s.entries.len() as int);
    }
}

/// Monotonic commit: along any run of operations, the commit index after
/// the first `i` operations is at most the one after the first `j >= i`.
pub proof fn lemma_commit_monotonic(s: LogView, es: Seq<LogEvent>, i: int, j: int)
    requires
        0 <= i <= j <= es.len(),
    ensures
        run_log(s, es.subrange(0, i)).commit_index <= run_log(s, es.subrange(0, j)).commit_index,
    decreases j - i,
{
    if i < j {
        lemma_commit_monotonic(s, es, i, j - 1);
        assert(es.subrange(0, j).drop_last() =~= es.subrange(0, j - 1));
        lemma_step_commit_monotonic(run_log(s, es.subrange(0, j - 1)), es[j - 1]);
    }
}

/// Idempotent apply: once entry `index` has been applied, delivering it
/// again (with any outcome) changes nothing.
pub proof fn lemma_apply_idempotent(s: LogView, index: LogIndex, ok: bool)
    ensures
        s.after_apply(index, true).after_apply(index, ok) == s.after_apply(index, true),
{
}

/// Re-delivering an index that was already applied changes nothing,
/// whatever the storage layer answers.
pub proof fn lemma_redelivery_is_noop(s: LogView, index: LogIndex, ok: bool)
    requires
        index <= s.last_applied,
    ensures
        s.after_apply(index, ok) == s,
{
}

/// A copy of `p` with the same bytes.
fn copy_payload(p: &Vec<u8>) -> (r: Vec<u8>)
    ensures
        r@ == p@,
{
    let r = p.clone();
    assert(r@ =~= p@);
    r
}

/// One shard's replicated log on this node, with its commit and apply
/// positions. Entry `i` (0-based) of `entries` sits at index `i + 1`.
#[derive(Debug)]
pub struct ReplicatedLog {
    pub shard_id: ShardId,
    pub entries: Vec<LogEntry>,
    pub commit_index: LogIndex,
    pub last_applied: LogIndex,
    pub halted: bool,
}

impl View for ReplicatedLog {
    type V = LogView;

    open spec fn view(&self) -> LogView {
        LogView {
            entries: entries_view(self.entries@),
            commit_index: self.commit_index,
            last_applied: self.last_applied,
            halted: self.halted,
        }
    }
}

impl ReplicatedLog {
    pub open spec fn inv(&self) -> bool {
        &&& self@.inv()
        &&& forall|i: int| 0 <= i < self.entries@.len() ==> #[trigger] self.entries@[i].index == i + 1
    }

    pub fn new(shard_id: ShardId) -> (r: ReplicatedLog)
        ensures
            r.inv(),
            r.shard_id == shard_id,
            r@ == (LogView {
                entries: Seq::empty(),
                commit_index: 0,
                last_applied: 0,
                halted: false,
            }),
    {
        let r = ReplicatedLog {
            shard_id,
            entries: Vec::new(),
            commit_index: 0,
            last_applied: 0,
            halted: false,
        };
        assert(r@.entries =~= Seq::<EntryView>::empty());
        r
    }

    pub fn last_index(&self) -> (r: LogIndex)
        requires
            self.inv(),
        ensures
            r == self@.last_index(),
    {
        self.entries.len() as LogIndex
    }

    pub fn last_term(&self) -> (r: Term)
        requires
            self.inv(),
        ensures
            r == self@.last_term(),
    {
        if self.entries.len() == 0 {
            0
        } else {
            self.entries[self.entries.len() - 1].term
        }
    }

    /// Term of the entry at `index`, if the log holds one there.
    pub fn term_at(&self, index: LogIndex) -> (r: Option<Term>)
        requires
            self.inv(),
        ensures
            r == (if 1 <= index <= self@.entries.len() {
                Some(self@.entries[index - 1].0)
            } else {
                None::<Term>
            }),
    {
        if index >= 1 && index <= self.entries.len() as LogIndex {
            Some(self.entries[(index - 1) as usize].term)
        } else {
            None
        }
    }

    /// Payload of the entry at `index`, if the log holds one there.
    pub fn payload_at(&self, index: LogIndex) -> (r: Option<&Vec<u8>>)
        requires
            self.inv(),
        ensures
            match r {
                Some(p) => 1 <= index <= self@.entries.len() && p@ == self@.entries[index - 1].1,
                None => !(1 <= index <= self@.entries.len()),
            },
    {
        if index >= 1 && index <= self.entries.len() as LogIndex {
            Some(&self.entries[(index - 1) as usize].payload)
        } else {
            None
        }
    }

    /// Appends a new entry of `term` after the last one and returns its
    /// index; `None` when the index space is exhausted.
    pub fn append_new(&mut self, term: Term, payload: Vec<u8>) -> (r: Option<LogIndex>)
        requires
            old(self).inv(),
        ensures
            final(self).inv(),
            final(self).shard_id == old(self).shard_id,
            old(self)@.entries.len() + 1 < u64::MAX ==> r == Some((old(self)@.entries.len() + 1) as LogIndex)
                && final(self)@ == (LogView {
                entries: old(self)@.entries.push((term, payload@)),
                ..old(self)@
            }),
            old(self)@.entries.len() + 1 >= u64::MAX ==> r is None && final(self)@ == old(self)@,
    {
        let len = self.entries.len();
        if len as u64 >= u64::MAX - 1 {
            return None;
        }
        let index = len as u64 + 1;
        let ghost before = self.entries@;
        self.entries.push(LogEntry { term, index, payload });
        assert(entries_view(self.entries@) =~= entries_view(before).push((term, self.entries@.last().payload@)));
        Some(index)
    }

    /// Follower side of an append from the leader: accepts when the entry at
    /// `prev_index` has `prev_term` and no new entry contradicts a committed
    /// one, then places the entries (cutting a conflicting uncommitted tail)
    /// and advances the commit index towards `leader_commit`.
    pub fn append_entries(
        &mut self,
        prev_index: LogIndex,
        prev_term: Term,
        new_entries: Vec<LogEntry>,
        leader_commit: LogIndex,
    ) -> (r: AppendOutcome)
        requires
            old(self).inv(),
        ensures
            final(self).inv(),
            final(self).shard_id == old(self).shard_id,
            r == old(self)@.append_outcome(prev_index, prev_term, entries_view(new_entries@)),
            final(self)@ == old(self)@.after_append_entries(
                prev_index,
                prev_term,
                entries_view(new_entries@),
                leader_commit,
            ),
    {
        let ghost new = entries_view(new_entries@);
        let len_us: usize = self.entries.len();
        let len = len_us as u64;
        let n = new_entries.len();
        let prev_ok = prev_index == 0 || (prev_index <= len && self.entries[(prev_index - 1) as usize].term
            == prev_term);
        if !prev_ok {
            if prev_index > len {
                return AppendOutcome { success: false, match_index: len };
            } else {
                return AppendOutcome { success: false, match_index: prev_index - 1 };
            }
        }
        assert(old(self)@.prev_matches(prev_index, prev_term));
        if prev_index as u128 + n as u128 >= u64::MAX as u128 {
            return AppendOutcome { success: false, match_index: self.commit_index };
        }
        let mut k: usize = 0;
        while k < n && prev_index + (k as u64) + 1 <= self.commit_index
            invariant
                k <= n == new.len(),
                self.inv(),
                len_us == self.entries@.len(),
                self@ == old(self)@,
                old(self)@.prev_matches(prev_index, prev_term),
                prev_index + n < u64::MAX,
                new == entries_view(new_entries@),
                forall|j: int|
                    0 <= j < k ==> #[trigger] new[j].0 == self@.entries[prev_index + j].0,
            decreases n - k,
        {
            assert(prev_index + k < self@.entries.len());
            let at: usize = (prev_index + k as u64) as usize;
            assert(at == prev_index + k);
            if new_entries[k].term != self.entries[at].term {
                assert(new[k as int].0 != self@.entries[prev_index + k].0);
                assert(old(self)@.conflicts_committed(prev_index, new));

                return AppendOutcome { success: false, match_index: self.commit_index };
            }
            k = k + 1;
        }
        let ghost old_view = self@;
        let ghost old_entries = self@.entries;
        assert(!old_view.conflicts_committed(prev_index, new));
        let mut k: usize = 0;
        while k < n
            invariant
                k <= n == new.len(),
                new == entries_view(new_entries@),
                prev_index + n < u64::MAX,
                prev_index <= old_entries.len(),
                !old_view.conflicts_committed(prev_index, new),
                old_view.inv(),
                old_entries == old_view.entries,
                self@.entries == merge(old_entries, prev_index as int, new.subrange(0, k as int)),
                self@.entries.len() >= prev_index + k,
                self@.entries.len() <= old_entries.len() || self@.entries.len() <= prev_index + k,
                self@.entries.len() >= old_view.commit_index,
                self@.entries.subrange(0, old_view.commit_index as int) == old_entries.subrange(
                    0,
                    old_view.commit_index as int,
                ),
                forall|i: int| 0 <= i < self.entries@.len() ==> #[trigger] self.entries@[i].index == i + 1,
                self.commit_index == old_view.commit_index,
                self.last_applied == old_view.last_applied,
                self.halted == old_view.halted,
                self.shard_id == old(self).shard_id,
            decreases n - k,
        {
            let idx = prev_index + k as u64 + 1;
            let ghost before = self.entries@;
            let ghost merged_before = self@.entries;
            proof {
                assert(new.subrange(0, k + 1).drop_last() =~= new.subrange(0, k as int));
                assert(new.subrange(0, k + 1).last() == new[k as int]);
            }
            let cur_len = self.entries.len() as u64;
            if idx <= cur_len {
                if self.entries[(idx - 1) as usize].term != new_entries[k].term {
                    if idx <= self.commit_index {
                        assert(merged_before.subrange(0, old_view.commit_index as int)[idx - 1]
                            == old_entries[idx - 1]);
                        assert(new[k as int].0 == old_entries[prev_index + k].0);
                    }
                    let payload = copy_payload(&new_entries[k].payload);
                    self.entries.truncate((idx - 1) as usize);
                    self.entries.push(LogEntry { term: new_entries[k].term, index: idx, payload });
                    assert(entries_view(self.entries@) =~= entries_view(before).subrange(
                        0,
                        idx - 1,
                    ).push(new[k as int]));
                    assert(self@.entries.subrange(0, old_view.commit_index as int)
                        =~= merged_before.subrange(0, old_view.commit_index as int));
                }
            } else {
                let payload = copy_payload(&new_entries[k].payload);
                self.entries.push(LogEntry { term: new_entries[k].term, index: idx, payload });
                assert(entries_view(self.entries@) =~= entries_view(before).push(new[k as int]));
                assert(self@.entries.subrange(0, old_view.commit_index as int)
                    =~= merged_before.subrange(0, old_view.commit_index as int));
            }
            k = k + 1;
        }
        assert(new.subrange(0, n as int) =~= new);
        let last_new = prev_index + n as u64;
        let target = if leader_commit < last_new {
            leader_commit
        } else {
            last_new
        };
        if target > self.commit_index {
            self.commit_index = target;
        }
        AppendOutcome { success: true, match_index: last_new }
    }

    /// Leader side: advances the commit index to the largest index of the
    /// current `term` that a majority of `cluster_size` nodes holds, given
    /// the followers' match indexes. Returns the new commit index.
    pub fn advance_commit(&mut self, term: Term, matches: &Vec<LogIndex>, cluster_size: usize) -> (r:
        LogIndex)
        requires
            old(self).inv(),
        ensures
            final(self).inv(),
            final(self).shard_id == old(self).shard_id,
            final(self)@ == old(self)@.after_advance_commit(term, matches@, cluster_size as nat),
            r == final(self).commit_index,
            r >= old(self).commit_index,
    {
        let ghost v = self@;
        let len_us: usize = self.entries.len();
        let mut n: u64 = len_us as u64;
        proof {
            lemma_commit_target_at_least(v, term, matches@, cluster_size as nat, n as int);
        }
        while n > self.commit_index
            invariant
                self@ == v,
                self.inv(),
                self.shard_id == old(self).shard_id,
                *old(self) == *self,
                len_us == self.entries@.len(),
                n <= v.entries.len(),
                v.commit_target(term, matches@, cluster_size as nat, v.entries.len() as int)
                    == v.commit_target(term, matches@, cluster_size as nat, n as int),
            decreases n,
        {
            let at: usize = (n - 1) as usize;
            assert(at < self.entries@.len());
            if self.entries[at].term == term {
                let mut count: u64 = 0;
                let mut i: usize = 0;
                while i < matches.len()
                    invariant
                        i <= matches@.len(),
                        count == count_at_least(matches@.subrange(0, i as int), n as int),
                        count <= i,
                    decreases matches@.len() - i,
                {
                    assert(matches@.subrange(0, i + 1).drop_last() =~= matches@.subrange(0, i as int));
                    if matches[i] >= n {
                        count = count + 1;
                    }
                    i = i + 1;
                }
                assert(matches@.subrange(0, matches@.len() as int) =~= matches@);
                if (count as u128 + 1) * 2 > cluster_size as u128 {
                    self.commit_index = n;
                    return n;
                }
            }
            n = n - 1;
        }
        self.commit_index
    }

    /// The next committed index to apply, unless applying has halted.
    pub fn next_to_apply(&self) -> (r: Option<LogIndex>)
        requires
            self.inv(),
        ensures
            r == self@.next_to_apply(),
    {
        if !self.halted && self.last_applied < self.commit_index {
            Some(self.last_applied + 1)
        } else {
            None
        }
    }

    /// Records the storage layer's answer for entry `index`.
    pub fn record_apply(&mut self, index: LogIndex, ok: bool)
        requires
            old(self).inv(),
        ensures
            final(self).inv(),
            final(self).shard_id == old(self).shard_id,
            final(self).entries@ == old(self).entries@,
            final(self)@ == old(self)@.after_apply(index, ok),
    {
        if !self.halted && self.last_applied < self.commit_index && index == self.last_applied + 1 {
            if ok {
                self.last_applied = index;
            } else {
                self.halted = true;
            }
        }
    }

    /// The fields of an append for a follower whose next expected index is
    /// `next_index`: the position and term just before it, and copies of
    /// the entries from it to the end of the log.
    pub fn entries_from(&self, next_index: LogIndex) -> (r: (LogIndex, Term, Vec<LogEntry>))
        requires
            self.inv(),
            1 <= next_index <= self@.entries.len() + 1,
        ensures
            r.0 == next_index - 1,
            r.1 == (if next_index == 1 {
                0
            } else {
                self@.entries[next_index - 2].0
            }),
            entries_view(r.2@) == self@.entries.subrange(next_index - 1, self@.entries.len() as int),
            forall|i: int| 0 <= i < r.2@.len() ==> #[trigger] r.2@[i].index == next_index + i,
    {
        let prev = next_index - 1;
        let prev_term = if prev == 0 {
            0
        } else {
            self.entries[(prev - 1) as usize].term
        };
        let mut out: Vec<LogEntry> = Vec::new();
        let len_us: usize = self.entries.len();
        assert(prev <= len_us);
        let mut i: usize = prev as usize;
        assert(entries_view(out@) =~= self@.entries.subrange(prev as int, i as int));
        while i < self.entries.len()
            invariant
                self.inv(),
                prev <= i <= self.entries@.len(),
                prev == next_index - 1,
                entries_view(out@) == self@.entries.subrange(prev as int, i as int),
                forall|j: int| 0 <= j < out@.len() ==> #[trigger] out@[j].index == next_index + j,
                out@.len() == i - prev,
            decreases self.entries@.len() - i,
        {
            let payload = copy_payload(&self.entries[i].payload);
            let ghost before = out@;
            out.push(LogEntry { term: self.entries[i].term, index: self.entries[i].index, payload });
            assert(entries_view(out@) =~= entries_view(before).push(self@.entries[i as int]));
            assert(self@.entries.subrange(prev as int, i + 1) =~= self@.entries.subrange(
                prev as int,
                i as int,
            ).push(self@.entries[i as int]));
            i = i + 1;
        }
        (prev, prev_term, out)
    }
}

/// What the leader knows of one follower's log.
#[derive(Debug, Clone, Copy, PartialEq, Eq, Structural)]
pub struct FollowerProgress {
    pub peer_id: crate::PeerId,
    /// Index of the next entry to send.
    pub next_index: LogIndex,
    /// Highest index known to match the leader's log.
    pub match_index: LogIndex,
}

impl FollowerProgress {
    /// A follower of a leader whose log ends at `last_index`: entries are
    /// first offered from just after it, and nothing is known to match.
    pub fn new(peer_id: crate::PeerId, last_index: LogIndex) -> (r: FollowerProgress)
        requires
            last_index < u64::MAX,
        ensures
            r == (FollowerProgress { peer_id, next_index: (last_index + 1) as LogIndex, match_index: 0 }),
    {
        FollowerProgress { peer_id, next_index: last_index + 1, match_index: 0 }
    }

    /// The progress after the follower's answer to an append. On success
    /// the match index only grows and the next index follows it; on failure
    /// the next index moves back, to just after the index the follower
    /// confirmed when that is earlier, and never below 1.
    pub open spec fn after_ack(self, outcome: AppendOutcome) -> FollowerProgress {
        if outcome.success {
            let m = if outcome.match_index > self.match_index {
                outcome.match_index
            } else {
                self.match_index
            };
            FollowerProgress {
                match_index: m,
                next_index: if m < u64::MAX {
                    (m + 1) as LogIndex
                } else {
                    m
                },
                ..self
            }
        } else {
            let back = if self.next_index > 1 {
                (self.next_index - 1) as LogIndex
            } else {
                1
            };
            FollowerProgress {
                next_index: if outcome.match_index < back {
                    (outcome.match_index + 1) as LogIndex
                } else {
                    back
                },
                ..self
            }
        }
    }

    /// Handles the follower's answer to an append (see `after_ack`).
    pub fn on_append_ack(&mut self, outcome: AppendOutcome)
        requires
            old(self).next_index >= 1,
        ensures
            *final(self) == old(self).after_ack(outcome),
            final(self).next_index >= 1,
    {
        if outcome.success {
            if outcome.match_index > self.match_index {
                self.match_index = outcome.match_index;
            }
            self.next_index = if self.match_index < u64::MAX {
                self.match_index + 1
            } else {
                self.match_index
            };
        } else {
            let back = if self.next_index > 1 {
                self.next_index - 1
            } else {
                1
            };
            self.next_index = if outcome.match_index < back {
                outcome.match_index + 1
            } else {
                back
            };
        }
    }
}

} // verus!
