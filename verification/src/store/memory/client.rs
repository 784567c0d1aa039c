//! The change log of a store in memory, and subscriptions to it.

use crate::change::{
    ChangeCursor, ChangeFilter, ChangeModel, ChangeOperation, ChangeStart, StoreChange,
};
use crate::error::{Error, ErrorModel, Outcome, Result};
use crate::text::{decimal, decimal_string, lemma_u64_of_decimal, parse_u64, u64_of};
use std::collections::VecDeque;
use vstd::prelude::*;
#[allow(unused_imports)]
use vstd::string::*;

verus! {

/// How many changes the log holds at most.
pub const CHANGE_RETENTION: usize = 10_000;

/// The newest changes of a store and how many there have been.
pub struct ChangeLog {
    revision: u64,
    entries: VecDeque<StoreChange>,
}

/// The model of [`ChangeLog`].
#[verifier::ext_equal]
pub struct LogModel {
    pub revision: u64,
    pub entries: Seq<ChangeModel>,
}

/// The models of a list of changes.
pub open spec fn changes_model(changes: Seq<StoreChange>) -> Seq<ChangeModel> {
    changes.map_values(|c: StoreChange| c@)
}

impl LogModel {
    /// The log holds the newest changes, numbered without gaps up to the revision; the
    /// cursor of a change is its number.
    pub open spec fn wf(self) -> bool {
        &&& self.entries.len() == if self.revision < CHANGE_RETENTION {
            self.revision as int
        } else {
            CHANGE_RETENTION as int
        }
        &&& forall|i: int|
            0 <= i < self.entries.len() ==> (#[trigger] self.entries[i]).revision == self.revision
                - self.entries.len() + 1 + i
        &&& forall|i: int|
            0 <= i < self.entries.len() ==> (#[trigger] self.entries[i]).cursor == decimal(
                self.entries[i].revision as nat,
            )
    }

    /// The change that comes next.
    pub open spec fn next_change(
        self,
        collection: Seq<char>,
        key: Seq<char>,
        operation: ChangeOperation,
        now: i64,
    ) -> ChangeModel {
        ChangeModel {
            cursor: decimal((self.revision + 1) as nat),
            revision: (self.revision + 1) as u64,
            collection,
            key,
            operation,
            occurred_at: now,
        }
    }

    /// The log after one more change; the oldest change leaves where the log is full. A log
    /// that has used up its numbers records nothing more.
    pub open spec fn recorded(
        self,
        collection: Seq<char>,
        key: Seq<char>,
        operation: ChangeOperation,
        now: i64,
    ) -> LogModel {
        if self.revision == u64::MAX {
            self
        } else {
            let kept = if self.entries.len() == CHANGE_RETENTION {
                self.entries.drop_first()
            } else {
                self.entries
            };
            LogModel {
                revision: (self.revision + 1) as u64,
                entries: kept.push(self.next_change(collection, key, operation, now)),
            }
        }
    }

    /// The log after the same operation on each of `keys`, in their order.
    pub open spec fn recorded_all(
        self,
        collection: Seq<char>,
        keys: Seq<Seq<char>>,
        operation: ChangeOperation,
        now: i64,
    ) -> LogModel
        decreases keys.len(),
    {
        if keys.len() == 0 {
            self
        } else {
            self.recorded_all(collection, keys.drop_last(), operation, now).recorded(
                collection,
                keys.last(),
                operation,
                now,
            )
        }
    }

    /// The changes with a number above `revision`.
    pub open spec fn after(self, revision: u64) -> Seq<ChangeModel> {
        self.entries.filter(|c: ChangeModel| c.revision > revision)
    }

    /// The number before the oldest change held.
    pub open spec fn horizon(self) -> int {
        self.revision - self.entries.len()
    }

    /// What a subscriber that starts at `start` is sent first.
    pub open spec fn replay(self, start: ChangeStart) -> Outcome<Seq<ChangeModel>> {
        match start {
            ChangeStart::Beginning => Ok(self.entries),
            ChangeStart::Latest => Ok(Seq::empty()),
            ChangeStart::After(cursor) => match u64_of(cursor@) {
                None => Err(ErrorModel::InvalidChangeCursor(cursor@)),
                Some(requested) => if requested > self.revision {
                    Err(ErrorModel::InvalidChangeCursor(cursor@))
                } else if requested < self.horizon() {
                    Err(
                        ErrorModel::ChangeCursorExpired {
                            requested: cursor@,
                            oldest: decimal((self.horizon() + 1) as nat),
                        },
                    )
                } else {
                    Ok(self.after(requested))
                },
            },
        }
    }
}

impl View for ChangeLog {
    type V = LogModel;

    closed spec fn view(&self) -> LogModel {
        LogModel { revision: self.revision, entries: changes_model(self.entries@) }
    }
}

/// Recording keeps the log well-formed.
pub proof fn law_recorded_wf(
    log: LogModel,
    collection: Seq<char>,
    key: Seq<char>,
    operation: ChangeOperation,
    now: i64,
)
    requires
        log.wf(),
    ensures
        log.recorded(collection, key, operation, now).wf(),
{
    let next = log.recorded(collection, key, operation, now);
    let full = log.entries.len() == CHANGE_RETENTION;
    assert forall|i: int| 0 <= i < next.entries.len() implies (#[trigger] next.entries[i]).revision
        == next.revision - next.entries.len() + 1 + i && next.entries[i].cursor == decimal(
        next.entries[i].revision as nat,
    ) by {
        if log.revision == u64::MAX {
            assert(next.entries[i] == log.entries[i]);
        } else if i < next.entries.len() - 1 {
            let j = if full {
                i + 1
            } else {
                i
            };
            assert(next.entries[i] == log.entries[j]);
        }
    }
}

/// Recording many changes keeps the log well-formed and advances the revision by their number.
pub proof fn law_recorded_all_wf(
    log: LogModel,
    collection: Seq<char>,
    keys: Seq<Seq<char>>,
    operation: ChangeOperation,
    now: i64,
)
    requires
        log.wf(),
    ensures
        log.recorded_all(collection, keys, operation, now).wf(),
        log.revision + keys.len() <= u64::MAX ==> log.recorded_all(
            collection,
            keys,
            operation,
            now,
        ).revision == log.revision + keys.len(),
    decreases keys.len(),
{
    if keys.len() > 0 {
        law_recorded_all_wf(log, collection, keys.drop_last(), operation, now);
        law_recorded_wf(
            log.recorded_all(collection, keys.drop_last(), operation, now),
            collection,
            keys.last(),
            operation,
            now,
        );
    }
}

/// A subscriber that resumes behind a change it was sent misses nothing and sees nothing
/// twice: it is sent exactly the changes that followed that one.
pub proof fn law_resume_is_exact(log: LogModel, i: int, cursor: ChangeCursor)
    requires
        log.wf(),
        0 <= i < log.entries.len(),
        cursor@ == log.entries[i].cursor,
    ensures
        log.replay(ChangeStart::After(cursor)) == Ok::<_, ErrorModel>(log.entries.skip(i + 1)),
{
    let at = log.entries[i].revision;
    lemma_u64_of_decimal(at);
    lemma_after(log, at);
    assert(at - log.horizon() == i + 1);
}

/// The changes above a revision that the log still reaches are a suffix of it.
pub proof fn lemma_after(log: LogModel, revision: u64)
    requires
        log.wf(),
        log.horizon() <= revision <= log.revision,
    ensures
        log.after(revision) == log.entries.skip(revision - log.horizon()),
{
    let keep = |c: ChangeModel| c.revision > revision;
    let n = revision - log.horizon();
    let head = log.entries.take(n);
    let tail = log.entries.skip(n);
    assert(log.entries =~= head + tail);
    Seq::filter_distributes_over_add(head, tail, keep);
    assert forall|i: int| 0 <= i < head.len() implies !keep(#[trigger] head[i]) by {
        assert(head[i] == log.entries[i]);
    }
    assert forall|i: int| 0 <= i < tail.len() implies keep(#[trigger] tail[i]) by {
        assert(tail[i] == log.entries[n + i]);
    }
    lemma_filter_none(head, keep);
    lemma_filter_all(tail, keep);
    assert(Seq::<ChangeModel>::empty() + tail =~= tail);
}

proof fn lemma_filter_none(s: Seq<ChangeModel>, keep: spec_fn(ChangeModel) -> bool)
    requires
        forall|i: int| 0 <= i < s.len() ==> !keep(#[trigger] s[i]),
    ensures
        s.filter(keep) == Seq::<ChangeModel>::empty(),
    decreases s.len(),
{
    reveal(Seq::filter);
    if s.len() > 0 {
        lemma_filter_none(s.drop_last(), keep);
        assert(!keep(s[s.len() - 1]));
    }
    assert(s.filter(keep) =~= Seq::<ChangeModel>::empty());
}

proof fn lemma_filter_all(s: Seq<ChangeModel>, keep: spec_fn(ChangeModel) -> bool)
    requires
        forall|i: int| 0 <= i < s.len() ==> keep(#[trigger] s[i]),
    ensures
        s.filter(keep) == s,
    decreases s.len(),
{
    reveal(Seq::filter);
    if s.len() > 0 {
        lemma_filter_all(s.drop_last(), keep);
        assert(keep(s[s.len() - 1]));
        assert(s.drop_last().push(s.last()) =~= s);
    }
    assert(s.filter(keep) =~= s);
}

impl ChangeLog {
    pub fn new() -> (log: Self)
        ensures
            log@ == (LogModel { revision: 0, entries: Seq::empty() }),
            log@.wf(),
    {
        let entries: VecDeque<StoreChange> = VecDeque::new();
        assert(changes_model(entries@) =~= Seq::empty());
        ChangeLog { revision: 0, entries }
    }

    /// The number of the newest change.
    pub fn revision(&self) -> (revision: u64)
        ensures
            revision == self@.revision,
    {
        self.revision
    }

    /// Records one change.
    pub fn record_change(
        &mut self,
        collection: &str,
        key: &str,
        operation: ChangeOperation,
        now: i64,
    )
        requires
            old(self)@.wf(),
        ensures
            final(self)@.wf(),
            final(self)@ == old(self)@.recorded(collection@, key@, operation, now),
    {
        let ghost before = self@;
        if self.revision == u64::MAX {
            return ;
        }
        let revision: u64 = self.revision + 1;
        let change = StoreChange {
            cursor: ChangeCursor::new(decimal_string(revision).as_str()),
            revision,
            collection: collection.to_owned(),
            key: key.to_owned(),
            operation,
            occurred_at: now,
        };
        if self.entries.len() == CHANGE_RETENTION {
            let _ = self.entries.pop_front();
        }
        self.entries.push_back(change);
        self.revision = revision;
        proof {
            law_recorded_wf(before, collection@, key@, operation, now);
            assert(self@.entries =~= before.recorded(collection@, key@, operation, now).entries);
        }
    }

    /// Records the same operation on each of `keys`, in their order.
    pub fn record_all(
        &mut self,
        collection: &str,
        keys: &Vec<String>,
        operation: ChangeOperation,
        now: i64,
    )
        requires
            old(self)@.wf(),
        ensures
            final(self)@.wf(),
            final(self)@ == old(self)@.recorded_all(
                collection@,
                crate::text::texts(keys@),
                operation,
                now,
            ),
    {
        let ghost before = self@;
        let ghost all = crate::text::texts(keys@);
        let mut i: usize = 0;
        proof {
            assert(all.take(0) =~= Seq::empty());
        }
        while i < keys.len()
            invariant
                i <= keys@.len(),
                all == crate::text::texts(keys@),
                before.wf(),
                self@.wf(),
                self@ == before.recorded_all(collection@, all.take(i as int), operation, now),
            decreases keys@.len() - i,
        {
            proof {
                law_recorded_all_wf(before, collection@, all.take(i as int), operation, now);
                assert(all.take(i + 1).drop_last() =~= all.take(i as int));
            }
            self.record_change(collection, keys[i].as_str(), operation, now);
            i += 1;
        }
        assert(all.take(i as int) =~= all);
    }

    /// The changes with a number above `revision` that the log still holds.
    pub fn changes_after(&self, revision: u64) -> (changes: VecDeque<StoreChange>)
        ensures
            changes_model(changes@) == self@.after(revision),
    {
        let ghost keep = |c: ChangeModel| c.revision > revision;
        let mut changes: VecDeque<StoreChange> = VecDeque::new();
        let mut i: usize = 0;
        proof {
            assert(self@.entries.take(0) =~= Seq::empty());
            lemma_filter_none(self@.entries.take(0), keep);
            assert(changes_model(changes@) =~= Seq::empty());
        }
        while i < self.entries.len()
            invariant
                i <= self.entries@.len(),
                keep == (|c: ChangeModel| c.revision > revision),
                changes_model(changes@) == self@.entries.take(i as int).filter(keep),
            decreases self.entries@.len() - i,
        {
            let ghost held = changes@;
            proof {
                reveal(Seq::filter);
                assert(self@.entries.take(i + 1).drop_last() =~= self@.entries.take(i as int));
                assert(self@.entries.take(i + 1).last() == self.entries@[i as int]@);
            }
            if self.entries[i].revision > revision {
                changes.push_back(self.entries[i].clone());
                assert(changes_model(changes@) =~= changes_model(held).push(
                    self.entries@[i as int]@,
                ));
            }
            i += 1;
        }
        assert(self@.entries.take(i as int) =~= self@.entries);
        changes
    }

    /// What a subscriber that starts at `start` is sent first.
    pub fn subscribe(&self, start: &ChangeStart) -> (replay: Result<VecDeque<StoreChange>>)
        requires
            self@.wf(),
        ensures
            match replay {
                Ok(changes) => self@.replay(*start) == Ok::<_, ErrorModel>(
                    changes_model(changes@),
                ),
                Err(e) => self@.replay(*start) == Err::<Seq<ChangeModel>, _>(e@),
            },
    {
        match start {
            ChangeStart::Beginning => {
                proof {
                    lemma_filter_all(self@.entries, |c: ChangeModel| c.revision > 0);
                }
                Ok(self.changes_after(0))
            },
            ChangeStart::Latest => {
                let none: VecDeque<StoreChange> = VecDeque::new();
                assert(changes_model(none@) =~= Seq::empty());
                Ok(none)
            },
            ChangeStart::After(cursor) => {
                let requested: u64 = match parse_u64(cursor.as_str()) {
                    Some(n) => n,
                    None => {
                        return Err(Error::InvalidChangeCursor(cursor.as_str().to_owned()));
                    },
                };
                if requested > self.revision {
                    return Err(Error::InvalidChangeCursor(cursor.as_str().to_owned()));
                }
                if self.entries.len() > 0 {
                    let oldest: u64 = self.entries[0].revision;
                    proof {
                        assert(self@.entries[0] == self.entries@[0]@);
                        assert(oldest == self@.horizon() + 1);
                    }
                    if requested < oldest - 1 {
                        return Err(
                            Error::ChangeCursorExpired {
                                requested: cursor.as_str().to_owned(),
                                oldest: decimal_string(oldest),
                            },
                        );
                    }
                }
                Ok(self.changes_after(requested))
            },
        }
    }
}

/// What a live subscription hears from its channel.
pub enum LiveEvent {
    Change(StoreChange),
    Closed,
    Lagged(u64),
}

/// The model of [`LiveEvent`].
pub enum LiveModel {
    Change(ChangeModel),
    Closed,
    Lagged(u64),
}

impl View for LiveEvent {
    type V = LiveModel;

    open spec fn view(&self) -> LiveModel {
        match self {
            LiveEvent::Change(c) => LiveModel::Change(c@),
            LiveEvent::Closed => LiveModel::Closed,
            LiveEvent::Lagged(n) => LiveModel::Lagged(*n),
        }
    }
}

/// What a subscription does next.
pub enum StreamStep {
    /// Hand this change to the subscriber.
    Deliver(StoreChange),
    /// Listen to the channel.
    Listen,
    /// The feed has ended.
    End,
    /// The subscriber missed changes.
    Fail(Error),
}

/// A subscription: what it still has to replay, and what it wants.
pub struct MemoryChangeStream {
    replay: VecDeque<StoreChange>,
    filter: ChangeFilter,
}

/// Whether `step` is what a live event leads to.
pub open spec fn answers_event(step: StreamStep, filter: ChangeFilter, event: LiveModel) -> bool {
    match event {
        LiveModel::Change(c) => if filter.wants(c) {
            step matches StreamStep::Deliver(d) && d@ == c
        } else {
            step is Listen
        },
        LiveModel::Closed => step is End,
        LiveModel::Lagged(skipped) => step matches StreamStep::Fail(e) && e@
            == (ErrorModel::ChangeFeedLagged { skipped }),
    }
}

/// Where the first wanted change is; the length where there is none.
pub open spec fn first_wanted(filter: ChangeFilter, changes: Seq<ChangeModel>) -> int
    decreases changes.len(),
{
    if changes.len() == 0 || filter.wants(changes[0]) {
        0
    } else {
        1 + first_wanted(filter, changes.drop_first())
    }
}

impl MemoryChangeStream {
    /// What is left to replay.
    pub closed spec fn pending(&self) -> Seq<ChangeModel> {
        changes_model(self.replay@)
    }

    /// What the subscriber wants.
    pub closed spec fn wanted(&self) -> ChangeFilter {
        self.filter
    }

    pub fn new(replay: VecDeque<StoreChange>, filter: ChangeFilter) -> (stream: Self)
        ensures
            stream.pending() == changes_model(replay@),
            stream.wanted() == filter,
    {
        MemoryChangeStream { replay, filter }
    }

    /// The next wanted change of the replay; `Listen` once there is none.
    pub fn advance(&mut self) -> (step: StreamStep)
        ensures
            final(self).wanted() == old(self).wanted(),
            ({
                let pending = old(self).pending();
                let n = first_wanted(old(self).wanted(), pending);
                match step {
                    StreamStep::Deliver(c) => {
                        &&& n < pending.len()
                        &&& c@ == pending[n]
                        &&& final(self).pending() == pending.skip(n + 1)
                    },
                    StreamStep::Listen => n == pending.len() && final(self).pending().len() == 0,
                    _ => false,
                }
            }),
    {
        let ghost start = self.pending();
        let ghost mut n: int = 0;
        proof {
            assert(start.skip(0) =~= start);
        }
        while self.replay.len() > 0
            invariant
                0 <= n <= start.len(),
                self.pending() == start.skip(n),
                self.wanted() == old(self).wanted(),
                start == old(self).pending(),
                first_wanted(self.wanted(), start) == n + first_wanted(
                    self.wanted(),
                    start.skip(n),
                ),
            decreases self.replay@.len(),
        {
            let ghost before = self.replay@;
            match self.replay.pop_front() {
                Some(change) => {
                    proof {
                        assert(changes_model(before) == start.skip(n));
                        assert(changes_model(before)[0] == before[0]@);
                        assert(self.replay@ =~= before.skip(1));
                        assert(changes_model(before.skip(1)) =~= changes_model(before).skip(1));
                        assert(start.skip(n).skip(1) =~= start.skip(n + 1));
                        assert(self.pending() =~= start.skip(n + 1));
                        assert(start.skip(n)[0] == change@);
                        assert(start.skip(n).drop_first() =~= start.skip(n + 1));
                    }
                    if self.filter.matches(&change) {
                        return StreamStep::Deliver(change);
                    }
                    proof {
                        n = n + 1;
                    }
                },
                None => {},
            }
        }
        StreamStep::Listen
    }

    /// What an event of the channel leads to.
    pub fn hear(&self, event: LiveEvent) -> (step: StreamStep)
        ensures
            answers_event(step, self.wanted(), event@),
    {
        match event {
            LiveEvent::Change(change) => if self.filter.matches(&change) {
                StreamStep::Deliver(change)
            } else {
                StreamStep::Listen
            },
            LiveEvent::Closed => StreamStep::End,
            LiveEvent::Lagged(skipped) => StreamStep::Fail(Error::ChangeFeedLagged { skipped }),
        }
    }
}

/// Recording a change adds it as the newest, under the next number, with its collection, key,
/// operation and time; of what was there only the oldest leaves, once ten thousand are held.
pub proof fn law_recorded_is_newest(
    log: LogModel,
    collection: Seq<char>,
    key: Seq<char>,
    operation: ChangeOperation,
    now: i64,
)
    requires
        log.wf(),
        log.revision < u64::MAX,
    ensures
        ({
            let after = log.recorded(collection, key, operation, now);
            let newest = after.entries.last();
            &&& after.revision == log.revision + 1
            &&& after.entries.len() > 0
            &&& newest.revision == after.revision
            &&& newest.collection == collection
            &&& newest.key == key
            &&& newest.operation == operation
            &&& newest.occurred_at == now
            &&& u64_of(newest.cursor) == Some(after.revision)
            &&& if log.entries.len() < 10_000 {
                after.entries.drop_last() == log.entries
            } else {
                log.entries.len() == 10_000 && after.entries.drop_last() == log.entries.skip(1)
            }
        }),
{
    let after = log.recorded(collection, key, operation, now);
    lemma_u64_of_decimal(after.revision);
    if log.entries.len() < 10_000 {
        assert(after.entries.drop_last() =~= log.entries);
    } else {
        assert(after.entries.drop_last() =~= log.entries.skip(1));
    }
}

/// Recording many changes records one for each key, in their order; what was recorded before keeps
/// its number and its content.
pub proof fn law_recorded_all_in_order(
    log: LogModel,
    collection: Seq<char>,
    keys: Seq<Seq<char>>,
    operation: ChangeOperation,
    now: i64,
    j: int,
)
    requires
        log.wf(),
        log.revision + keys.len() <= u64::MAX,
        0 <= j < log.recorded_all(collection, keys, operation, now).entries.len(),
    ensures
        ({
            let change = log.recorded_all(collection, keys, operation, now).entries[j];
            if change.revision > log.revision {
                &&& change.revision - log.revision <= keys.len()
                &&& change.key == keys[change.revision - log.revision - 1]
                &&& change.collection == collection
                &&& change.operation == operation
                &&& change.occurred_at == now
            } else {
                log.entries.contains(change)
            }
        }),
    decreases keys.len(),
{
    if keys.len() > 0 {
        let front = keys.drop_last();
        let before = log.recorded_all(collection, front, operation, now);
        let after = log.recorded_all(collection, keys, operation, now);
        law_recorded_all_wf(log, collection, front, operation, now);
        law_recorded_is_newest(before, collection, keys.last(), operation, now);
        if j < after.entries.len() - 1 {
            assert(after.entries.drop_last()[j] == after.entries[j]);
            let k = if before.entries.len() < 10_000 {
                j
            } else {
                j + 1
            };
            assert(after.entries[j] == before.entries[k]);
            law_recorded_all_in_order(log, collection, front, operation, now, k);
        }
    } else {
        assert(log.entries.contains(log.entries[j]));
    }
}

/// A subscriber that starts at the beginning is sent every change that is held; one that starts at
/// the newest is sent none of them.
pub proof fn law_replay_ends(log: LogModel)
    ensures
        log.replay(ChangeStart::Beginning) == Ok::<_, ErrorModel>(log.entries),
        log.replay(ChangeStart::Latest) == Ok::<_, ErrorModel>(Seq::<ChangeModel>::empty()),
{
}

/// A subscriber that resumes behind a number is sent each change above it, in order and with none
/// missing. It is refused exactly where the cursor is no number or lies ahead of the log, or where
/// a change above it is no longer held.
pub proof fn law_replay_after(log: LogModel, cursor: ChangeCursor)
    requires
        log.wf(),
    ensures
        match log.replay(ChangeStart::After(cursor)) {
            Ok(changes) => u64_of(cursor@) matches Some(n) && {
                &&& n <= log.revision
                &&& changes.len() == log.revision - n
                &&& forall|i: int|
                    0 <= i < changes.len() ==> (#[trigger] changes[i]).revision == n + 1 + i
                        && log.entries.contains(changes[i])
            },
            Err(e) => match u64_of(cursor@) {
                None => e == ErrorModel::InvalidChangeCursor(cursor@),
                Some(n) => if n > log.revision {
                    e == ErrorModel::InvalidChangeCursor(cursor@)
                } else {
                    &&& e matches ErrorModel::ChangeCursorExpired { requested, oldest } && requested
                        == cursor@ && (log.entries.len() > 0 ==> oldest == log.entries[0].cursor)
                    &&& forall|i: int|
                        0 <= i < log.entries.len() ==> (#[trigger] log.entries[i]).revision > n + 1
                    &&& n < log.revision
                },
            },
        },
{
    if let Some(n) = u64_of(cursor@) {
        if n <= log.revision && n >= log.horizon() {
            lemma_after(log, n);
            let skipped = (n - log.horizon()) as int;
            let changes = log.after(n);
            assert(changes == log.entries.skip(skipped));
            assert forall|i: int| 0 <= i < changes.len() implies (#[trigger] changes[i]).revision
                == n + 1 + i && log.entries.contains(changes[i]) by {
                assert(changes[i] == log.entries[skipped + i]);
            }
        }
    }
}

/// The next change that is delivered is the first one that passes the filter.
pub proof fn law_first_wanted(filter: ChangeFilter, changes: Seq<ChangeModel>)
    ensures
        0 <= first_wanted(filter, changes) <= changes.len(),
        forall|i: int|
            0 <= i < first_wanted(filter, changes) ==> !filter.wants(#[trigger] changes[i]),
        first_wanted(filter, changes) < changes.len() ==> filter.wants(
            changes[first_wanted(filter, changes)],
        ),
    decreases changes.len(),
{
    if changes.len() > 0 && !filter.wants(changes[0]) {
        let rest = changes.drop_first();
        law_first_wanted(filter, rest);
        assert forall|i: int| 0 <= i < first_wanted(filter, changes) implies !filter.wants(
            #[trigger] changes[i],
        ) by {
            if i > 0 {
                assert(rest[i - 1] == changes[i]);
            }
        }
    }
}

/// The changes of a list stand for their fields, one for each, in order.
pub proof fn law_changes(changes: Seq<StoreChange>, i: int)
    requires
        0 <= i < changes.len(),
    ensures
        changes_model(changes).len() == changes.len(),
        changes_model(changes)[i].cursor == changes[i].cursor@,
        changes_model(changes)[i].revision == changes[i].revision,
        changes_model(changes)[i].collection == changes[i].collection@,
        changes_model(changes)[i].key == changes[i].key@,
        changes_model(changes)[i].operation == changes[i].operation,
        changes_model(changes)[i].occurred_at == changes[i].occurred_at,
{
}

/// A live change is delivered exactly where it passes the filter; the end of the feed ends the
/// stream, and a subscriber that fell behind is told by how much.
pub proof fn law_live_events(
    step: StreamStep,
    filter: ChangeFilter,
    change: ChangeModel,
    skipped: u64,
)
    ensures
        answers_event(step, filter, LiveModel::Change(change)) ==> (step is Deliver <==> filter.wants(
            change,
        )) && (step is Listen <==> !filter.wants(change)) && (step matches StreamStep::Deliver(d)
            ==> d@ == change),
        answers_event(step, filter, LiveModel::Closed) ==> step is End,
        answers_event(step, filter, LiveModel::Lagged(skipped)) ==> (step matches StreamStep::Fail(e)
            && e@ == (ErrorModel::ChangeFeedLagged { skipped })),
{
}

} // verus!
