//! The change feed: a stream in the server whose entry identifiers carry the revisions.

use crate::change::{ChangeCursor, ChangeFilter, ChangeModel, ChangeOperation, StoreChange};
use crate::error::{Error, ErrorModel, Outcome, Result};
use crate::text::{decimal, first_index, i64_of, parse_i64, parse_u64, split_once, str_eq, u64_of};
use crate::utils::ttl::{CALENDAR_END, CALENDAR_START};
use vstd::prelude::*;
#[allow(unused_imports)]
use vstd::string::*;

verus! {

/// How many changes the stream keeps.
pub const CHANGE_RETENTION: usize = 10_000;

/// The key of the stream.
pub const CHANGE_STREAM_KEY: &'static str = "__openkeyv_changefeed_stream";

/// The key of the revision counter.
pub const CHANGE_REVISION_KEY: &'static str = "__openkeyv_changefeed_revision";

/// The cursor before every change.
pub const FIRST_CURSOR: &'static str = "0-0";

/// The byte of `-`.
const DASH: u8 = 45;

/// Whether a key belongs to the feed and to no collection.
pub open spec fn internal_key(key: Seq<char>) -> bool {
    key == CHANGE_STREAM_KEY@ || key == CHANGE_REVISION_KEY@
}

/// Whether a key belongs to the feed and to no collection.
pub fn is_internal_key(key: &str) -> (internal: bool)
    ensures
        internal == internal_key(key@),
{
    str_eq(key, CHANGE_STREAM_KEY) || str_eq(key, CHANGE_REVISION_KEY)
}

/// The revision that a cursor names: a number, a dash and a zero.
pub open spec fn revision_of(cursor: Seq<char>) -> Outcome<u64> {
    let dash = first_index(cursor, '-') as int;
    if dash < cursor.len() && cursor.skip(dash + 1) == "0"@ && u64_of(cursor.take(dash)) is Some {
        Ok(u64_of(cursor.take(dash))->Some_0)
    } else {
        Err(ErrorModel::InvalidChangeCursor(cursor))
    }
}

/// The revision that a cursor names.
pub fn cursor_revision(cursor: &str) -> (revision: Result<u64>)
    ensures
        match revision {
            Ok(r) => revision_of(cursor@) == Ok::<_, ErrorModel>(r),
            Err(e) => revision_of(cursor@) == Err::<u64, _>(e@),
        },
{
    match split_once(cursor, DASH) {
        Some((number, sequence)) => if !str_eq(sequence, "0") {
            Err(Error::InvalidChangeCursor(cursor.to_owned()))
        } else {
            match parse_u64(number) {
                Some(revision) => Ok(revision),
                None => Err(Error::InvalidChangeCursor(cursor.to_owned())),
            }
        },
        None => Err(Error::InvalidChangeCursor(cursor.to_owned())),
    }
}

/// `chrono::DateTime::from_timestamp_millis` gives a time exactly for the numbers of
/// milliseconds from `DateTime::<Utc>::MIN_UTC` to `DateTime::<Utc>::MAX_UTC`.
#[verifier::external_body]
fn in_calendar(millis: i64) -> (inside: bool)
    ensures
        inside == (CALENDAR_START <= millis <= CALENDAR_END),
{
    chrono::DateTime::from_timestamp_millis(millis).is_some()
}

/// An entry of the stream: its identifier and those of its fields that could be read.
#[derive(Debug, PartialEq, Eq)]
pub struct StreamEntry {
    pub id: String,
    pub revision: Option<u64>,
    pub collection: Option<String>,
    pub key: Option<String>,
    pub operation: Option<String>,
    pub occurred_at: Option<String>,
}

/// The operation that a field names.
pub open spec fn operation_of(field: Option<String>) -> Option<ChangeOperation> {
    match field {
        Some(name) => if name@ == "put"@ {
            Some(ChangeOperation::Put)
        } else if name@ == "delete"@ {
            Some(ChangeOperation::Delete)
        } else {
            None
        },
        None => None,
    }
}

/// The time that a field gives in milliseconds since the epoch.
pub open spec fn time_of(field: Option<String>) -> Option<i64> {
    match field {
        Some(text) => match i64_of(text@) {
            Some(millis) if CALENDAR_START <= millis <= CALENDAR_END => Some(millis),
            _ => None,
        },
        None => None,
    }
}

/// The change that an entry of the stream describes.
pub open spec fn change_of(entry: StreamEntry) -> Outcome<ChangeModel> {
    let operation = operation_of(entry.operation);
    let occurred_at = time_of(entry.occurred_at);
    if entry.revision is None || entry.collection is None || entry.key is None || operation is None
        || occurred_at is None {
        Err(ErrorModel::CorruptedData)
    } else {
        Ok(
            ChangeModel {
                cursor: entry.id@,
                revision: entry.revision->Some_0,
                collection: entry.collection->Some_0@,
                key: entry.key->Some_0@,
                operation: operation->Some_0,
                occurred_at: occurred_at->Some_0,
            },
        )
    }
}

fn read_operation(field: &Option<String>) -> (operation: Option<ChangeOperation>)
    ensures
        operation == operation_of(*field),
{
    proof {
        reveal_strlit("put");
        reveal_strlit("delete");
    }
    match field {
        Some(name) => if str_eq(name.as_str(), "put") {
            Some(ChangeOperation::Put)
        } else if str_eq(name.as_str(), "delete") {
            Some(ChangeOperation::Delete)
        } else {
            None
        },
        None => None,
    }
}

fn read_time(field: &Option<String>) -> (time: Option<i64>)
    ensures
        time == time_of(*field),
{
    match field {
        Some(text) => match parse_i64(text.as_str()) {
            Some(millis) => if in_calendar(millis) {
                Some(millis)
            } else {
                None
            },
            None => None,
        },
        None => None,
    }
}

/// The change that an entry of the stream describes.
pub fn stream_change(entry: &StreamEntry) -> (change: Result<StoreChange>)
    ensures
        match change {
            Ok(c) => change_of(*entry) == Ok::<_, ErrorModel>(c@),
            Err(e) => change_of(*entry) == Err::<ChangeModel, _>(e@),
        },
{
    let operation = read_operation(&entry.operation);
    let occurred_at = read_time(&entry.occurred_at);
    match (entry.revision, &entry.collection, &entry.key, operation, occurred_at) {
        (Some(revision), Some(collection), Some(key), Some(operation), Some(occurred_at)) => Ok(
            StoreChange {
                cursor: ChangeCursor::new(entry.id.as_str()),
                revision,
                collection: collection.clone(),
                key: key.clone(),
                operation,
                occurred_at,
            },
        ),
        _ => Err(Error::CorruptedData),
    }
}

/// The successor of a revision, as far as there is one.
pub open spec fn next_revision(revision: u64) -> u64 {
    if revision == u64::MAX {
        revision
    } else {
        (revision + 1) as u64
    }
}

fn following(revision: u64) -> (next: u64)
    ensures
        next == next_revision(revision),
{
    if revision == u64::MAX {
        revision
    } else {
        revision + 1
    }
}

/// Why a subscription cannot start behind a cursor, given the identifiers of the last and the
/// first entry of the stream.
pub open spec fn after_fault(
    cursor: Seq<char>,
    last: Option<Seq<char>>,
    first: Option<Seq<char>>,
) -> Option<ErrorModel> {
    match (revision_of(cursor), last) {
        (Err(e), _) => Some(e),
        (Ok(requested), None) => if requested == 0 {
            None
        } else {
            Some(ErrorModel::InvalidChangeCursor(cursor))
        },
        (Ok(requested), Some(last)) => match revision_of(last) {
            Err(e) => Some(e),
            Ok(newest) => if requested > newest {
                Some(ErrorModel::InvalidChangeCursor(cursor))
            } else {
                match first {
                    None => None,
                    Some(first) => match revision_of(first) {
                        Err(e) => Some(e),
                        Ok(oldest) => if oldest > next_revision(requested) {
                            Some(
                                ErrorModel::ChangeCursorExpired {
                                    requested: cursor,
                                    oldest: first,
                                },
                            )
                        } else {
                            None
                        },
                    },
                }
            },
        },
    }
}

/// A cursor from which a subscription starts has not been overtaken: the stream has come that far,
/// and its first entry is at most the next one, so that no change behind the cursor is missing.
pub proof fn law_accepted_cursor_loses_nothing(
    cursor: Seq<char>,
    last: Seq<char>,
    first: Seq<char>,
)
    requires
        after_fault(cursor, Some(last), Some(first)) is None,
    ensures
        revision_of(cursor) is Ok,
        revision_of(last) is Ok,
        revision_of(first) is Ok,
        revision_of(first)->Ok_0 <= revision_of(cursor)->Ok_0 + 1,
        revision_of(cursor)->Ok_0 <= revision_of(last)->Ok_0,
{
}

/// The text of an optional identifier.
pub open spec fn id_model(id: Option<&str>) -> Option<Seq<char>> {
    match id {
        Some(text) => Some(text@),
        None => None,
    }
}

/// Checks that a subscription can start behind a cursor: that the stream has come that far and
/// still holds every change behind it.
pub fn validate_after_cursor(cursor: &str, last: Option<&str>, first: Option<&str>) -> (result:
    Result<()>)
    ensures
        match result {
            Ok(_) => after_fault(cursor@, id_model(last), id_model(first)) is None,
            Err(e) => after_fault(cursor@, id_model(last), id_model(first)) == Some(e@),
        },
{
    let requested: u64 = cursor_revision(cursor)?;
    match last {
        None => {
            return if requested == 0 {
                Ok(())
            } else {
                Err(Error::InvalidChangeCursor(cursor.to_owned()))
            };
        },
        Some(last) => {
            let newest: u64 = cursor_revision(last)?;
            if requested > newest {
                return Err(Error::InvalidChangeCursor(cursor.to_owned()));
            }
        },
    }
    match first {
        None => Ok(()),
        Some(first) => {
            let oldest: u64 = cursor_revision(first)?;
            if oldest > following(requested) {
                Err(
                    Error::ChangeCursorExpired {
                        requested: cursor.to_owned(),
                        oldest: first.to_owned(),
                    },
                )
            } else {
                Ok(())
            }
        },
    }
}

/// Whether the first entry of the stream must be known to judge a cursor, given the identifier of
/// the last entry.
pub fn needs_first_entry(cursor: &str, last: Option<&str>) -> (needed: Result<bool>)
    ensures
        match needed {
            Ok(b) => after_fault(cursor@, id_model(last), None) is None && b == last.is_some(),
            Err(e) => after_fault(cursor@, id_model(last), None) == Some(e@),
        },
{
    validate_after_cursor(cursor, last, None)?;
    Ok(last.is_some())
}

/// What is wrong with a cursor by itself or by the last entry is wrong whatever the first entry is,
/// and the first entry of an empty stream does not matter.
pub proof fn law_first_entry_judged_last(
    cursor: Seq<char>,
    last: Option<Seq<char>>,
    first: Option<Seq<char>>,
)
    ensures
        revision_of(cursor) matches Err(e) ==> after_fault(cursor, last, first) == Some(e),
        after_fault(cursor, last, None) is Some || last is None ==> after_fault(cursor, last, first)
            == after_fault(cursor, last, None),
{
}

/// A subscriber's place in the stream.
#[derive(Debug, PartialEq, Eq)]
pub struct RedisChangeStream {
    pub cursor: String,
    pub last_revision: Option<u64>,
    pub filter: ChangeFilter,
}

/// The model of a subscriber's place.
#[verifier::ext_equal]
pub struct FeedModel {
    pub cursor: Seq<char>,
    pub last: Option<u64>,
}

/// The place behind an entry and the change in it; an error where the entry cannot be read or
/// changes before it are missing.
pub open spec fn heard(place: FeedModel, entry: StreamEntry) -> Outcome<(FeedModel, ChangeModel)> {
    match change_of(entry) {
        Err(e) => Err(e),
        Ok(change) => if place.last is Some && change.revision > next_revision(
            place.last->Some_0,
        ) {
            Err(ErrorModel::ChangeCursorExpired { requested: place.cursor, oldest: entry.id@ })
        } else {
            Ok((FeedModel { cursor: entry.id@, last: Some(change.revision) }, change))
        },
    }
}

/// Where the first `n` entries lead, up to the first change that is wanted or the first error.
pub open spec fn fed(
    place: FeedModel,
    entries: Seq<StreamEntry>,
    filter: ChangeFilter,
    n: nat,
) -> (FeedModel, Option<Outcome<ChangeModel>>)
    decreases n,
{
    if n == 0 {
        (place, None)
    } else {
        let (before, found) = fed(place, entries, filter, (n - 1) as nat);
        if found is Some {
            (before, found)
        } else {
            match heard(before, entries[n - 1]) {
                Err(e) => (before, Some(Err(e))),
                Ok((behind, change)) => if filter.wants(change) {
                    (behind, Some(Ok(change)))
                } else {
                    (behind, None)
                },
            }
        }
    }
}

proof fn lemma_fed_stops(
    place: FeedModel,
    entries: Seq<StreamEntry>,
    filter: ChangeFilter,
    k: nat,
    n: nat,
)
    requires
        k <= n,
        fed(place, entries, filter, k).1 is Some,
    ensures
        fed(place, entries, filter, n) == fed(place, entries, filter, k),
    decreases n,
{
    if k < n {
        lemma_fed_stops(place, entries, filter, k, (n - 1) as nat);
    }
}

proof fn lemma_fed_front(
    place: FeedModel,
    a: Seq<StreamEntry>,
    b: Seq<StreamEntry>,
    filter: ChangeFilter,
    n: nat,
)
    requires
        n <= a.len(),
    ensures
        fed(place, a + b, filter, n) == fed(place, a, filter, n),
    decreases n,
{
    if n > 0 {
        lemma_fed_front(place, a, b, filter, (n - 1) as nat);
        assert((a + b)[n - 1] == a[n - 1]);
    }
}

/// How the server cuts the stream into batches makes no difference to a subscriber: a batch in
/// which nothing was found, and then another, lead where the two lead as one.
pub proof fn law_batches_compose(
    place: FeedModel,
    a: Seq<StreamEntry>,
    b: Seq<StreamEntry>,
    filter: ChangeFilter,
)
    requires
        fed(place, a, filter, a.len()).1 is None,
    ensures
        fed(place, a + b, filter, (a + b).len()) == fed(
            fed(place, a, filter, a.len()).0,
            b,
            filter,
            b.len(),
        ),
{
    lemma_batches_compose(place, a, b, filter, b.len());
}

proof fn lemma_batches_compose(
    place: FeedModel,
    a: Seq<StreamEntry>,
    b: Seq<StreamEntry>,
    filter: ChangeFilter,
    n: nat,
)
    requires
        fed(place, a, filter, a.len()).1 is None,
        n <= b.len(),
    ensures
        fed(place, a + b, filter, a.len() + n) == fed(
            fed(place, a, filter, a.len()).0,
            b,
            filter,
            n,
        ),
    decreases n,
{
    lemma_fed_front(place, a, b, filter, a.len());
    if n > 0 {
        lemma_batches_compose(place, a, b, filter, (n - 1) as nat);
        assert((a + b)[a.len() + n - 1] == b[n - 1]);
    }
}

/// A subscriber who has heard revision `last` never passes over revision `last + 1`: the next
/// entry is at most that one, or the subscriber is told of the gap.
pub proof fn law_no_silent_gap(place: FeedModel, entry: StreamEntry)
    requires
        place.last is Some,
    ensures
        heard(place, entry) matches Ok((behind, change)) ==> change.revision <= place.last->Some_0
            + 1 && behind.last == Some(change.revision) && behind.cursor == change.cursor,
        (change_of(entry) matches Ok(change) && change.revision > place.last->Some_0 + 1)
            ==> heard(place, entry) == Err::<(FeedModel, ChangeModel), _>(
            ErrorModel::ChangeCursorExpired { requested: place.cursor, oldest: entry.id@ },
        ),
{
}

impl RedisChangeStream {
    /// The subscriber's place.
    pub open spec fn place(&self) -> FeedModel {
        FeedModel { cursor: self.cursor@, last: self.last_revision }
    }

    /// A subscriber before every change.
    pub fn from_beginning(filter: ChangeFilter) -> (stream: Self)
        ensures
            stream.place() == (FeedModel { cursor: FIRST_CURSOR@, last: None }),
            stream.filter == filter,
    {
        RedisChangeStream { cursor: FIRST_CURSOR.to_owned(), last_revision: None, filter }
    }

    /// A subscriber behind a cursor that is known to lie in the stream.
    fn behind(cursor: &str, filter: ChangeFilter) -> (stream: Result<Self>)
        ensures
            match stream {
                Ok(s) => revision_of(cursor@) is Ok && s.place() == (FeedModel {
                    cursor: cursor@,
                    last: Some(revision_of(cursor@)->Ok_0),
                }) && s.filter == filter,
                Err(e) => revision_of(cursor@) == Err::<u64, _>(e@),
            },
    {
        let revision: u64 = cursor_revision(cursor)?;
        Ok(RedisChangeStream { cursor: cursor.to_owned(), last_revision: Some(revision), filter })
    }

    /// A subscriber behind the last entry of the stream, of which the identifier is given; before
    /// every change where the stream is empty.
    pub fn from_latest(last: Option<&str>, filter: ChangeFilter) -> (stream: Result<Self>)
        ensures
            ({
                let cursor = match last {
                    Some(id) => id@,
                    None => FIRST_CURSOR@,
                };
                match stream {
                    Ok(s) => revision_of(cursor) is Ok && s.place() == (FeedModel {
                        cursor,
                        last: Some(revision_of(cursor)->Ok_0),
                    }) && s.filter == filter,
                    Err(e) => revision_of(cursor) == Err::<u64, _>(e@),
                }
            }),
    {
        match last {
            Some(id) => RedisChangeStream::behind(id, filter),
            None => RedisChangeStream::behind(FIRST_CURSOR, filter),
        }
    }

    /// A subscriber behind a given cursor, which is checked against the last and the first entry
    /// of the stream.
    pub fn from_cursor(
        cursor: &str,
        last: Option<&str>,
        first: Option<&str>,
        filter: ChangeFilter,
    ) -> (stream: Result<Self>)
        ensures
            match stream {
                Ok(s) => after_fault(cursor@, id_model(last), id_model(first)) is None
                    && s.place() == (FeedModel {
                    cursor: cursor@,
                    last: Some(revision_of(cursor@)->Ok_0),
                }) && s.filter == filter,
                Err(e) => after_fault(cursor@, id_model(last), id_model(first)) == Some(e@),
            },
    {
        validate_after_cursor(cursor, last, first)?;
        RedisChangeStream::behind(cursor, filter)
    }

    /// Goes through a batch of entries up to the first change that is wanted.
    ///
    /// The rest of the batch is left: the server sends it again behind the new cursor.
    pub fn advance(&mut self, entries: &Vec<StreamEntry>) -> (change: Result<Option<StoreChange>>)
        ensures
            final(self).filter == old(self).filter,
            ({
                let (behind, found) = fed(
                    old(self).place(),
                    entries@,
                    old(self).filter,
                    entries@.len(),
                );
                &&& final(self).place() == behind
                &&& match change {
                    Ok(Some(c)) => found == Some(Ok::<_, ErrorModel>(c@)),
                    Ok(None) => found is None,
                    Err(e) => found == Some(Err::<ChangeModel, _>(e@)),
                }
            }),
    {
        let ghost start = self.place();
        let ghost filter = self.filter;
        let mut i: usize = 0;
        while i < entries.len()
            invariant
                i <= entries@.len(),
                start == old(self).place(),
                filter == old(self).filter,
                self.filter == filter,
                fed(start, entries@, filter, i as nat) == (
                    self.place(),
                    None::<Outcome<ChangeModel>>,
                ),
            decreases entries@.len() - i,
        {
            let entry = &entries[i];
            proof {
                if fed(start, entries@, filter, (i + 1) as nat).1 is Some {
                    lemma_fed_stops(start, entries@, filter, (i + 1) as nat, entries@.len());
                }
            }
            let change = stream_change(entry)?;
            if let Some(last) = self.last_revision {
                if change.revision > following(last) {
                    return Err(
                        Error::ChangeCursorExpired {
                            requested: self.cursor.clone(),
                            oldest: entry.id.clone(),
                        },
                    );
                }
            }
            self.cursor = entry.id.clone();
            self.last_revision = Some(change.revision);
            if self.filter.matches(&change) {
                return Ok(Some(change));
            }
            i += 1;
        }
        Ok(None)
    }
}

/// The cursor of a revision is its number, a dash and a zero, and reads back as the revision.
pub proof fn law_cursor_of_revision(revision: u64)
    ensures
        revision_of(decimal(revision as nat) + seq!['-', '0']) == Ok::<_, ErrorModel>(revision),
{
    let number = decimal(revision as nat);
    let cursor = number + seq!['-', '0'];
    crate::text::lemma_decimal_canonical(revision as nat);
    crate::text::lemma_u64_of_decimal(revision);
    assert forall|i: int| 0 <= i < number.len() implies cursor[i] != '-' by {
        assert(crate::text::is_digit(number[i]));
    }
    crate::text::lemma_first_index_is(cursor, '-', number.len() as int);
    reveal_strlit("0");
    assert(cursor.take(number.len() as int) =~= number);
    assert(cursor.skip(number.len() as int + 1) =~= "0"@);
}

/// A cursor that is read is a number before a dash and a zero; any other text is an invalid cursor.
pub proof fn law_cursor_shape(cursor: Seq<char>)
    ensures
        match revision_of(cursor) {
            Ok(revision) => exists|number: Seq<char>|
                cursor == number + seq!['-', '0'] && #[trigger] u64_of(number) == Some(revision),
            Err(e) => e == ErrorModel::InvalidChangeCursor(cursor),
        },
{
    if let Ok(revision) = revision_of(cursor) {
        crate::text::lemma_first_index(cursor, '-');
        let dash = first_index(cursor, '-') as int;
        reveal_strlit("0");
        let number = cursor.take(dash);
        assert(cursor =~= number + seq!['-'] + cursor.skip(dash + 1));
        assert(cursor =~= number + seq!['-', '0']);
    }
}

/// An entry of the stream is the change of its fields, under its identifier, exactly where all are
/// there, the operation is `put` or `delete` and the time lies within the calendar; otherwise the
/// data is corrupted.
pub proof fn law_stream_change(entry: StreamEntry)
    ensures
        match change_of(entry) {
            Ok(change) => {
                &&& change.cursor == entry.id@
                &&& entry.revision == Some(change.revision)
                &&& (entry.collection matches Some(c) && c@ == change.collection)
                &&& (entry.key matches Some(k) && k@ == change.key)
                &&& (entry.operation matches Some(o) && o@ == match change.operation {
                    ChangeOperation::Put => "put"@,
                    ChangeOperation::Delete => "delete"@,
                })
                &&& (entry.occurred_at matches Some(t) && i64_of(t@) == Some(change.occurred_at))
                &&& CALENDAR_START <= change.occurred_at <= CALENDAR_END
            },
            Err(e) => {
                &&& e is CorruptedData
                &&& {
                    ||| entry.revision is None
                    ||| entry.collection is None
                    ||| entry.key is None
                    ||| entry.operation is None
                    ||| entry.operation->0@ != "put"@ && entry.operation->0@ != "delete"@
                    ||| entry.occurred_at is None
                    ||| i64_of(entry.occurred_at->0@) is None
                    ||| !(CALENDAR_START <= i64_of(entry.occurred_at->0@)->0 <= CALENDAR_END)
                }
            },
        },
{
}

/// A subscription starts behind a cursor exactly where nothing behind it can have been lost: the
/// stream is empty and the cursor is before every change, or the stream has come as far as the
/// cursor and its first entry is at most the next one.
pub proof fn law_cursor_accepted(
    cursor: Seq<char>,
    last: Option<Seq<char>>,
    first: Option<Seq<char>>,
)
    ensures
        after_fault(cursor, last, first) is None <==> (revision_of(cursor) matches Ok(requested) && (
        match last {
            None => requested == 0,
            Some(l) => (revision_of(l) matches Ok(newest) && requested <= newest) && (first matches Some(
                f,
            ) ==> (revision_of(f) matches Ok(oldest) && oldest <= requested + 1)),
        })),
{
    if let Some(f) = first {
        if let Ok(oldest) = revision_of(f) {
            assert(oldest <= u64::MAX);
        }
    }
}

/// The place behind the first `k` entries.
pub open spec fn reached(place: FeedModel, entries: Seq<StreamEntry>, k: int) -> FeedModel {
    if k == 0 {
        place
    } else {
        FeedModel { cursor: entries[k - 1].id@, last: entries[k - 1].revision }
    }
}

/// Whether the first `k` entries are all readable and unwanted.
pub open spec fn unwanted(entries: Seq<StreamEntry>, filter: ChangeFilter, k: int) -> bool {
    forall|i: int|
        0 <= i < k ==> (change_of(#[trigger] entries[i]) matches Ok(c) && !filter.wants(c))
}

/// Going through a batch delivers the first change that passes the filter and leaves the subscriber
/// right behind it; where none passes, behind the batch. Up to there every entry is readable and
/// unwanted. An entry that cannot be read, or before which changes are missing, ends it with an
/// error and leaves the subscriber before that entry.
pub proof fn law_fed(place: FeedModel, entries: Seq<StreamEntry>, filter: ChangeFilter, n: nat)
    requires
        n <= entries.len(),
    ensures
        ({
            let (behind, found) = fed(place, entries, filter, n);
            match found {
                None => unwanted(entries, filter, n as int) && behind == reached(
                    place,
                    entries,
                    n as int,
                ),
                Some(Ok(change)) => exists|k: int|
                    {
                        &&& 0 <= k < n
                        &&& #[trigger] unwanted(entries, filter, k)
                        &&& change_of(entries[k]) == Ok::<_, ErrorModel>(change)
                        &&& filter.wants(change)
                        &&& behind == reached(place, entries, k + 1)
                    },
                Some(Err(e)) => exists|k: int|
                    {
                        &&& 0 <= k < n
                        &&& #[trigger] unwanted(entries, filter, k)
                        &&& behind == reached(place, entries, k)
                        &&& match change_of(entries[k]) {
                            Err(fault) => e == fault,
                            Ok(change) => e is ChangeCursorExpired && behind.last is Some
                                && change.revision > behind.last->0 + 1,
                        }
                    },
            }
        }),
    decreases n,
{
    if n > 0 {
        let m = (n - 1) as nat;
        law_fed(place, entries, filter, m);
        let (before, earlier) = fed(place, entries, filter, m);
        let (behind, found) = fed(place, entries, filter, n);
        if earlier is None {
            assert(unwanted(entries, filter, m as int));
            law_stream_change(entries[m as int]);
        } else if earlier->0 is Ok {
            let change = earlier->0->Ok_0;
            let k = choose|k: int|
                {
                    &&& 0 <= k < m
                    &&& #[trigger] unwanted(entries, filter, k)
                    &&& change_of(entries[k]) == Ok::<_, ErrorModel>(change)
                    &&& filter.wants(change)
                    &&& before == reached(place, entries, k + 1)
                };
            assert(unwanted(entries, filter, k));
        } else {
            let e = earlier->0->Err_0;
            let k = choose|k: int|
                {
                    &&& 0 <= k < m
                    &&& #[trigger] unwanted(entries, filter, k)
                    &&& before == reached(place, entries, k)
                    &&& match change_of(entries[k]) {
                        Err(fault) => e == fault,
                        Ok(change) => e is ChangeCursorExpired && before.last is Some
                            && change.revision > before.last->0 + 1,
                    }
                };
            assert(unwanted(entries, filter, k));
        }
    }
}

} // verus!
