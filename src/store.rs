use vstd::prelude::*;

use crate::clock::{bucket_of, bucket_start, RESOLUTION};
use crate::log::{sort_by_time, sorted_by_time, Log};

verus! {

/// Why a store operation failed.
#[derive(Clone, Copy, Debug, PartialEq, Eq, Structural)]
pub enum StorageError {
    /// A row already exists for the channel and bucket.
    DuplicateKey,
    /// No row has the identifier.
    NotFound,
    /// The count of the row cannot grow any further.
    CountOverflow,
}

/// What the increment of a bucket asks of the store.
#[derive(Clone, Copy, Debug, PartialEq, Eq, Structural)]
pub enum IncrementAction {
    /// Overwrite the count of the row `id` with `count`.
    Update { id: u128, count: i32 },
    /// Create a row with a count of one for the channel and bucket.
    Create { channel_id: i64, time: i64 },
}

/// Whether a message by `author_id` is counted: messages of the excluded
/// author, the counting system's own identity, are not.
pub fn is_counted(author_id: u64, excluded_author_id: u64) -> (r: bool)
    ensures
        r == (author_id != excluded_author_id),
{
    author_id != excluded_author_id
}

/// The increment of the bucket `bucket_start` of channel `channel_id`, given
/// the row found for that key, if any.
pub open spec fn increment_plan(found: Option<Log>, channel_id: i64, bucket_start: i64) -> Result<
    IncrementAction,
    StorageError,
> {
    match found {
        Some(log) => if log.count < i32::MAX {
            Ok(IncrementAction::Update { id: log.id, count: (log.count + 1) as i32 })
        } else {
            Err(StorageError::CountOverflow)
        },
        None => Ok(IncrementAction::Create { channel_id, time: bucket_start }),
    }
}

/// Decides how to count one more message in a bucket: the row found for it
/// gets its count plus one, and where none was found a row is created.
pub fn plan_increment(found: Option<Log>, channel_id: i64, bucket_start: i64) -> (r: Result<
    IncrementAction,
    StorageError,
>)
    ensures
        r == increment_plan(found, channel_id, bucket_start),
{
    match found {
        Some(log) => if log.count < i32::MAX {
            Ok(IncrementAction::Update { id: log.id, count: log.count + 1 })
        } else {
            Err(StorageError::CountOverflow)
        },
        None => Ok(IncrementAction::Create { channel_id, time: bucket_start }),
    }
}

/// The log is the row of channel `channel_id` for the bucket `time`.
pub open spec fn has_key(log: Log, channel_id: i64, time: i64) -> bool {
    log.channel_id == channel_id && log.time == time
}

/// Rows of which no two share an identifier, nor a channel and a bucket, and
/// every count is not negative and every bucket start a multiple of the
/// resolution.
pub open spec fn rows_wf(rows: Seq<Log>) -> bool {
    &&& forall|i: int, j: int|
        0 <= i < rows.len() && 0 <= j < rows.len() && i != j ==> #[trigger] rows[i].id
            != #[trigger] rows[j].id
    &&& forall|i: int, j: int|
        0 <= i < rows.len() && 0 <= j < rows.len() && i != j ==> !has_key(
            #[trigger] rows[i],
            rows[j].channel_id,
            #[trigger] rows[j].time,
        )
    &&& forall|i: int| 0 <= i < rows.len() ==> #[trigger] rows[i].count >= 0
    &&& forall|i: int| 0 <= i < rows.len() ==> (#[trigger] rows[i].time) as int % RESOLUTION as int == 0
}

/// The log lies in channel `channel_id` with a start between `lower` and
/// `upper`, both included.
pub open spec fn in_range(log: Log, channel_id: i64, lower: i64, upper: i64) -> bool {
    log.channel_id == channel_id && lower <= log.time <= upper
}

/// No row has the identifier `id`.
pub open spec fn id_fresh(rows: Seq<Log>, id: u128) -> bool {
    forall|i: int| 0 <= i < rows.len() ==> #[trigger] rows[i].id != id
}

/// Counters of messages kept in memory, at most one row per channel and bucket.
pub struct CounterStore {
    rows: Vec<Log>,
}

impl View for CounterStore {
    type V = Seq<Log>;

    closed spec fn view(&self) -> Seq<Log> {
        self.rows@
    }
}

impl CounterStore {
    /// The rows of the store keep its invariant.
    pub open spec fn wf(&self) -> bool {
        rows_wf(self@)
    }

    /// An empty store.
    pub fn new() -> (r: CounterStore)
        ensures
            r.wf(),
            r@ == Seq::<Log>::empty(),
    {
        CounterStore { rows: Vec::new() }
    }

    fn find_index(&self, channel_id: i64, bucket_start: i64) -> (r: Option<usize>)
        ensures
            match r {
                Some(i) => i < self@.len() && has_key(self@[i as int], channel_id, bucket_start),
                None => forall|i: int|
                    0 <= i < self@.len() ==> !has_key(#[trigger] self@[i], channel_id, bucket_start),
            },
    {
        let mut i: usize = 0;
        while i < self.rows.len()
            invariant
                0 <= i <= self@.len(),
                self@ == self.rows@,
                forall|k: int| 0 <= k < i ==> !has_key(#[trigger] self@[k], channel_id, bucket_start),
            decreases self@.len() - i,
        {
            if self.rows[i].channel_id == channel_id && self.rows[i].time == bucket_start {
                return Some(i);
            }
            i = i + 1;
        }
        None
    }

    /// The row of channel `channel_id` for the bucket `bucket_start`, if there is one.
    pub fn find_counter(&self, channel_id: i64, bucket_start: i64) -> (r: Option<Log>)
        ensures
            match r {
                Some(log) => self@.contains(log) && has_key(log, channel_id, bucket_start),
                None => forall|i: int|
                    0 <= i < self@.len() ==> !has_key(#[trigger] self@[i], channel_id, bucket_start),
            },
    {
        match self.find_index(channel_id, bucket_start) {
            Some(i) => Some(self.rows[i]),
            None => None,
        }
    }

    /// Whether some row has the identifier `id`.
    pub fn contains_id(&self, id: u128) -> (r: bool)
        ensures
            r == !id_fresh(self@, id),
    {
        let mut i: usize = 0;
        while i < self.rows.len()
            invariant
                0 <= i <= self@.len(),
                self@ == self.rows@,
                forall|k: int| 0 <= k < i ==> #[trigger] self@[k].id != id,
            decreases self@.len() - i,
        {
            if self.rows[i].id == id {
                return true;
            }
            i = i + 1;
        }
        false
    }

    /// Creates the row `id` of channel `channel_id` for the bucket
    /// `bucket_start` with a count of one; fails where the row of that
    /// channel and bucket exists already. The identifier must be new to the
    /// store.
    pub fn create_counter(&mut self, id: u128, channel_id: i64, bucket_start: i64) -> (r: Result<(), StorageError>)
        requires
            old(self).wf(),
            id_fresh(old(self)@, id),
            bucket_start as int % RESOLUTION as int == 0,
        ensures
            final(self).wf(),
            (exists|i: int|
                0 <= i < old(self)@.len() && has_key(#[trigger] old(self)@[i], channel_id, bucket_start))
                ==> r == Err::<(), StorageError>(StorageError::DuplicateKey) && final(self)@ == old(self)@,
            (forall|i: int|
                0 <= i < old(self)@.len() ==> !has_key(#[trigger] old(self)@[i], channel_id, bucket_start))
                ==> r == Ok::<(), StorageError>(()) && final(self)@ == old(self)@.push(
                Log { id, channel_id, count: 1, time: bucket_start },
            ),
    {
        match self.find_index(channel_id, bucket_start) {
            Some(_) => Err(StorageError::DuplicateKey),
            None => {
                self.rows.push(Log { id, channel_id, count: 1, time: bucket_start });
                Ok(())
            },
        }
    }

    /// Overwrites with `new_count` the count of the row whose identifier is
    /// `id`; fails where no row has it.
    pub fn set_count(&mut self, id: u128, new_count: i32) -> (r: Result<(), StorageError>)
        requires
            old(self).wf(),
            new_count >= 0,
        ensures
            final(self).wf(),
            (exists|i: int| 0 <= i < old(self)@.len() && #[trigger] old(self)@[i].id == id) ==> r
                == Ok::<(), StorageError>(()),
            (forall|i: int| 0 <= i < old(self)@.len() ==> #[trigger] old(self)@[i].id != id) ==> r
                == Err::<(), StorageError>(StorageError::NotFound),
            final(self)@.len() == old(self)@.len(),
            forall|i: int|
                0 <= i < old(self)@.len() ==> #[trigger] final(self)@[i] == if old(self)@[i].id
                    == id {
                    Log { count: new_count, ..old(self)@[i] }
                } else {
                    old(self)@[i]
                },
    {
        let ghost before = self@;
        let mut found = false;
        let mut i: usize = 0;
        while i < self.rows.len()
            invariant
                0 <= i <= before.len(),
                self@ == self.rows@,
                self@.len() == before.len(),
                rows_wf(before),
                new_count >= 0,
                forall|k: int|
                    0 <= k < i ==> #[trigger] self@[k] == if before[k].id == id {
                        Log { count: new_count, ..before[k] }
                    } else {
                        before[k]
                    },
                forall|k: int| i <= k < before.len() ==> #[trigger] self@[k] == before[k],
                found == exists|k: int| 0 <= k < i && #[trigger] before[k].id == id,
            decreases before.len() - i,
        {
            if self.rows[i].id == id {
                let row = self.rows[i];
                self.rows.set(i, Log { id: row.id, channel_id: row.channel_id, count: new_count, time: row.time });
                found = true;
            }
            i = i + 1;
        }
        assert(rows_wf(self@)) by {
            assert forall|a: int, b: int|
                0 <= a < self@.len() && 0 <= b < self@.len() && a != b implies !has_key(
                #[trigger] self@[a],
                self@[b].channel_id,
                #[trigger] self@[b].time,
            ) by {
                assert(has_key(before[a], before[b].channel_id, before[b].time) == has_key(
                    self@[a],
                    self@[b].channel_id,
                    self@[b].time,
                ));
            }
            assert forall|a: int| 0 <= a < self@.len() implies (#[trigger] self@[a]).count >= 0 && self@[a].time as int % RESOLUTION as int == 0
                && self@[a].id == before[a].id by {
                assert(self@[a].time == before[a].time);
            }
        }
        if found {
            Ok(())
        } else {
            Err(StorageError::NotFound)
        }
    }

    /// The rows of channel `channel_id` whose bucket starts between `lower`
    /// and `upper`, both included, ordered by start.
    pub fn scan_range(&self, channel_id: i64, lower: i64, upper: i64) -> (r: Vec<Log>)
        ensures
            r@.to_multiset() == self@.filter(|log: Log| in_range(log, channel_id, lower, upper)).to_multiset(),
            sorted_by_time(r@),
    {
        let ghost pred = |log: Log| in_range(log, channel_id, lower, upper);
        let mut out: Vec<Log> = Vec::new();
        let mut i: usize = 0;
        while i < self.rows.len()
            invariant
                0 <= i <= self@.len(),
                self@ == self.rows@,
                pred == (|log: Log| in_range(log, channel_id, lower, upper)),
                out@ == self@.take(i as int).filter(pred),
            decreases self@.len() - i,
        {
            let row = self.rows[i];
            proof {
                assert(self@.take(i + 1) =~= self@.take(i as int).push(row));
                self@.take(i as int).lemma_filter_push(row, pred);
            }
            if row.channel_id == channel_id && lower <= row.time && row.time <= upper {
                out.push(row);
            }
            i = i + 1;
        }
        assert(self@.take(self@.len() as int) =~= self@);
        sort_by_time(&mut out);
        out
    }

    /// Counts one more message of channel `channel_id` sent at `timestamp`:
    /// the row of its bucket gets its count plus one, or is created with a
    /// count of one, and the identifier `new_id`, where there was none.
    /// Fails, changing nothing, where the count cannot grow any further.
    pub fn increment(&mut self, channel_id: i64, timestamp: i64, new_id: u128) -> (r: Result<(), StorageError>)
        requires
            old(self).wf(),
            id_fresh(old(self)@, new_id),
            timestamp >= 0,
        ensures
            final(self).wf(),
            ({
                let bucket = bucket_start(timestamp as int, RESOLUTION as int) as i64;
                match r {
                    Ok(()) => {
                        ||| exists|i: int|
                            0 <= i < old(self)@.len() && has_key(#[trigger] old(self)@[i], channel_id, bucket)
                                && final(self)@ == old(self)@.update(
                                i,
                                Log { count: (old(self)@[i].count + 1) as i32, ..old(self)@[i] },
                            )
                        ||| (forall|i: int|
                            0 <= i < old(self)@.len() ==> !has_key(#[trigger] old(self)@[i], channel_id, bucket))
                            && final(self)@ == old(self)@.push(
                                Log { id: new_id, channel_id, count: 1, time: bucket },
                            )
                    },
                    Err(e) => e == StorageError::CountOverflow && final(self)@ == old(self)@
                        && exists|i: int|
                        0 <= i < old(self)@.len() && has_key(#[trigger] old(self)@[i], channel_id, bucket)
                            && old(self)@[i].count == i32::MAX,
                }
            }),
    {
        let bucket = bucket_of(timestamp, RESOLUTION);
        match self.find_index(channel_id, bucket) {
            Some(i) => {
                let row = self.rows[i];
                match plan_increment(Some(row), channel_id, bucket) {
                    Ok(IncrementAction::Update { id, count }) => {
                        self.rows.set(i, Log { id, channel_id: row.channel_id, count, time: row.time });
                        proof {
                            assert(self@ =~= old(self)@.update(i as int, Log { count, ..row }));
                            assert forall|a: int, b: int|
                                0 <= a < self@.len() && 0 <= b < self@.len() && a != b implies !has_key(
                                #[trigger] self@[a],
                                self@[b].channel_id,
                                #[trigger] self@[b].time,
                            ) by {
                                assert(has_key(old(self)@[a], old(self)@[b].channel_id, old(self)@[b].time)
                                    == has_key(self@[a], self@[b].channel_id, self@[b].time));
                            }
                            assert forall|a: int| 0 <= a < self@.len() implies (#[trigger] self@[a]).count >= 0
                                && self@[a].time as int % RESOLUTION as int == 0 && self@[a].id == old(self)@[a].id by {
                                assert(self@[a].time == old(self)@[a].time);
                            }
                        }
                        Ok(())
                    },
                    _ => Err(StorageError::CountOverflow),
                }
            },
            None => {
                match self.create_counter(new_id, channel_id, bucket) {
                    Ok(_) => Ok(()),
                    Err(e) => Err(e),
                }
            },
        }
    }
}

/// However the rows of a store came about, no two of them share a channel
/// and a bucket start.
pub proof fn lemma_keys_unique(store: &CounterStore, i: int, j: int)
    requires
        store.wf(),
        0 <= i < store@.len(),
        0 <= j < store@.len(),
        store@[i].channel_id == store@[j].channel_id,
        store@[i].time == store@[j].time,
    ensures
        i == j,
{
    if i != j {
        assert(!has_key(store@[i], store@[j].channel_id, store@[j].time));
    }
}

} // verus!
