use vstd::prelude::*;

verus! {

/// Messages counted in one channel during one bucket of time.
#[derive(Clone, Copy, Debug, PartialEq, Eq, Structural)]
pub struct Log {
    /// Identifier of the row, assigned when it is created.
    pub id: u128,
    /// Channel whose messages are counted.
    pub channel_id: i64,
    /// Number of messages counted in the bucket.
    pub count: i32,
    /// Start of the bucket, as a UNIX timestamp.
    pub time: i64,
}

/// Sum of the counts of a sequence of logs.
pub open spec fn sum_counts(logs: Seq<Log>) -> int
    decreases logs.len(),
{
    if logs.len() == 0 {
        0
    } else {
        sum_counts(logs.drop_last()) + logs.last().count
    }
}

/// Folds one more log into the state of a merge: the log joins the open
/// bucket when it starts before the open bucket's start plus `width`, and
/// otherwise closes the open bucket and opens a new one of its own.
pub open spec fn merge_step(state: (Seq<Log>, Log), log: Log, width: int) -> (Seq<Log>, Log) {
    let (closed, open) = state;
    if log.time < open.time + width {
        (closed, Log { count: (open.count + log.count) as i32, ..open })
    } else {
        (closed.push(open), log)
    }
}

/// The closed buckets and the open bucket after the first `n` logs have been
/// folded; the open bucket starts as the first log with a count of zero.
pub open spec fn merge_state(logs: Seq<Log>, width: int, n: nat) -> (Seq<Log>, Log)
    decreases n,
{
    if n == 0 {
        (Seq::empty(), Log { count: 0, ..logs[0] })
    } else {
        merge_step(merge_state(logs, width, (n - 1) as nat), logs[n - 1], width)
    }
}

/// The logs coarsened to buckets of width `width`: each bucket starts at the
/// first log folded into it and takes in every following log that starts
/// before its start plus `width`.
pub open spec fn merged(logs: Seq<Log>, width: int) -> Seq<Log> {
    if logs.len() == 0 {
        Seq::empty()
    } else {
        let (closed, open) = merge_state(logs, width, logs.len());
        closed.push(open)
    }
}

/// Folding log `n` into the open bucket keeps that bucket's count within an
/// `i32`, where the log joins it.
pub open spec fn step_fits(logs: Seq<Log>, width: int, n: int) -> bool {
    let open = merge_state(logs, width, n as nat).1;
    logs[n].time < open.time + width ==> open.count + logs[n].count <= i32::MAX
}

/// A sequence that `merged` can coarsen to `width` without overflowing: the
/// width is positive, counts are not negative, each start plus the width fits
/// in an `i64`, and the count of each merged bucket fits in an `i32`.
pub open spec fn mergeable(logs: Seq<Log>, width: int) -> bool {
    &&& width > 0
    &&& forall|i: int| 0 <= i < logs.len() ==> #[trigger] logs[i].count >= 0
    &&& forall|i: int|
        0 <= i < logs.len() ==> i64::MIN <= #[trigger] logs[i].time + width <= i64::MAX
    &&& forall|i: int| 0 <= i < logs.len() ==> #[trigger] step_fits(logs, width, i)
}

/// Whether `merged` can coarsen the logs to `width` without overflowing.
pub fn is_mergeable(logs: &Vec<Log>, width: i64) -> (r: bool)
    ensures
        r == mergeable(logs@, width as int),
{
    if width <= 0 {
        return false;
    }
    if logs.len() == 0 {
        return true;
    }
    let ghost seq = logs@;
    let ghost w = width as int;
    let mut open_time: i64 = logs[0].time;
    let mut open_count: i64 = 0;
    let mut i: usize = 0;
    while i < logs.len()
        invariant
            seq == logs@,
            w == width as int,
            width > 0,
            0 < seq.len(),
            0 <= i <= seq.len(),
            forall|k: int| 0 <= k < i ==> #[trigger] seq[k].count >= 0,
            forall|k: int| 0 <= k < i ==> i64::MIN <= #[trigger] seq[k].time + w <= i64::MAX,
            forall|k: int| 0 <= k < i ==> #[trigger] step_fits(seq, w, k),
            open_time == merge_state(seq, w, i as nat).1.time,
            open_count == merge_state(seq, w, i as nat).1.count,
            0 <= open_count <= i32::MAX,
            i == 0 ==> open_time == seq[0].time,
            i > 0 ==> exists|k: int| 0 <= k < i && open_time == #[trigger] seq[k].time,
        decreases seq.len() - i,
    {
        let log = logs[i];
        if log.count < 0 {
            return false;
        }
        if log.time > i64::MAX - width {
            return false;
        }
        proof {
            assert(i64::MIN <= open_time + w <= i64::MAX);
        }
        if log.time < open_time + width {
            if open_count + log.count as i64 > i32::MAX as i64 {
                proof {
                    assert(!step_fits(seq, w, i as int));
                }
                return false;
            }
            open_count = open_count + log.count as i64;
        } else {
            open_time = log.time;
            open_count = log.count as i64;
        }
        proof {
            assert(step_fits(seq, w, i as int));
        }
        i = i + 1;
    }
    true
}

/// The logs are ordered by start.
pub open spec fn sorted_by_time(logs: Seq<Log>) -> bool {
    forall|i: int, j: int|
        0 <= i < j < logs.len() ==> #[trigger] logs[i].time <= #[trigger] logs[j].time
}

/// Relies on `slice::sort_by_key` of std: afterwards the same logs stand in
/// order of their start.
#[verifier::external_body]
pub(crate) fn sort_by_time(logs: &mut Vec<Log>)
    ensures
        final(logs)@.to_multiset() == old(logs)@.to_multiset(),
        sorted_by_time(final(logs)@),
{
    logs.sort_by_key(|log| log.time);
}

/// Each bucket starts at the start of one of `logs`.
pub open spec fn starts_taken_from(buckets: Seq<Log>, logs: Seq<Log>) -> bool {
    forall|i: int|
        0 <= i < buckets.len() ==> exists|k: int|
            0 <= k < logs.len() && #[trigger] buckets[i].time == logs[k].time
}

/// The starts of the buckets increase strictly.
pub open spec fn starts_increase(buckets: Seq<Log>) -> bool {
    forall|i: int, j: int|
        0 <= i < j < buckets.len() ==> #[trigger] buckets[i].time < #[trigger] buckets[j].time
}

proof fn lemma_sum_push(logs: Seq<Log>, log: Log)
    ensures
        sum_counts(logs.push(log)) == sum_counts(logs) + log.count,
{
    assert(logs.push(log).drop_last() =~= logs);
}

/// The counts in the state of a merge after `n` logs add up to those of the
/// logs folded, and none is negative.
proof fn lemma_merge_sums(logs: Seq<Log>, width: int, n: nat)
    requires
        0 < logs.len(),
        n <= logs.len(),
        mergeable(logs, width),
    ensures
        ({
            let (closed, open) = merge_state(logs, width, n);
            &&& sum_counts(closed) + open.count == sum_counts(logs.take(n as int))
            &&& open.count >= 0
            &&& forall|i: int| 0 <= i < closed.len() ==> #[trigger] closed[i].count >= 0
        }),
    decreases n,
{
    if n == 0 {
        assert(logs.take(0) =~= Seq::<Log>::empty());
    } else {
        lemma_merge_sums(logs, width, (n - 1) as nat);
        let (closed0, open0) = merge_state(logs, width, (n - 1) as nat);
        let log = logs[n - 1];
        assert(step_fits(logs, width, n - 1));
        assert(logs[n - 1].count >= 0);
        assert(logs.take(n as int) =~= logs.take(n - 1).push(log));
        lemma_sum_push(logs.take(n - 1), log);
        if log.time >= open0.time + width {
            lemma_sum_push(closed0, open0);
        }
    }
}

/// The buckets in the state of a merge after `n` logs each start at the start
/// of a log, and their starts increase strictly when `width` is positive.
proof fn lemma_merge_starts(logs: Seq<Log>, width: int, n: nat)
    requires
        0 < logs.len(),
        n <= logs.len(),
    ensures
        ({
            let (closed, open) = merge_state(logs, width, n);
            &&& starts_taken_from(closed.push(open), logs)
            &&& width > 0 ==> starts_increase(closed.push(open))
        }),
    decreases n,
{
    let (closed, open) = merge_state(logs, width, n);
    if n == 0 {
        assert(closed.push(open)[0].time == logs[0].time);
    } else {
        lemma_merge_starts(logs, width, (n - 1) as nat);
        let (closed0, open0) = merge_state(logs, width, (n - 1) as nat);
        let log = logs[n - 1];
        if log.time < open0.time + width {
            assert forall|i: int| 0 <= i < closed.push(open).len() implies exists|k: int|
                0 <= k < logs.len() && #[trigger] closed.push(open)[i].time == logs[k].time by {
                assert(closed.push(open)[i].time == closed0.push(open0)[i].time);
            }
            if width > 0 {
                assert forall|i: int, j: int|
                    0 <= i < j < closed.push(open).len() implies #[trigger] closed.push(open)[i].time
                    < #[trigger] closed.push(open)[j].time by {
                    assert(closed.push(open)[i].time == closed0.push(open0)[i].time);
                    assert(closed.push(open)[j].time == closed0.push(open0)[j].time);
                }
            }
        } else {
            assert(closed == closed0.push(open0));
            assert(closed.push(open)[closed.len() as int].time == logs[n - 1].time);
            assert forall|i: int| 0 <= i < closed.push(open).len() implies exists|k: int|
                0 <= k < logs.len() && #[trigger] closed.push(open)[i].time == logs[k].time by {
                if i < closed.len() {
                    assert(closed.push(open)[i].time == closed0.push(open0)[i].time);
                }
            }
            if width > 0 {
                assert forall|i: int, j: int|
                    0 <= i < j < closed.push(open).len() implies #[trigger] closed.push(open)[i].time
                    < #[trigger] closed.push(open)[j].time by {
                    assert(closed.push(open)[i] == closed0.push(open0)[i]);
                    if j < closed.len() {
                        assert(closed.push(open)[j] == closed0.push(open0)[j]);
                    } else {
                        let last = closed0.len() as int;
                        assert(closed0.push(open0)[last] == open0);
                        if i < last {
                            assert(closed0.push(open0)[i].time < closed0.push(open0)[last].time);
                        }
                    }
                }
            }
        }
    }
}

/// Coarsening of a sequence of logs to a wider bucket width.
pub trait ChangeResolution: Sized {
    /// The logs to be coarsened.
    spec fn source(&self) -> Seq<Log>;

    /// Merges the logs, in their order, into buckets `new_resolution` wide.
    fn change_resolution(self, new_resolution: i64) -> (r: Vec<Log>)
        requires
            mergeable(self.source(), new_resolution as int),
        ensures
            r@ == merged(self.source(), new_resolution as int),
    ;
}

impl ChangeResolution for Vec<Log> {
    open spec fn source(&self) -> Seq<Log> {
        self@
    }

    fn change_resolution(self, new_resolution: i64) -> (r: Vec<Log>) {
        if self.len() == 0 {
            return self;
        }
        let ghost logs = self@;
        let ghost width = new_resolution as int;
        let mut updated_logs: Vec<Log> = Vec::new();
        let first = self[0];
        let mut current_log = Log { id: first.id, channel_id: first.channel_id, count: 0, time: first.time };
        let mut next_timestamp: i64 = current_log.time + new_resolution;
        let mut i: usize = 0;
        while i < self.len()
            invariant
                logs == self@,
                width == new_resolution as int,
                mergeable(logs, width),
                0 < logs.len(),
                0 <= i <= logs.len(),
                (updated_logs@, current_log) == merge_state(logs, width, i as nat),
                next_timestamp == current_log.time + width,
            decreases logs.len() - i,
        {
            let log = self[i];
            proof {
                lemma_merge_sums(logs, width, i as nat);
                assert(step_fits(logs, width, i as int));
                assert(logs[i as int].count >= 0);
            }
            if log.time < next_timestamp {
                current_log.count = current_log.count + log.count;
            } else {
                updated_logs.push(current_log);
                next_timestamp = log.time + new_resolution;
                current_log = log;
            }
            i = i + 1;
        }
        updated_logs.push(current_log);
        updated_logs
    }
}

/// Merging keeps the total count: the counts of the merged buckets add up to
/// the counts of the logs merged.
pub proof fn lemma_merge_preserves_sum(logs: Seq<Log>, width: int)
    requires
        mergeable(logs, width),
    ensures
        sum_counts(merged(logs, width)) == sum_counts(logs),
{
    if logs.len() > 0 {
        lemma_merge_sums(logs, width, logs.len());
        let (closed, open) = merge_state(logs, width, logs.len());
        lemma_sum_push(closed, open);
        assert(logs.take(logs.len() as int) =~= logs);
    }
}

/// Merged buckets are never synthesized: with a positive width their starts
/// increase strictly, and each is the start of one of the logs merged.
pub proof fn lemma_merge_starts_increase(logs: Seq<Log>, width: int)
    requires
        width > 0,
    ensures
        starts_increase(merged(logs, width)),
        starts_taken_from(merged(logs, width), logs),
{
    if logs.len() > 0 {
        lemma_merge_starts(logs, width, logs.len());
    }
}

/// Merging to the width by which the logs are spaced changes nothing: when
/// the starts are multiples of `width` and increase strictly, each log comes
/// out as a bucket of its own, unchanged.
pub proof fn lemma_merge_passthrough(logs: Seq<Log>, width: int)
    requires
        width > 0,
        forall|i: int| 0 <= i < logs.len() ==> (#[trigger] logs[i].time) as int % width == 0,
        starts_increase(logs),
    ensures
        merged(logs, width) == logs,
{
    if logs.len() > 0 {
        lemma_passthrough_state(logs, width, logs.len());
        assert(logs.take(logs.len() - 1).push(logs[logs.len() - 1]) =~= logs);
    }
}

proof fn lemma_passthrough_state(logs: Seq<Log>, width: int, n: nat)
    requires
        width > 0,
        1 <= n <= logs.len(),
        forall|i: int| 0 <= i < logs.len() ==> (#[trigger] logs[i].time) as int % width == 0,
        starts_increase(logs),
    ensures
        merge_state(logs, width, n) == (logs.take(n - 1), logs[n - 1]),
    decreases n,
{
    if n == 1 {
        let seed = merge_state(logs, width, 0);
        assert(seed == (Seq::<Log>::empty(), Log { count: 0, ..logs[0] }));
        assert(logs.take(0) =~= Seq::<Log>::empty());
    } else {
        lemma_passthrough_state(logs, width, (n - 1) as nat);
        let a = logs[n - 2].time as int;
        let b = logs[n - 1].time as int;
        assert(a < b);
        lemma_aligned_gap(a, b, width);
        assert(logs.take(n - 2).push(logs[n - 2]) =~= logs.take(n - 1));
    }
}

/// Two distinct multiples of `width` lie at least `width` apart.
proof fn lemma_aligned_gap(a: int, b: int, width: int)
    requires
        width > 0,
        a < b,
        a % width == 0,
        b % width == 0,
    ensures
        a + width <= b,
{
    vstd::arithmetic::div_mod::lemma_fundamental_div_mod(a, width);
    vstd::arithmetic::div_mod::lemma_fundamental_div_mod(b, width);
    let qa = a / width;
    let qb = b / width;
    assert(a == width * qa);
    assert(b == width * qb);
    if qb <= qa {
        assert(width * qb <= width * qa) by (nonlinear_arith)
            requires
                width > 0,
                qb <= qa,
        ;
    }
    assert(width * (qa + 1) <= width * qb) by (nonlinear_arith)
        requires
            width > 0,
            qa + 1 <= qb,
    ;
    assert(width * (qa + 1) == width * qa + width) by (nonlinear_arith);
}

} // verus!
