//! The receiver's bookkeeping of file transfers in progress.
//!
//! Times are instants of a monotonic clock, counted in nanoseconds from an
//! origin that the caller picks once.
use vstd::prelude::*;
use std::collections::{HashMap, HashSet};
use crate::text::same_text;
use crate::protocol::{is_handshake, HANDSHAKE_CHUNK_IDX};

verus! {

broadcast use vstd::std_specs::hash::group_hash_axioms;

/// Size of one chunk of a file, in bytes.
pub const CHUNK_SIZE: usize = 65536;

/// Seconds without a chunk after which a transfer is dropped.
pub const TRANSFER_TIMEOUT_SECS: u64 = 600;

/// Seconds without a chunk before missing chunks are asked for again.
pub const RESEND_INACTIVITY_SECS: u64 = 45;

/// Seconds between two rounds of resend requests.
pub const RESEND_CHECK_INTERVAL_SECS: u64 = 90;

/// How often one chunk is asked for again, at most.
pub const MAX_RESEND_ATTEMPTS: usize = 3;

/// Nanoseconds in a second.
pub const NANOS_PER_SEC: u64 = 1_000_000_000;

/// Whole seconds from `earlier` to `later`, or zero when `later` is not
/// after `earlier` (as `Instant::duration_since(..).as_secs()` gives).
pub open spec fn elapsed_secs(earlier: u64, later: u64) -> nat {
    if later >= earlier {
        ((later - earlier) / (NANOS_PER_SEC as int)) as nat
    } else {
        0
    }
}

/// Whole seconds from `earlier` to `later`, saturating at zero.
pub fn whole_seconds_between(earlier: u64, later: u64) -> (s: u64)
    ensures
        s == elapsed_secs(earlier, later),
{
    if later >= earlier {
        (later - earlier) / NANOS_PER_SEC
    } else {
        0
    }
}

/// How often chunk `idx` has been asked for again, by the attempt counts `m`.
pub open spec fn attempts_of(m: Map<usize, usize>, idx: usize) -> nat {
    if m.contains_key(idx) {
        m[idx] as nat
    } else {
        0
    }
}

/// No chunk has been asked for again more than the limit.
pub open spec fn attempts_bounded(m: Map<usize, usize>) -> bool {
    forall|k: usize| #[trigger] m.contains_key(k) ==> m[k] <= MAX_RESEND_ATTEMPTS
}

/// `s` is strictly increasing.
pub open spec fn strictly_increasing(s: Seq<usize>) -> bool {
    forall|i: int, j: int| 0 <= i < j < s.len() ==> s[i] < s[j]
}

/// `after` is `before` after one round of resend requests at `now` that
/// asked for `requested`: every missing chunk that may still be asked for,
/// in ascending order, each counted once more; none when the sender left
/// no reply handle.
pub open spec fn resend_round<T, F>(
    before: FileTransfer<T, F>,
    after: FileTransfer<T, F>,
    requested: Seq<usize>,
    now: u64,
) -> bool {
    &&& strictly_increasing(requested)
    &&& forall|x: usize|
        requested.contains(x) <==> {
            &&& before.sender_tag is Some
            &&& x < before.total_chunks
            &&& !before.received_chunks@.contains(x)
            &&& attempts_of(before.resend_attempts@, x) < MAX_RESEND_ATTEMPTS
        }
    &&& after.resend_attempts@ == before.resend_attempts@.union_prefer_right(
        Map::new(
            |k: usize| requested.contains(k),
            |k: usize| (attempts_of(before.resend_attempts@, k) + 1) as usize,
        ),
    )
    &&& after.last_resend_check == (if requested.len() > 0 {
        now
    } else {
        before.last_resend_check
    })
    &&& attempts_bounded(before.resend_attempts@) ==> attempts_bounded(after.resend_attempts@)
    &&& after.filename == before.filename
    &&& after.app_tag == before.app_tag
    &&& after.total_chunks == before.total_chunks
    &&& after.original_file_size == before.original_file_size
    &&& after.target == before.target
    &&& after.sender_tag == before.sender_tag
    &&& after.last_activity == before.last_activity
    &&& after.received_chunks@ == before.received_chunks@
}

/// No chunk is ever asked for again more often than the limit: a round
/// of resend requests counts each requested chunk once more and only
/// requests chunks still under the limit, so counts within the limit stay
/// within it.
pub proof fn lemma_resend_limit<T, F>(
    before: FileTransfer<T, F>,
    after: FileTransfer<T, F>,
    requested: Seq<usize>,
    now: u64,
)
    requires
        resend_round(before, after, requested, now),
        attempts_bounded(before.resend_attempts@),
    ensures
        attempts_bounded(after.resend_attempts@),
        forall|x: usize|
            requested.contains(x) ==> attempts_of(after.resend_attempts@, x) == attempts_of(
                before.resend_attempts@,
                x,
            ) + 1 && attempts_of(after.resend_attempts@, x) <= MAX_RESEND_ATTEMPTS,
        forall|x: usize|
            !requested.contains(x) ==> attempts_of(after.resend_attempts@, x) == attempts_of(
                before.resend_attempts@,
                x,
            ),
{
}

/// A round of resend requests is due for `t` at `now`: the transfer is
/// incomplete, no chunk came for `RESEND_INACTIVITY_SECS`, and the last round
/// is `RESEND_CHECK_INTERVAL_SECS` back.
pub open spec fn resend_due<T, F>(t: FileTransfer<T, F>, now: u64) -> bool {
    &&& t.received_chunks@.len() != t.total_chunks
    &&& elapsed_secs(t.last_activity, now) >= RESEND_INACTIVITY_SECS
    &&& elapsed_secs(t.last_resend_check, now) >= RESEND_CHECK_INTERVAL_SECS
}

/// One step in the life of a transfer that asked for `requested` again:
/// a due round of resend requests (as `Receiver::after_chunk_saved` takes
/// it), or a step that asks for nothing and keeps the counts (as accepting
/// or recording a chunk does).
pub open spec fn lifetime_step<T, F>(
    before: FileTransfer<T, F>,
    after: FileTransfer<T, F>,
    requested: Seq<usize>,
) -> bool {
    ||| (requested.len() == 0 && after.resend_attempts@ == before.resend_attempts@)
    ||| exists|now: u64| resend_due(before, now) && resend_round(before, after, requested, now)
}

/// How many of the `rounds` asked for chunk `i`.
pub open spec fn times_requested(rounds: Seq<Seq<usize>>, i: usize) -> nat
    decreases rounds.len(),
{
    if rounds.len() == 0 {
        0
    } else {
        times_requested(rounds.drop_last(), i) + (if rounds.last().contains(i) {
            1nat
        } else {
            0nat
        })
    }
}

/// Over the whole life of a transfer, from its creation through any steps,
/// each chunk is asked for again at most `MAX_RESEND_ATTEMPTS` times; and
/// it is asked for only while the transfer is incomplete, quiet long enough
/// and the last round far enough back, only when the sender left a reply
/// handle, and only when it is one of the transfer's chunks and has not come.
/// Every operation of `Receiver` that changes a transfer (`accept_chunk`,
/// `record_chunk`, `after_chunk_saved`, `on_chunk_message`, `file_opened`,
/// `chunk_written`) states that it takes such a step, and `FileTransfer::new`
/// starts with no attempt counted.
pub proof fn lemma_resend_lifetime<T, F>(
    states: Seq<FileTransfer<T, F>>,
    rounds: Seq<Seq<usize>>,
    i: usize,
)
    requires
        states.len() == rounds.len() + 1,
        states[0].resend_attempts@ == Map::<usize, usize>::empty(),
        forall|k: int|
            0 <= k < rounds.len() ==> lifetime_step(#[trigger] states[k], states[k + 1], rounds[k]),
    ensures
        times_requested(rounds, i) <= MAX_RESEND_ATTEMPTS,
        attempts_of(states.last().resend_attempts@, i) == times_requested(rounds, i),
        attempts_bounded(states.last().resend_attempts@),
        forall|k: int|
            0 <= k < rounds.len() && #[trigger] rounds[k].contains(i) ==> {
                &&& states[k].sender_tag is Some
                &&& i < states[k].total_chunks
                &&& !states[k].received_chunks@.contains(i)
                &&& exists|now: u64| resend_due(states[k], now)
            },
    decreases rounds.len(),
{
    if rounds.len() == 0 {
        assert(states.last() == states[0]);
    } else {
        let n = rounds.len() - 1;
        let ps = states.drop_last();
        let pr = rounds.drop_last();
        assert forall|k: int| 0 <= k < pr.len() implies lifetime_step(#[trigger] ps[k], ps[k + 1], pr[k]) by {
            assert(ps[k] == states[k]);
            assert(ps[k + 1] == states[k + 1]);
            assert(pr[k] == rounds[k]);
            assert(lifetime_step(states[k], states[k + 1], rounds[k]));
        }
        lemma_resend_lifetime(ps, pr, i);
        let before = states[n];
        let after = states[n + 1];
        assert(ps.last() == before);
        assert(states.last() == after);
        assert(rounds.last() == rounds[n]);
        assert(lifetime_step(states[n], states[n + 1], rounds[n]));
        if rounds[n].len() == 0 && after.resend_attempts@ == before.resend_attempts@ {
            assert(!rounds[n].contains(i));
        } else {
            let now = choose|now: u64| resend_due(before, now) && resend_round(before, after, rounds[n], now);
            lemma_resend_limit(before, after, rounds[n], now);
        }
        assert forall|k: int|
            0 <= k < rounds.len() && #[trigger] rounds[k].contains(i) implies {
                &&& states[k].sender_tag is Some
                &&& i < states[k].total_chunks
                &&& !states[k].received_chunks@.contains(i)
                &&& exists|now: u64| resend_due(states[k], now)
            } by {
            if k < n {
                assert(pr[k] == rounds[k]);
                assert(ps[k] == states[k]);
                assert(pr[k].contains(i));
            } else {
                if rounds[n].len() == 0 && after.resend_attempts@ == before.resend_attempts@ {
                } else {
                    let now = choose|now: u64|
                        resend_due(before, now) && resend_round(before, after, rounds[n], now);
                }
            }
        }
    }
}

/// One file being received: what is known of it and which chunks came.
///
/// `T` is the reply handle of the sender, `F` the caller's handle on the
/// file being written; the bookkeeping only carries them.
pub struct FileTransfer<T, F> {
    pub filename: String,
    pub app_tag: String,
    pub total_chunks: usize,
    pub original_file_size: u64,
    pub received_chunks: HashSet<usize>,
    pub target: F,
    pub last_activity: u64,
    pub sender_tag: Option<T>,
    pub last_resend_check: u64,
    pub resend_attempts: HashMap<usize, usize>,
}

/// The length to which the file of a transfer of `total_chunks` chunks is
/// first set: room for every chunk.
pub fn expected_file_len(total_chunks: usize) -> (len: u64)
    requires
        total_chunks * CHUNK_SIZE <= u64::MAX,
    ensures
        len == total_chunks * CHUNK_SIZE,
{
    (total_chunks as u64) * (CHUNK_SIZE as u64)
}

/// Where chunk `chunk_idx` starts in the file.
pub fn chunk_offset(chunk_idx: usize) -> (offset: u64)
    requires
        chunk_idx * CHUNK_SIZE <= u64::MAX,
    ensures
        offset == chunk_idx * CHUNK_SIZE,
{
    (chunk_idx as u64) * (CHUNK_SIZE as u64)
}

impl<T, F> FileTransfer<T, F> {
    /// A transfer that has just begun at `now`, with no chunk received.
    pub fn new(
        filename: String,
        app_tag: String,
        total_chunks: usize,
        original_file_size: u64,
        target: F,
        now: u64,
    ) -> (t: Self)
        ensures
            t.filename == filename,
            t.app_tag == app_tag,
            t.total_chunks == total_chunks,
            t.original_file_size == original_file_size,
            t.target == target,
            t.received_chunks@ == Set::<usize>::empty(),
            t.last_activity == now,
            t.sender_tag is None,
            t.last_resend_check == now,
            t.resend_attempts@ == Map::<usize, usize>::empty(),
    {
        FileTransfer {
            filename,
            app_tag,
            total_chunks,
            original_file_size,
            received_chunks: HashSet::new(),
            target,
            last_activity: now,
            sender_tag: None,
            last_resend_check: now,
            resend_attempts: HashMap::new(),
        }
    }

    /// Notes that chunk `chunk_idx` was written at `now`.
    pub fn record_chunk(&mut self, chunk_idx: usize, now: u64)
        ensures
            final(self).received_chunks@ == old(self).received_chunks@.insert(chunk_idx),
            final(self).last_activity == now,
            final(self).filename == old(self).filename,
            final(self).app_tag == old(self).app_tag,
            final(self).total_chunks == old(self).total_chunks,
            final(self).original_file_size == old(self).original_file_size,
            final(self).target == old(self).target,
            final(self).sender_tag == old(self).sender_tag,
            final(self).last_resend_check == old(self).last_resend_check,
            final(self).resend_attempts@ == old(self).resend_attempts@,
    {
        self.received_chunks.insert(chunk_idx);
        self.last_activity = now;
    }

    /// Whether as many distinct chunks came as the transfer has.
    pub fn is_complete(&self) -> (b: bool)
        ensures
            b == (self.received_chunks@.len() == self.total_chunks),
    {
        self.received_chunks.len() == self.total_chunks
    }

    /// The chunks of the transfer that have not come, in ascending order.
    pub fn get_missing_chunks(&self) -> (missing: Vec<usize>)
        ensures
            strictly_increasing(missing@),
            forall|x: usize|
                missing@.contains(x) <==> (x < self.total_chunks && !self.received_chunks@.contains(x)),
    {
        let mut missing: Vec<usize> = Vec::new();
        let mut i: usize = 0;
        while i < self.total_chunks
            invariant
                i <= self.total_chunks,
                strictly_increasing(missing@),
                forall|k: int| 0 <= k < missing@.len() ==> missing@[k] < i,
                forall|x: usize|
                    missing@.contains(x) <==> (x < i && !self.received_chunks@.contains(x)),
            decreases self.total_chunks - i,
        {
            if !self.received_chunks.contains(&i) {
                let ghost before = missing@;
                missing.push(i);
                assert forall|x: usize|
                    missing@.contains(x) <==> (x < i + 1 && !self.received_chunks@.contains(x)) by {
                    if x == i {
                        assert(missing@[missing@.len() - 1] == x);
                    }
                    if missing@.contains(x) && x != i {
                        let k = choose|k: int| 0 <= k < missing@.len() && missing@[k] == x;
                        assert(before[k] == x);
                        assert(before.contains(x));
                    }
                    if x < i && !self.received_chunks@.contains(x) {
                        assert(before.contains(x));
                        let k = choose|k: int| 0 <= k < before.len() && before[k] == x;
                        assert(missing@[k] == x);
                    }
                }
            }
            i = i + 1;
        }
        missing
    }

    /// Whether the transfer has been quiet long enough, and the last round
    /// of resend requests is far enough back, to ask again.
    pub fn should_check_resend(&self, now: u64) -> (b: bool)
        ensures
            b == (elapsed_secs(self.last_activity, now) >= RESEND_INACTIVITY_SECS
                && elapsed_secs(self.last_resend_check, now) >= RESEND_CHECK_INTERVAL_SECS),
    {
        let since_chunk = whole_seconds_between(self.last_activity, now);
        let since_check = whole_seconds_between(self.last_resend_check, now);
        since_chunk >= RESEND_INACTIVITY_SECS && since_check >= RESEND_CHECK_INTERVAL_SECS
    }

    /// Whether chunk `chunk_idx` may be asked for again.
    pub fn can_request_resend(&self, chunk_idx: usize) -> (b: bool)
        ensures
            b == (attempts_of(self.resend_attempts@, chunk_idx) < MAX_RESEND_ATTEMPTS),
    {
        let attempts: usize = match self.resend_attempts.get(&chunk_idx) {
            Some(a) => *a,
            None => 0,
        };
        attempts < MAX_RESEND_ATTEMPTS
    }

    /// Counts one more request for chunk `chunk_idx`, made at `now`.
    pub fn mark_resend_requested(&mut self, chunk_idx: usize, now: u64)
        requires
            attempts_of(old(self).resend_attempts@, chunk_idx) < usize::MAX,
        ensures
            final(self).resend_attempts@ == old(self).resend_attempts@.insert(
                chunk_idx,
                (attempts_of(old(self).resend_attempts@, chunk_idx) + 1) as usize,
            ),
            final(self).last_resend_check == now,
            final(self).filename == old(self).filename,
            final(self).app_tag == old(self).app_tag,
            final(self).total_chunks == old(self).total_chunks,
            final(self).original_file_size == old(self).original_file_size,
            final(self).target == old(self).target,
            final(self).sender_tag == old(self).sender_tag,
            final(self).last_activity == old(self).last_activity,
            final(self).received_chunks@ == old(self).received_chunks@,
    {
        let attempts: usize = match self.resend_attempts.get(&chunk_idx) {
            Some(a) => *a,
            None => 0,
        };
        self.resend_attempts.insert(chunk_idx, attempts + 1);
        self.last_resend_check = now;
    }

    /// Whether no chunk has come for longer than the transfer timeout.
    pub fn is_timed_out(&self, now: u64) -> (b: bool)
        ensures
            b == (elapsed_secs(self.last_activity, now) > TRANSFER_TIMEOUT_SECS),
    {
        whole_seconds_between(self.last_activity, now) > TRANSFER_TIMEOUT_SECS
    }

    /// Takes note of chunk `chunk_idx` arriving with reply handle
    /// `sender_tag`: the first handle that comes is kept. Returns whether the
    /// chunk is new to the transfer.
    pub fn accept_chunk(&mut self, chunk_idx: usize, sender_tag: Option<T>) -> (is_new: bool)
        ensures
            is_new == !old(self).received_chunks@.contains(chunk_idx),
            final(self).received_chunks@ == old(self).received_chunks@.insert(chunk_idx),
            final(self).sender_tag == (if old(self).sender_tag is None && sender_tag is Some {
                sender_tag
            } else {
                old(self).sender_tag
            }),
            final(self).filename == old(self).filename,
            final(self).app_tag == old(self).app_tag,
            final(self).total_chunks == old(self).total_chunks,
            final(self).original_file_size == old(self).original_file_size,
            final(self).target == old(self).target,
            final(self).last_activity == old(self).last_activity,
            final(self).last_resend_check == old(self).last_resend_check,
            final(self).resend_attempts@ == old(self).resend_attempts@,
    {
        if sender_tag.is_some() && self.sender_tag.is_none() {
            self.sender_tag = sender_tag;
        }
        self.received_chunks.insert(chunk_idx)
    }

    /// One round of resend requests at `now`: every missing chunk that may
    /// still be asked for, in ascending order, each counted once more. No
    /// chunk is asked for when the sender left no reply handle.
    pub fn take_resend_requests(&mut self, now: u64) -> (requested: Vec<usize>)
        ensures
            resend_round(*old(self), *final(self), requested@, now),
    {
        let ghost old_map = self.resend_attempts@;
        let missing = self.get_missing_chunks();
        let mut requested: Vec<usize> = Vec::new();
        if missing.len() > 0 && self.sender_tag.is_some() {
            let n: usize = missing.len();
            let mut j: usize = 0;
            assert(self.resend_attempts@ == old_map.union_prefer_right(
                Map::new(
                    |k: usize| requested@.contains(k),
                    |k: usize| (attempts_of(old_map, k) + 1) as usize,
                ),
            ));
            while j < n
                invariant
                    n == missing@.len(),
                    j <= n,
                    strictly_increasing(missing@),
                    forall|x: usize|
                        missing@.contains(x) <==> (x < self.total_chunks
                            && !self.received_chunks@.contains(x)),
                    old(self).sender_tag is Some,
                    self.sender_tag == old(self).sender_tag,
                    self.total_chunks == old(self).total_chunks,
                    self.received_chunks@ == old(self).received_chunks@,
                    self.filename == old(self).filename,
                    self.app_tag == old(self).app_tag,
                    self.original_file_size == old(self).original_file_size,
                    self.target == old(self).target,
                    self.last_activity == old(self).last_activity,
                    old_map == old(self).resend_attempts@,
                    strictly_increasing(requested@),
                    forall|k: int|
                        0 <= k < requested@.len() && j < n ==> requested@[k] < missing@[j as int],
                    forall|x: usize|
                        requested@.contains(x) <==> (exists|k: int|
                            0 <= k < j && missing@[k] == x) && attempts_of(old_map, x)
                            < MAX_RESEND_ATTEMPTS,
                    self.resend_attempts@ == old_map.union_prefer_right(
                        Map::new(
                            |k: usize| requested@.contains(k),
                            |k: usize| (attempts_of(old_map, k) + 1) as usize,
                        ),
                    ),
                    self.last_resend_check == (if requested@.len() > 0 {
                        now
                    } else {
                        old(self).last_resend_check
                    }),
                decreases n - j,
            {
                let idx = missing[j];
                if self.can_request_resend(idx) {
                    let ghost before = requested@;
                    assert(!before.contains(idx)) by {
                        if before.contains(idx) {
                            let k = choose|k: int| 0 <= k < before.len() && before[k] == idx;
                        }
                    }
                    assert(attempts_of(self.resend_attempts@, idx) == attempts_of(old_map, idx));
                    self.mark_resend_requested(idx, now);
                    requested.push(idx);
                    assert forall|x: usize|
                        requested@.contains(x) <==> (exists|k: int|
                            0 <= k < j + 1 && missing@[k] == x) && attempts_of(old_map, x)
                            < MAX_RESEND_ATTEMPTS by {
                        if x == idx {
                            assert(requested@[requested@.len() - 1] == x);
                        } else {
                            if requested@.contains(x) {
                                let k = choose|k: int| 0 <= k < requested@.len() && requested@[k] == x;
                                assert(before[k] == x);
                                assert(before.contains(x));
                            }
                            if (exists|k: int| 0 <= k < j + 1 && missing@[k] == x) && attempts_of(
                                old_map,
                                x,
                            ) < MAX_RESEND_ATTEMPTS {
                                let k = choose|k: int| 0 <= k < j + 1 && missing@[k] == x;
                                assert(k < j);
                                assert(before.contains(x));
                                let m = choose|m: int| 0 <= m < before.len() && before[m] == x;
                                assert(requested@[m] == x);
                            }
                        }
                    }
                    assert(self.resend_attempts@ =~= old_map.union_prefer_right(
                        Map::new(
                            |k: usize| requested@.contains(k),
                            |k: usize| (attempts_of(old_map, k) + 1) as usize,
                        ),
                    ));
                } else {
                    assert forall|x: usize|
                        requested@.contains(x) <==> (exists|k: int|
                            0 <= k < j + 1 && missing@[k] == x) && attempts_of(old_map, x)
                            < MAX_RESEND_ATTEMPTS by {
                        if (exists|k: int| 0 <= k < j + 1 && missing@[k] == x) && attempts_of(
                            old_map,
                            x,
                        ) < MAX_RESEND_ATTEMPTS {
                            let k = choose|k: int| 0 <= k < j + 1 && missing@[k] == x;
                            assert(k < j);
                        }
                    }
                }
                j = j + 1;
            }
            assert forall|x: usize|
                requested@.contains(x) <==> {
                    &&& old(self).sender_tag is Some
                    &&& x < old(self).total_chunks
                    &&& !old(self).received_chunks@.contains(x)
                    &&& attempts_of(old(self).resend_attempts@, x) < MAX_RESEND_ATTEMPTS
                } by {
                if x < old(self).total_chunks && !old(self).received_chunks@.contains(x) {
                    assert(missing@.contains(x));
                    let k = choose|k: int| 0 <= k < missing@.len() && missing@[k] == x;
                }
                if exists|k: int| 0 <= k < n && missing@[k] == x {
                    let k = choose|k: int| 0 <= k < n && missing@[k] == x;
                    assert(missing@.contains(x));
                }
            }
        } else {
            assert forall|x: usize|
                !(old(self).sender_tag is Some && x < old(self).total_chunks
                    && !old(self).received_chunks@.contains(x)) by {
                if x < old(self).total_chunks && !old(self).received_chunks@.contains(x) {
                    assert(missing@.contains(x));
                }
            }
            assert(self.resend_attempts@ =~= old_map.union_prefer_right(
                Map::new(
                    |k: usize| requested@.contains(k),
                    |k: usize| (attempts_of(old_map, k) + 1) as usize,
                ),
            ));
        }
        requested
    }
}

/// `after` is `before` once chunk `chunk_idx` arrived with reply handle
/// `sender_tag`: the chunk is noted and the first handle that comes is kept.
pub open spec fn accepted<T, F>(
    before: FileTransfer<T, F>,
    after: FileTransfer<T, F>,
    chunk_idx: usize,
    sender_tag: Option<T>,
) -> bool {
    &&& after.received_chunks@ == before.received_chunks@.insert(chunk_idx)
    &&& after.sender_tag == (if before.sender_tag is None && sender_tag is Some {
        sender_tag
    } else {
        before.sender_tag
    })
    &&& after.filename == before.filename
    &&& after.app_tag == before.app_tag
    &&& after.total_chunks == before.total_chunks
    &&& after.original_file_size == before.original_file_size
    &&& after.target == before.target
    &&& after.last_activity == before.last_activity
    &&& after.last_resend_check == before.last_resend_check
    &&& after.resend_attempts@ == before.resend_attempts@
}

/// `after` is `before` once chunk `chunk_idx` was written at `now`.
pub open spec fn recorded<T, F>(
    before: FileTransfer<T, F>,
    after: FileTransfer<T, F>,
    chunk_idx: usize,
    now: u64,
) -> bool {
    &&& after.received_chunks@ == before.received_chunks@.insert(chunk_idx)
    &&& after.last_activity == now
    &&& after.filename == before.filename
    &&& after.app_tag == before.app_tag
    &&& after.total_chunks == before.total_chunks
    &&& after.original_file_size == before.original_file_size
    &&& after.target == before.target
    &&& after.sender_tag == before.sender_tag
    &&& after.last_resend_check == before.last_resend_check
    &&& after.resend_attempts@ == before.resend_attempts@
}

/// Whether transfer `t` is still alive at `now`.
pub open spec fn alive_at<T, F>(t: FileTransfer<T, F>, now: u64) -> bool {
    elapsed_secs(t.last_activity, now) <= TRANSFER_TIMEOUT_SECS
}

/// Whether a transfer is kept depends only on when its last chunk came:
/// two transfers whose last chunks came at the same instant are kept or
/// dropped alike, whatever else differs (such as their resend rounds).
/// Once a chunk is recorded at `at`, the transfer is kept at every `now`
/// less than `TRANSFER_TIMEOUT_SECS + 1` whole seconds later, and dropped
/// from then on.
pub proof fn lemma_alive_by_last_chunk<T, F>(
    t: FileTransfer<T, F>,
    u: FileTransfer<T, F>,
    before: FileTransfer<T, F>,
    chunk_idx: usize,
    at: u64,
    now: u64,
)
    ensures
        t.last_activity == u.last_activity ==> (alive_at(t, now) <==> alive_at(u, now)),
        recorded(before, t, chunk_idx, at) && at <= now ==> (alive_at(t, now) <==> now - at < (
        TRANSFER_TIMEOUT_SECS + 1) * NANOS_PER_SEC),
        recorded(before, t, chunk_idx, at) && now < at ==> alive_at(t, now),
{
}

/// Where a chunk of a given transfer goes.
pub enum ChunkSlot {
    /// The transfer is already complete: the chunk is ignored.
    Completed,
    /// The transfer in progress at this index.
    Existing(usize),
    /// No such transfer yet: a file must be opened for it.
    New,
}

/// What follows once a chunk of a transfer has been written.
pub enum AfterSave<T, F> {
    /// Every chunk came: the transfer, taken out of the registry.
    Complete(FileTransfer<T, F>),
    /// Chunks to ask for again (possibly none).
    Resend(Vec<usize>),
    /// Nothing to do yet.
    Waiting,
}

/// What the server does with an incoming chunk message.
pub enum Step {
    /// A handshake: answer that the receiver is ready.
    ReplyReady,
    /// Nothing: the transfer has completed, or the chunk came before.
    Skip,
    /// The first chunk of a new transfer: open its file, then
    /// `Receiver::file_opened`.
    OpenFile,
    /// A new chunk of transfer `i`: write it, then `Receiver::chunk_written`.
    Write(usize),
}

/// The transfers in progress and the tags of completed transfers, as plain
/// data; `Receiver` keeps it well-formed.
pub struct ReceiverState<T, F> {
    pub transfers: Vec<FileTransfer<T, F>>,
    pub completed: Vec<String>,
}

impl<T, F> ReceiverState<T, F> {
    /// Tags are unique among transfers and among completed transfers, and
    /// no transfer in progress has a completed tag.
    pub open spec fn wf(&self) -> bool {
        &&& forall|i: int, j: int|
            0 <= i < j < self.transfers@.len() ==> self.transfers@[i].app_tag@
                != self.transfers@[j].app_tag@
        &&& forall|i: int, j: int|
            0 <= i < j < self.completed@.len() ==> self.completed@[i]@ != self.completed@[j]@
        &&& forall|i: int, k: int|
            0 <= i < self.transfers@.len() && 0 <= k < self.completed@.len()
                ==> self.transfers@[i].app_tag@ != self.completed@[k]@
    }

    /// Whether the transfer tagged `tag` has completed.
    pub open spec fn has_completed(&self, tag: Seq<char>) -> bool {
        exists|k: int| 0 <= k < self.completed@.len() && self.completed@[k]@ == tag
    }

    /// Whether a transfer tagged `tag` is in progress.
    pub open spec fn has_transfer(&self, tag: Seq<char>) -> bool {
        exists|i: int| 0 <= i < self.transfers@.len() && self.transfers@[i].app_tag@ == tag
    }

    /// A receiver with no transfer.
    fn new() -> (r: Self)
        ensures
            r.transfers@.len() == 0,
            r.completed@.len() == 0,
            r.wf(),
    {
        ReceiverState { transfers: Vec::new(), completed: Vec::new() }
    }

    /// Whether the transfer tagged `app_tag` has completed.
    fn is_completed(&self, app_tag: &str) -> (b: bool)
        ensures
            b == self.has_completed(app_tag@),
    {
        let n: usize = self.completed.len();
        let mut k: usize = 0;
        while k < n
            invariant
                n == self.completed@.len(),
                k <= n,
                forall|m: int| 0 <= m < k ==> self.completed@[m]@ != app_tag@,
            decreases n - k,
        {
            if same_text(self.completed[k].as_str(), app_tag) {
                return true;
            }
            k = k + 1;
        }
        false
    }

    /// The index of the transfer tagged `app_tag`, if one is in progress.
    fn find(&self, app_tag: &str) -> (r: Option<usize>)
        ensures
            match r {
                Some(i) => i < self.transfers@.len() && self.transfers@[i as int].app_tag@
                    == app_tag@,
                None => !self.has_transfer(app_tag@),
            },
    {
        let n: usize = self.transfers.len();
        let mut i: usize = 0;
        while i < n
            invariant
                n == self.transfers@.len(),
                i <= n,
                forall|m: int| 0 <= m < i ==> self.transfers@[m].app_tag@ != app_tag@,
            decreases n - i,
        {
            if same_text(self.transfers[i].app_tag.as_str(), app_tag) {
                return Some(i);
            }
            i = i + 1;
        }
        None
    }

    /// Drops every transfer that has been quiet for longer than the timeout
    /// at `now`, keeping the others in order.
    fn remove_timed_out(&mut self, now: u64)
        requires
            old(self).wf(),
        ensures
            final(self).wf(),
            final(self).transfers@ == old(self).transfers@.filter(
                |t: FileTransfer<T, F>| alive_at(t, now),
            ),
            final(self).completed@ == old(self).completed@,
    {
        let ghost orig = self.transfers@;
        let ghost pred = |t: FileTransfer<T, F>| alive_at(t, now);
        let ghost mut k: int = 0;
        let mut i: usize = 0;
        assert(orig.subrange(0, 0).filter(pred) == Seq::<FileTransfer<T, F>>::empty());
        assert(orig.subrange(0, orig.len() as int) == orig);
        while i < self.transfers.len()
            invariant
                0 <= k <= orig.len(),
                i <= self.transfers@.len(),
                self.transfers@ == orig.subrange(0, k).filter(pred) + orig.subrange(
                    k,
                    orig.len() as int,
                ),
                i == orig.subrange(0, k).filter(pred).len(),
                self.wf(),
                self.completed@ == old(self).completed@,
                pred == (|t: FileTransfer<T, F>| alive_at(t, now)),
            decreases self.transfers@.len() - i,
        {
            let ghost before = self.transfers@;
            let ghost kept = orig.subrange(0, k).filter(pred);
            assert(before[i as int] == orig[k]);
            assert(orig.subrange(0, k + 1).drop_last() == orig.subrange(0, k));
            assert(orig.subrange(0, k + 1).last() == orig[k]);
            assert(orig.subrange(0, k + 1) == orig.subrange(0, k).push(orig[k]));
            proof {
                orig.subrange(0, k).lemma_filter_push(orig[k], pred);
            }
            if self.transfers[i].is_timed_out(now) {
                let _dropped = self.transfers.remove(i);
                assert(!pred(orig[k]));
                assert(orig.subrange(0, k + 1).filter(pred) == kept);
                assert(self.transfers@ == kept + orig.subrange(k + 1, orig.len() as int));
                assert forall|a: int, b: int|
                    0 <= a < b < self.transfers@.len() implies self.transfers@[a].app_tag@
                    != self.transfers@[b].app_tag@ by {
                    let a0 = if a < i { a } else { a + 1 };
                    let b0 = if b < i { b } else { b + 1 };
                    assert(self.transfers@[a] == before[a0]);
                    assert(self.transfers@[b] == before[b0]);
                }
                assert forall|a: int, c: int|
                    0 <= a < self.transfers@.len() && 0 <= c < self.completed@.len() implies self.transfers@[a].app_tag@
                    != self.completed@[c]@ by {
                    let a0 = if a < i { a } else { a + 1 };
                    assert(self.transfers@[a] == before[a0]);
                }
            } else {
                assert(pred(orig[k]));
                assert(orig.subrange(0, k + 1).filter(pred) == kept.push(orig[k]));
                assert(self.transfers@ == kept.push(orig[k]) + orig.subrange(
                    k + 1,
                    orig.len() as int,
                ));
                i = i + 1;
            }
            proof {
                k = k + 1;
            }
        }
        assert(orig.subrange(k, orig.len() as int).len() == 0);
        assert(self.transfers@ == orig.subrange(0, k).filter(pred));
        assert(k == orig.len());
        assert(orig.subrange(0, k) == orig);
    }

    /// Looks up where a chunk of the transfer tagged `app_tag`, arriving at
    /// `now`, goes. Unless that transfer has completed, transfers that timed
    /// out are dropped first.
    fn begin_chunk(&mut self, app_tag: &str, now: u64) -> (slot: ChunkSlot)
        requires
            old(self).wf(),
        ensures
            final(self).wf(),
            old(self).has_completed(app_tag@) ==> slot is Completed && final(self).transfers@
                == old(self).transfers@ && final(self).completed@ == old(self).completed@,
            !old(self).has_completed(app_tag@) ==> {
                &&& final(self).transfers@ == old(self).transfers@.filter(
                    |t: FileTransfer<T, F>| alive_at(t, now),
                )
                &&& final(self).completed@ == old(self).completed@
                &&& match slot {
                    ChunkSlot::Existing(i) => i < final(self).transfers@.len()
                        && final(self).transfers@[i as int].app_tag@ == app_tag@,
                    ChunkSlot::New => !final(self).has_transfer(app_tag@),
                    ChunkSlot::Completed => false,
                }
            },
    {
        if self.is_completed(app_tag) {
            return ChunkSlot::Completed;
        }
        self.remove_timed_out(now);
        match self.find(app_tag) {
            Some(i) => ChunkSlot::Existing(i),
            None => ChunkSlot::New,
        }
    }

    /// Adds the transfer `t`, whose tag is neither in progress nor completed.
    fn open_transfer(&mut self, t: FileTransfer<T, F>) -> (i: usize)
        requires
            old(self).wf(),
            !old(self).has_transfer(t.app_tag@),
            !old(self).has_completed(t.app_tag@),
        ensures
            final(self).wf(),
            final(self).transfers@ == old(self).transfers@.push(t),
            final(self).completed@ == old(self).completed@,
            i == old(self).transfers@.len(),
    {
        let i = self.transfers.len();
        let ghost tag = t.app_tag@;
        self.transfers.push(t);
        assert forall|a: int, b: int|
            0 <= a < b < self.transfers@.len() implies self.transfers@[a].app_tag@
            != self.transfers@[b].app_tag@ by {
            if b == i {
                assert(old(self).transfers@[a].app_tag@ != tag);
            }
        }
        assert forall|a: int, c: int|
            0 <= a < self.transfers@.len() && 0 <= c < self.completed@.len() implies self.transfers@[a].app_tag@
            != self.completed@[c]@ by {
            if a == i {
                assert(self.completed@[c]@ != tag);
            }
        }
        i
    }

    /// Takes transfer `i` out of the registry and records its tag as
    /// completed.
    fn finish_transfer(&mut self, i: usize) -> (t: FileTransfer<T, F>)
        requires
            old(self).wf(),
            i < old(self).transfers@.len(),
        ensures
            final(self).wf(),
            t == old(self).transfers@[i as int],
            final(self).transfers@ == old(self).transfers@.remove(i as int),
            final(self).completed@.len() == old(self).completed@.len() + 1,
            final(self).completed@.drop_last() == old(self).completed@,
            final(self).completed@.last()@ == t.app_tag@,
            final(self).has_completed(t.app_tag@),
    {
        let ghost before = self.transfers@;
        let t = self.transfers.remove(i);
        let tag = t.app_tag.clone();
        self.completed.push(tag);
        let ghost n = self.completed@.len();
        assert(self.completed@[n - 1]@ == t.app_tag@);
        assert forall|a: int, b: int|
            0 <= a < b < self.transfers@.len() implies self.transfers@[a].app_tag@
            != self.transfers@[b].app_tag@ by {
            let a0 = if a < i { a } else { a + 1 };
            let b0 = if b < i { b } else { b + 1 };
            assert(self.transfers@[a] == before[a0]);
            assert(self.transfers@[b] == before[b0]);
        }
        assert forall|a: int, b: int|
            0 <= a < b < self.completed@.len() implies self.completed@[a]@
            != self.completed@[b]@ by {
            if b == n - 1 {
                assert(before[i as int].app_tag@ != old(self).completed@[a]@);
            }
        }
        assert forall|a: int, c: int|
            0 <= a < self.transfers@.len() && 0 <= c < self.completed@.len() implies self.transfers@[a].app_tag@
            != self.completed@[c]@ by {
            let a0 = if a < i { a } else { a + 1 };
            assert(self.transfers@[a] == before[a0]);
            if c == n - 1 {
                assert(a0 != i);
            }
        }
        assert(self.completed@.drop_last() == old(self).completed@);
        t
    }

    /// Decides what follows the writing of a chunk of transfer `i` at
    /// `now`: completion when every chunk came, else a round of resend
    /// requests when the transfer has been quiet long enough, else nothing.
    fn after_chunk_saved(&mut self, i: usize, now: u64) -> (next: AfterSave<T, F>)
        requires
            old(self).wf(),
            i < old(self).transfers@.len(),
        ensures
            final(self).wf(),
            ({
                let before = old(self).transfers@[i as int];
                let complete = before.received_chunks@.len() == before.total_chunks;
                let due = elapsed_secs(before.last_activity, now) >= RESEND_INACTIVITY_SECS
                    && elapsed_secs(before.last_resend_check, now) >= RESEND_CHECK_INTERVAL_SECS;
                match next {
                    AfterSave::Complete(t) => {
                        &&& complete
                        &&& t == before
                        &&& final(self).transfers@ == old(self).transfers@.remove(i as int)
                        &&& final(self).completed@ == old(self).completed@.push(
                            final(self).completed@.last(),
                        )
                        &&& final(self).completed@.last()@ == before.app_tag@
                    },
                    AfterSave::Resend(requested) => {
                        &&& !complete
                        &&& due
                        &&& final(self).transfers@.len() == old(self).transfers@.len()
                        &&& resend_round(before, final(self).transfers@[i as int], requested@, now)
                        &&& forall|j: int|
                            0 <= j < old(self).transfers@.len() && j != i
                                ==> final(self).transfers@[j] == old(self).transfers@[j]
                        &&& final(self).completed@ == old(self).completed@
                    },
                    AfterSave::Waiting => {
                        &&& !complete
                        &&& !due
                        &&& final(self).transfers@ == old(self).transfers@
                        &&& final(self).completed@ == old(self).completed@
                    },
                }
            }),
    {
        if self.transfers[i].is_complete() {
            let t = self.finish_transfer(i);
            assert(self.completed@ == old(self).completed@.push(self.completed@.last()));
            return AfterSave::Complete(t);
        }
        if self.transfers[i].should_check_resend(now) {
            let ghost before = self.transfers@;
            let mut t = self.transfers.remove(i);
            let requested = t.take_resend_requests(now);
            self.transfers.insert(i, t);
            assert forall|a: int, b: int|
                0 <= a < b < self.transfers@.len() implies self.transfers@[a].app_tag@
                != self.transfers@[b].app_tag@ by {
                assert(self.transfers@[a].app_tag@ == before[a].app_tag@);
                assert(self.transfers@[b].app_tag@ == before[b].app_tag@);
            }
            assert forall|a: int, c: int|
                0 <= a < self.transfers@.len() && 0 <= c < self.completed@.len() implies self.transfers@[a].app_tag@
                != self.completed@[c]@ by {
                assert(self.transfers@[a].app_tag@ == before[a].app_tag@);
            }
            return AfterSave::Resend(requested);
        }
        AfterSave::Waiting
    }

    /// The number of transfers in progress.
    fn len(&self) -> (n: usize)
        ensures
            n == self.transfers@.len(),
    {
        self.transfers.len()
    }

    /// Transfer `i`.
    fn transfer(&self, i: usize) -> (t: &FileTransfer<T, F>)
        requires
            i < self.transfers@.len(),
        ensures
            *t == self.transfers@[i as int],
    {
        &self.transfers[i]
    }

    /// `FileTransfer::accept_chunk` on transfer `i`.
    fn accept_chunk(&mut self, i: usize, chunk_idx: usize, sender_tag: Option<T>) -> (is_new: bool)
        requires
            old(self).wf(),
            i < old(self).transfers@.len(),
        ensures
            final(self).wf(),
            final(self).completed@ == old(self).completed@,
            final(self).transfers@.len() == old(self).transfers@.len(),
            forall|j: int|
                0 <= j < old(self).transfers@.len() && j != i ==> final(self).transfers@[j]
                    == old(self).transfers@[j],
            ({
                let before = old(self).transfers@[i as int];
                let after = final(self).transfers@[i as int];
                &&& is_new == !before.received_chunks@.contains(chunk_idx)
                &&& after.received_chunks@ == before.received_chunks@.insert(chunk_idx)
                &&& after.sender_tag == (if before.sender_tag is None && sender_tag is Some {
                    sender_tag
                } else {
                    before.sender_tag
                })
                &&& after.filename == before.filename
                &&& after.app_tag == before.app_tag
                &&& after.total_chunks == before.total_chunks
                &&& after.original_file_size == before.original_file_size
                &&& after.target == before.target
                &&& after.last_activity == before.last_activity
                &&& after.last_resend_check == before.last_resend_check
                &&& after.resend_attempts@ == before.resend_attempts@
            }),
    {
        let ghost before = self.transfers@;
        let mut t = self.transfers.remove(i);
        let is_new = t.accept_chunk(chunk_idx, sender_tag);
        self.transfers.insert(i, t);
        assert forall|a: int, b: int|
            0 <= a < b < self.transfers@.len() implies self.transfers@[a].app_tag@
            != self.transfers@[b].app_tag@ by {
            assert(self.transfers@[a].app_tag@ == before[a].app_tag@);
            assert(self.transfers@[b].app_tag@ == before[b].app_tag@);
        }
        assert forall|a: int, c: int|
            0 <= a < self.transfers@.len() && 0 <= c < self.completed@.len() implies self.transfers@[a].app_tag@
            != self.completed@[c]@ by {
            assert(self.transfers@[a].app_tag@ == before[a].app_tag@);
        }
        is_new
    }

    /// `FileTransfer::record_chunk` on transfer `i`.
    fn record_chunk(&mut self, i: usize, chunk_idx: usize, now: u64)
        requires
            old(self).wf(),
            i < old(self).transfers@.len(),
        ensures
            final(self).wf(),
            final(self).completed@ == old(self).completed@,
            final(self).transfers@.len() == old(self).transfers@.len(),
            forall|j: int|
                0 <= j < old(self).transfers@.len() && j != i ==> final(self).transfers@[j]
                    == old(self).transfers@[j],
            ({
                let before = old(self).transfers@[i as int];
                let after = final(self).transfers@[i as int];
                &&& after.received_chunks@ == before.received_chunks@.insert(chunk_idx)
                &&& after.last_activity == now
                &&& after.filename == before.filename
                &&& after.app_tag == before.app_tag
                &&& after.total_chunks == before.total_chunks
                &&& after.original_file_size == before.original_file_size
                &&& after.target == before.target
                &&& after.sender_tag == before.sender_tag
                &&& after.last_resend_check == before.last_resend_check
                &&& after.resend_attempts@ == before.resend_attempts@
            }),
    {
        let ghost before = self.transfers@;
        let mut t = self.transfers.remove(i);
        t.record_chunk(chunk_idx, now);
        self.transfers.insert(i, t);
        assert forall|a: int, b: int|
            0 <= a < b < self.transfers@.len() implies self.transfers@[a].app_tag@
            != self.transfers@[b].app_tag@ by {
            assert(self.transfers@[a].app_tag@ == before[a].app_tag@);
            assert(self.transfers@[b].app_tag@ == before[b].app_tag@);
        }
        assert forall|a: int, c: int|
            0 <= a < self.transfers@.len() && 0 <= c < self.completed@.len() implies self.transfers@[a].app_tag@
            != self.completed@[c]@ by {
            assert(self.transfers@[a].app_tag@ == before[a].app_tag@);
        }
    }
}

/// The transfers in progress and the tags of completed transfers. Tags are
/// unique among transfers and among completed transfers, and no transfer in
/// progress has a completed tag; every operation keeps this.
pub struct Receiver<T, F> {
    state: ReceiverState<T, F>,
}

impl<T, F> Receiver<T, F> {
    #[verifier::type_invariant]
    closed spec fn well_formed(&self) -> bool {
        self.state.wf()
    }

    /// The bookkeeping that the receiver holds.
    pub closed spec fn state(&self) -> ReceiverState<T, F> {
        self.state
    }

    /// A receiver with no transfer.
    pub fn new() -> (r: Self)
        ensures
            r.state().transfers@.len() == 0,
            r.state().completed@.len() == 0,
            r.state().wf(),
    {
        Receiver { state: ReceiverState::new() }
    }

    /// Whether the transfer tagged `app_tag` has completed.
    pub fn is_completed(&self, app_tag: &str) -> (b: bool)
        ensures
            b == self.state().has_completed(app_tag@),
    {
        proof {
            use_type_invariant(self);
        }
        self.state.is_completed(app_tag)
    }

    /// The index of the transfer tagged `app_tag`, if one is in progress.
    pub fn find(&self, app_tag: &str) -> (r: Option<usize>)
        ensures
            match r {
                Some(i) => i < self.state().transfers@.len() && self.state().transfers@[i as int].app_tag@
                    == app_tag@,
                None => !self.state().has_transfer(app_tag@),
            },
    {
        proof {
            use_type_invariant(self);
        }
        self.state.find(app_tag)
    }

    /// Drops every transfer that has been quiet for longer than the timeout
    /// at `now`, keeping the others in order.
    pub fn remove_timed_out(&mut self, now: u64)
        ensures
            final(self).state().wf(),
            final(self).state().transfers@ == old(self).state().transfers@.filter(
                |t: FileTransfer<T, F>| alive_at(t, now),
            ),
            final(self).state().completed@ == old(self).state().completed@,
    {
        proof {
            use_type_invariant(&*self);
        }
        let mut st = ReceiverState::new();
        std::mem::swap(&mut st, &mut self.state);
        let r = st.remove_timed_out(now);
        self.state = st;
        r
    }

    /// Looks up where a chunk of the transfer tagged `app_tag`, arriving at
    /// `now`, goes. Unless that transfer has completed, transfers that timed
    /// out are dropped first.
    pub fn begin_chunk(&mut self, app_tag: &str, now: u64) -> (slot: ChunkSlot)
        ensures
            final(self).state().wf(),
            old(self).state().has_completed(app_tag@) ==> slot is Completed && final(self).state().transfers@
                == old(self).state().transfers@ && final(self).state().completed@ == old(self).state().completed@,
            !old(self).state().has_completed(app_tag@) ==> {
                &&& final(self).state().transfers@ == old(self).state().transfers@.filter(
                    |t: FileTransfer<T, F>| alive_at(t, now),
                )
                &&& final(self).state().completed@ == old(self).state().completed@
                &&& match slot {
                    ChunkSlot::Existing(i) => i < final(self).state().transfers@.len()
                        && final(self).state().transfers@[i as int].app_tag@ == app_tag@,
                    ChunkSlot::New => !final(self).state().has_transfer(app_tag@),
                    ChunkSlot::Completed => false,
                }
            },
    {
        proof {
            use_type_invariant(&*self);
        }
        let mut st = ReceiverState::new();
        std::mem::swap(&mut st, &mut self.state);
        let r = st.begin_chunk(app_tag, now);
        self.state = st;
        r
    }

    /// Adds the transfer `t`, whose tag is neither in progress nor completed.
    pub fn open_transfer(&mut self, t: FileTransfer<T, F>) -> (i: usize)
        requires
            !old(self).state().has_transfer(t.app_tag@),
            !old(self).state().has_completed(t.app_tag@),
        ensures
            final(self).state().wf(),
            final(self).state().transfers@ == old(self).state().transfers@.push(t),
            final(self).state().completed@ == old(self).state().completed@,
            i == old(self).state().transfers@.len(),
    {
        proof {
            use_type_invariant(&*self);
        }
        let mut st = ReceiverState::new();
        std::mem::swap(&mut st, &mut self.state);
        let r = st.open_transfer(t);
        self.state = st;
        r
    }

    /// Takes transfer `i` out of the registry and records its tag as
    /// completed.
    pub fn finish_transfer(&mut self, i: usize) -> (t: FileTransfer<T, F>)
        requires
            i < old(self).state().transfers@.len(),
        ensures
            final(self).state().wf(),
            t == old(self).state().transfers@[i as int],
            final(self).state().transfers@ == old(self).state().transfers@.remove(i as int),
            final(self).state().completed@.len() == old(self).state().completed@.len() + 1,
            final(self).state().completed@.drop_last() == old(self).state().completed@,
            final(self).state().completed@.last()@ == t.app_tag@,
            final(self).state().has_completed(t.app_tag@),
    {
        proof {
            use_type_invariant(&*self);
        }
        let mut st = ReceiverState::new();
        std::mem::swap(&mut st, &mut self.state);
        let r = st.finish_transfer(i);
        self.state = st;
        r
    }

    /// Decides what follows the writing of a chunk of transfer `i` at
    /// `now`: completion when every chunk came, else a round of resend
    /// requests when the transfer has been quiet long enough, else nothing.
    pub fn after_chunk_saved(&mut self, i: usize, now: u64) -> (next: AfterSave<T, F>)
        requires
            i < old(self).state().transfers@.len(),
        ensures
            final(self).state().wf(),
            ({
                let before = old(self).state().transfers@[i as int];
                let complete = before.received_chunks@.len() == before.total_chunks;
                let due = elapsed_secs(before.last_activity, now) >= RESEND_INACTIVITY_SECS
                    && elapsed_secs(before.last_resend_check, now) >= RESEND_CHECK_INTERVAL_SECS;
                match next {
                    AfterSave::Complete(t) => {
                        &&& complete
                        &&& t == before
                        &&& final(self).state().transfers@ == old(self).state().transfers@.remove(i as int)
                        &&& final(self).state().completed@ == old(self).state().completed@.push(
                            final(self).state().completed@.last(),
                        )
                        &&& final(self).state().completed@.last()@ == before.app_tag@
                    },
                    AfterSave::Resend(requested) => {
                        &&& !complete
                        &&& due
                        &&& final(self).state().transfers@.len() == old(self).state().transfers@.len()
                        &&& resend_round(before, final(self).state().transfers@[i as int], requested@, now)
                        &&& lifetime_step(before, final(self).state().transfers@[i as int], requested@)
                        &&& forall|j: int|
                            0 <= j < old(self).state().transfers@.len() && j != i
                                ==> final(self).state().transfers@[j] == old(self).state().transfers@[j]
                        &&& final(self).state().completed@ == old(self).state().completed@
                    },
                    AfterSave::Waiting => {
                        &&& !complete
                        &&& !due
                        &&& final(self).state().transfers@ == old(self).state().transfers@
                        &&& lifetime_step(before, final(self).state().transfers@[i as int], Seq::empty())
                        &&& final(self).state().completed@ == old(self).state().completed@
                    },
                }
            }),
    {
        proof {
            use_type_invariant(&*self);
        }
        let mut st = ReceiverState::new();
        std::mem::swap(&mut st, &mut self.state);
        let r = st.after_chunk_saved(i, now);
        proof {
            let before = old(self).state().transfers@[i as int];
            match &r {
                AfterSave::Resend(requested) => {
                    assert(resend_due(before, now));
                    assert(resend_round(before, st.transfers@[i as int], requested@, now));
                },
                AfterSave::Waiting => {
                    assert(st.transfers@[i as int] == before);
                },
                _ => {},
            }
        }
        self.state = st;
        r
    }

    /// The number of transfers in progress.
    pub fn len(&self) -> (n: usize)
        ensures
            n == self.state().transfers@.len(),
    {
        proof {
            use_type_invariant(self);
        }
        self.state.len()
    }

    /// Transfer `i`.
    pub fn transfer(&self, i: usize) -> (t: &FileTransfer<T, F>)
        requires
            i < self.state().transfers@.len(),
        ensures
            *t == self.state().transfers@[i as int],
    {
        proof {
            use_type_invariant(self);
        }
        self.state.transfer(i)
    }

    /// `FileTransfer::accept_chunk` on transfer `i`: returns whether the
    /// chunk is new to it.
    pub fn accept_chunk(&mut self, i: usize, chunk_idx: usize, sender_tag: Option<T>) -> (is_new: bool)
        requires
            i < old(self).state().transfers@.len(),
        ensures
            final(self).state().wf(),
            final(self).state().completed@ == old(self).state().completed@,
            final(self).state().transfers@.len() == old(self).state().transfers@.len(),
            forall|j: int|
                0 <= j < old(self).state().transfers@.len() && j != i
                    ==> final(self).state().transfers@[j] == old(self).state().transfers@[j],
            is_new == !old(self).state().transfers@[i as int].received_chunks@.contains(chunk_idx),
            accepted(
                old(self).state().transfers@[i as int],
                final(self).state().transfers@[i as int],
                chunk_idx,
                sender_tag,
            ),
            lifetime_step(
                old(self).state().transfers@[i as int],
                final(self).state().transfers@[i as int],
                Seq::empty(),
            ),
    {
        proof {
            use_type_invariant(&*self);
        }
        let mut st = ReceiverState::new();
        std::mem::swap(&mut st, &mut self.state);
        let r = st.accept_chunk(i, chunk_idx, sender_tag);
        self.state = st;
        r
    }

    /// `FileTransfer::record_chunk` on transfer `i`.
    pub fn record_chunk(&mut self, i: usize, chunk_idx: usize, now: u64)
        requires
            i < old(self).state().transfers@.len(),
        ensures
            final(self).state().wf(),
            final(self).state().completed@ == old(self).state().completed@,
            final(self).state().transfers@.len() == old(self).state().transfers@.len(),
            forall|j: int|
                0 <= j < old(self).state().transfers@.len() && j != i
                    ==> final(self).state().transfers@[j] == old(self).state().transfers@[j],
            recorded(
                old(self).state().transfers@[i as int],
                final(self).state().transfers@[i as int],
                chunk_idx,
                now,
            ),
            lifetime_step(
                old(self).state().transfers@[i as int],
                final(self).state().transfers@[i as int],
                Seq::empty(),
            ),
    {
        proof {
            use_type_invariant(&*self);
        }
        let mut st = ReceiverState::new();
        std::mem::swap(&mut st, &mut self.state);
        let r = st.record_chunk(i, chunk_idx, now);
        self.state = st;
        r
    }

    /// The first decision on a chunk message numbered `chunk_idx` of the
    /// transfer tagged `app_tag`, arriving at `now` with reply handle
    /// `sender_tag`. A handshake is answered and changes nothing. A chunk of
    /// a completed transfer is skipped. Otherwise transfers that timed out
    /// are dropped; a chunk of a transfer in progress is noted, and written
    /// only when it had not come before; a chunk of an unknown transfer asks
    /// for its file.
    pub fn on_chunk_message(
        &mut self,
        chunk_idx: usize,
        app_tag: &str,
        sender_tag: Option<T>,
        now: u64,
    ) -> (step: Step)
        ensures
            chunk_idx == HANDSHAKE_CHUNK_IDX ==> {
                &&& step is ReplyReady
                &&& final(self).state().transfers@ == old(self).state().transfers@
                &&& final(self).state().completed@ == old(self).state().completed@
            },
            chunk_idx != HANDSHAKE_CHUNK_IDX && old(self).state().has_completed(app_tag@) ==> {
                &&& step is Skip
                &&& final(self).state().transfers@ == old(self).state().transfers@
                &&& final(self).state().completed@ == old(self).state().completed@
            },
            chunk_idx != HANDSHAKE_CHUNK_IDX && !old(self).state().has_completed(app_tag@) ==> {
                let kept = old(self).state().transfers@.filter(
                    |t: FileTransfer<T, F>| alive_at(t, now),
                );
                let after = final(self).state().transfers@;
                &&& final(self).state().completed@ == old(self).state().completed@
                &&& after.len() == kept.len()
                &&& match step {
                    Step::ReplyReady => false,
                    Step::OpenFile => after == kept && !final(self).state().has_transfer(app_tag@),
                    Step::Write(i) => {
                        &&& i < kept.len()
                        &&& kept[i as int].app_tag@ == app_tag@
                        &&& !kept[i as int].received_chunks@.contains(chunk_idx)
                        &&& accepted(kept[i as int], after[i as int], chunk_idx, sender_tag)
                        &&& lifetime_step(kept[i as int], after[i as int], Seq::empty())
                        &&& forall|j: int| 0 <= j < kept.len() && j != i ==> after[j] == kept[j]
                    },
                    Step::Skip => exists|i: int|
                        {
                            &&& 0 <= i < kept.len()
                            &&& #[trigger] kept[i].app_tag@ == app_tag@
                            &&& kept[i].received_chunks@.contains(chunk_idx)
                            &&& accepted(kept[i], after[i], chunk_idx, sender_tag)
                            &&& lifetime_step(kept[i], after[i], Seq::empty())
                            &&& forall|j: int| 0 <= j < kept.len() && j != i ==> after[j] == kept[j]
                        },
                }
            },
    {
        if is_handshake(chunk_idx) {
            return Step::ReplyReady;
        }
        match self.begin_chunk(app_tag, now) {
            ChunkSlot::Completed => Step::Skip,
            ChunkSlot::New => Step::OpenFile,
            ChunkSlot::Existing(i) => {
                if self.accept_chunk(i, chunk_idx, sender_tag) {
                    Step::Write(i)
                } else {
                    Step::Skip
                }
            },
        }
    }

    /// Registers the transfer `t` whose file was just opened for chunk
    /// `chunk_idx`, arriving with reply handle `sender_tag`, and notes that
    /// chunk; returns the transfer's index, where the chunk is to be written.
    pub fn file_opened(&mut self, t: FileTransfer<T, F>, chunk_idx: usize, sender_tag: Option<T>) -> (i: usize)
        requires
            !old(self).state().has_transfer(t.app_tag@),
            !old(self).state().has_completed(t.app_tag@),
        ensures
            i == old(self).state().transfers@.len(),
            final(self).state().transfers@.len() == i + 1,
            final(self).state().transfers@.drop_last() == old(self).state().transfers@,
            accepted(t, final(self).state().transfers@[i as int], chunk_idx, sender_tag),
            lifetime_step(t, final(self).state().transfers@[i as int], Seq::empty()),
            final(self).state().completed@ == old(self).state().completed@,
    {
        let i = self.open_transfer(t);
        self.accept_chunk(i, chunk_idx, sender_tag);
        assert(self.state().transfers@.drop_last() =~= old(self).state().transfers@);
        i
    }

    /// Notes that chunk `chunk_idx` of transfer `i` was written at `now`
    /// and decides what follows: the transfer completes when every chunk
    /// came. No round of resend requests can be due right after a chunk was
    /// written, so none is taken here.
    pub fn chunk_written(&mut self, i: usize, chunk_idx: usize, now: u64) -> (next: AfterSave<T, F>)
        requires
            i < old(self).state().transfers@.len(),
        ensures
            ({
                let before = old(self).state().transfers@[i as int];
                let got = before.received_chunks@.insert(chunk_idx);
                match next {
                    AfterSave::Complete(t) => {
                        &&& got.len() == before.total_chunks
                        &&& recorded(before, t, chunk_idx, now)
                        &&& final(self).state().transfers@ == old(self).state().transfers@.remove(i as int)
                        &&& final(self).state().completed@.drop_last() == old(self).state().completed@
                        &&& final(self).state().completed@.len() == old(self).state().completed@.len() + 1
                        &&& final(self).state().completed@.last()@ == before.app_tag@
                    },
                    AfterSave::Waiting => {
                        &&& got.len() != before.total_chunks
                        &&& final(self).state().transfers@.len() == old(self).state().transfers@.len()
                        &&& recorded(before, final(self).state().transfers@[i as int], chunk_idx, now)
                        &&& lifetime_step(before, final(self).state().transfers@[i as int], Seq::empty())
                        &&& forall|j: int|
                            0 <= j < old(self).state().transfers@.len() && j != i
                                ==> final(self).state().transfers@[j] == old(self).state().transfers@[j]
                        &&& final(self).state().completed@ == old(self).state().completed@
                    },
                    AfterSave::Resend(_) => false,
                }
            }),
    {
        self.record_chunk(i, chunk_idx, now);
        let next = self.after_chunk_saved(i, now);
        proof {
            assert(elapsed_secs(now, now) == 0);
            if next is Complete {
                assert(final(self).state().completed@.drop_last() =~= old(self).state().completed@);
            }
        }
        next
    }
}

} // verus!