//! The state that the requests of a server share.
use crate::outside::{
    index_entry_insert, index_entry_len, index_new, index_remove, queue_len, queue_new, queue_pop,
    queue_push,
};
use std::collections::HashSet;
use vstd::prelude::*;

verus! {

/// How many cache keys are remembered for one track.
pub const MAX_KEYS_PER_TRACK: usize = 64;

/// How many missing tracks can wait to be looked for.
pub const QUEUE_CAPACITY: usize = 600000;

/// The state that requests share. A missing track is represented by a ticket,
/// under which whoever enqueued it finds it again.
pub struct AppState {
    get_metadata_index: dashmap::DashMap<i64, HashSet<String>>,
    queue: crossbeam_queue::ArrayQueue<u64>,
    request_counter: usize,
    recent_lyrics_count: usize,
    workers_count: u8,
    supervised: bool,
}

/// What an `AppState` stands for.
#[verifier::ext_equal]
pub struct AppModel {
    /// For each track id, the cache keys of the responses that hold it.
    pub index: Map<i64, Set<Seq<char>>>,
    /// The tickets of the tracks to look for, the oldest first.
    pub missing_tracks: Seq<u64>,
    /// How many tickets can wait.
    pub capacity: nat,
    /// The requests since the last report.
    pub requests: usize,
    /// The lyrics published of late.
    pub recent_lyrics: usize,
    /// The configured number of workers.
    pub workers: u8,
    /// Whether a supervisor takes changes to the number of workers.
    pub supervised: bool,
}

impl AppModel {
    /// No more waits in the queue than it can hold, and every track with an
    /// entry has at least one key and no more than the allowed number.
    pub open spec fn wf(self) -> bool {
        &&& self.missing_tracks.len() <= self.capacity
        &&& forall|track_id: i64| #[trigger]
            self.index.contains_key(track_id) ==> self.index[track_id].finite() && 1
                <= self.index[track_id].len() <= MAX_KEYS_PER_TRACK
    }

    /// The state of a server that has just started.
    pub open spec fn initial() -> AppModel {
        AppModel {
            index: Map::empty(),
            missing_tracks: Seq::empty(),
            capacity: QUEUE_CAPACITY as nat,
            requests: 0,
            recent_lyrics: 0,
            workers: 0,
            supervised: false,
        }
    }

    /// Whether the queue has room for one more ticket.
    pub open spec fn has_room(self) -> bool {
        self.missing_tracks.len() < self.capacity
    }

    /// The state with `ticket` at the end of the queue, if there is room.
    pub open spec fn enqueued(self, ticket: u64) -> AppModel {
        if self.has_room() {
            AppModel { missing_tracks: self.missing_tracks.push(ticket), ..self }
        } else {
            self
        }
    }

    /// The state without the oldest ticket.
    pub open spec fn dequeued(self) -> AppModel {
        if self.missing_tracks.len() > 0 {
            AppModel { missing_tracks: self.missing_tracks.skip(1), ..self }
        } else {
            self
        }
    }

    /// The oldest ticket.
    pub open spec fn oldest(self) -> Option<u64> {
        if self.missing_tracks.len() > 0 {
            Some(self.missing_tracks[0])
        } else {
            None
        }
    }

    /// The keys remembered for `track_id`.
    pub open spec fn keys(self, track_id: i64) -> Set<Seq<char>> {
        crate::outside::keys_of(self.index, track_id)
    }

    /// The state that remembers `key` for `track_id` too, unless the track
    /// already has as many keys as are allowed. Either way it has an entry.
    pub open spec fn indexed(self, track_id: i64, key: Seq<char>) -> AppModel {
        let keys = if self.keys(track_id).len() < MAX_KEYS_PER_TRACK {
            self.keys(track_id).insert(key)
        } else {
            self.keys(track_id)
        };
        AppModel { index: self.index.insert(track_id, keys), ..self }
    }

    /// The state that remembers nothing for `track_id`.
    pub open spec fn forgotten(self, track_id: i64) -> AppModel {
        AppModel { index: self.index.remove(track_id), ..self }
    }

    /// The state with one request more on the counter, which wraps around.
    pub open spec fn counted(self) -> AppModel {
        AppModel { requests: self.requests.wrapping_add(1), ..self }
    }

    /// The state with the counter back at zero.
    pub open spec fn reported(self) -> AppModel {
        AppModel { requests: 0, ..self }
    }

    /// The state with `count` recent lyrics on record.
    pub open spec fn with_recent_lyrics(self, count: usize) -> AppModel {
        AppModel { recent_lyrics: count, ..self }
    }

    /// The state with `workers` workers asked for.
    pub open spec fn with_workers(self, workers: u8) -> AppModel {
        AppModel { workers, ..self }
    }

    /// The state with a supervisor that has started with `workers` workers.
    pub open spec fn with_supervisor(self, workers: u8) -> AppModel {
        AppModel { workers, supervised: true, ..self }
    }
}

impl View for AppState {
    type V = AppModel;

    closed spec fn view(&self) -> AppModel {
        AppModel {
            index: crate::outside::indexed_keys(self.get_metadata_index),
            missing_tracks: crate::outside::queued(self.queue),
            capacity: crate::outside::queue_capacity(self.queue),
            requests: self.request_counter,
            recent_lyrics: self.recent_lyrics_count,
            workers: self.workers_count,
            supervised: self.supervised,
        }
    }
}

/// The state of a server that has just started.
pub fn build_app_state() -> (state: AppState)
    ensures
        state@.wf(),
        state@ == AppModel::initial(),
{
    AppState {
        get_metadata_index: index_new(),
        queue: queue_new(QUEUE_CAPACITY),
        request_counter: 0,
        recent_lyrics_count: 0,
        workers_count: 0,
        supervised: false,
    }
}

impl AppState {
    /// Puts a missing track at the end of the queue, or hands it back where
    /// the queue is full.
    pub fn enqueue_missing_track(&mut self, missing_track: u64) -> (res: Result<(), u64>)
        ensures
            res == (if old(self)@.has_room() {
                Ok(())
            } else {
                Err(missing_track)
            }),
            final(self)@ == old(self)@.enqueued(missing_track),
            old(self)@.wf() ==> final(self)@.wf(),
    {
        queue_push(&mut self.queue, missing_track)
    }

    /// Takes the missing track that has waited longest.
    pub fn dequeue_missing_track(&mut self) -> (res: Option<u64>)
        ensures
            res == old(self)@.oldest(),
            final(self)@ == old(self)@.dequeued(),
            old(self)@.wf() ==> final(self)@.wf(),
    {
        queue_pop(&mut self.queue)
    }

    /// How many missing tracks wait.
    pub fn missing_tracks_len(&self) -> (len: usize)
        ensures
            len == self@.missing_tracks.len(),
    {
        queue_len(&self.queue)
    }

    /// Counts a request. The counter wraps around.
    pub fn count_request(&mut self)
        ensures
            final(self)@ == old(self)@.counted(),
            old(self)@.wf() ==> final(self)@.wf(),
    {
        self.request_counter = self.request_counter.wrapping_add(1);
        assert(self@ == old(self)@.counted());
    }

    /// Reads the requests counted since the last call, and starts over.
    pub fn take_request_count(&mut self) -> (count: usize)
        ensures
            count == old(self)@.requests,
            final(self)@ == old(self)@.reported(),
            old(self)@.wf() ==> final(self)@.wf(),
    {
        let count = self.request_counter;
        self.request_counter = 0;
        assert(self@ == old(self)@.reported());
        count
    }

    /// Records how many lyrics were published of late.
    pub fn set_recent_lyrics_count(&mut self, count: usize)
        ensures
            final(self)@ == old(self)@.with_recent_lyrics(count),
            old(self)@.wf() ==> final(self)@.wf(),
    {
        self.recent_lyrics_count = count;
        assert(self@ == old(self)@.with_recent_lyrics(count));
    }

    /// How many lyrics were published of late, as last recorded.
    pub fn recent_lyrics_count(&self) -> (count: usize)
        ensures
            count == self@.recent_lyrics,
    {
        self.recent_lyrics_count
    }

    /// The configured number of workers.
    pub fn workers_count(&self) -> (count: u8)
        ensures
            count == self@.workers,
    {
        self.workers_count
    }

    /// Records that a supervisor with `initial_workers` workers has started.
    pub fn start_supervision(&mut self, initial_workers: u8)
        ensures
            final(self)@ == old(self)@.with_supervisor(initial_workers),
            old(self)@.wf() ==> final(self)@.wf(),
    {
        self.workers_count = initial_workers;
        self.supervised = true;
        assert(self@ == old(self)@.with_supervisor(initial_workers));
    }

    /// Records the number of workers that is asked for; says whether there is
    /// a supervisor to be told.
    pub fn set_workers_count(&mut self, workers_count: u8) -> (supervised: bool)
        ensures
            supervised == old(self)@.supervised,
            final(self)@ == old(self)@.with_workers(workers_count),
            old(self)@.wf() ==> final(self)@.wf(),
    {
        self.workers_count = workers_count;
        self.supervised
    }
}

/// What the task that counts recent lyrics does with the outcome of a count:
/// the new state, and whether the task goes on. A count takes the place of
/// the one on record; a failure ends the task and changes nothing.
pub open spec fn lyrics_step(state: AppModel, count: Option<i64>) -> (AppModel, bool) {
    match count {
        Some(n) => (state.with_recent_lyrics(n as usize), true),
        None => (state, false),
    }
}

/// Records the outcome of a count of recent lyrics, `None` where it failed;
/// says whether to go on counting.
pub fn record_recent_lyrics(state: &mut AppState, count: Option<i64>) -> (goes_on: bool)
    ensures
        (final(state)@, goes_on) == lyrics_step(old(state)@, count),
        old(state)@.wf() ==> final(state)@.wf(),
{
    match count {
        Some(n) => {
            state.set_recent_lyrics_count(n as usize);
            true
        },
        None => false,
    }
}

/// Remembers that the response cached under `cache_key` holds the track
/// `track_id`. A track that has its full number of keys gets no more.
pub fn add_get_metadata_cache_index(state: &mut AppState, track_id: i64, cache_key: &str)
    ensures
        final(state)@ == old(state)@.indexed(track_id, cache_key@),
        old(state)@.wf() ==> final(state)@.wf(),
{
    let len: usize = index_entry_len(&mut state.get_metadata_index, track_id);
    if len < MAX_KEYS_PER_TRACK {
        index_entry_insert(&mut state.get_metadata_index, track_id, cache_key.to_owned());
    }
    assert(state@ =~= old(state)@.indexed(track_id, cache_key@));
    proof {
        if old(state)@.wf() {
            law_index_limit(old(state)@, track_id, cache_key@);
        }
    }
}

/// Forgets the keys remembered for `track_id` and hands them over, so that
/// the responses under them can be removed from the cache.
pub fn invalidate_get_metadata_cache_for_track_id(state: &mut AppState, track_id: i64) -> (keys: Vec<
    String,
>)
    ensures
        keys@.map_values(|k: String| k@).no_duplicates(),
        keys@.map_values(|k: String| k@).to_set() == old(state)@.keys(track_id),
        final(state)@ == old(state)@.forgotten(track_id),
        old(state)@.wf() ==> final(state)@.wf(),
{
    match index_remove(&mut state.get_metadata_index, track_id) {
        Some(keys) => keys,
        None => {
            let keys: Vec<String> = Vec::new();
            assert(keys@.map_values(|k: String| k@).to_set() =~= Set::empty());
            keys
        },
    }
}

/// Remembering a key keeps within the limits.
pub proof fn law_index_limit(state: AppModel, track_id: i64, key: Seq<char>)
    requires
        state.wf(),
    ensures
        state.indexed(track_id, key).wf(),
{
    let next = state.indexed(track_id, key);
    assert(state.keys(track_id).finite());
    assert forall|t: i64| #[trigger] next.index.contains_key(t) implies next.index[t].finite() && 1
        <= next.index[t].len() <= MAX_KEYS_PER_TRACK by {
        if t != track_id {
            assert(state.index.contains_key(t));
        }
    }
}

/// A key that was remembered below the limit is among those handed over when
/// the track is invalidated, with all that were there before and nothing
/// else; at the limit nothing is added.
pub proof fn law_index_remembers(state: AppModel, track_id: i64, key: Seq<char>)
    ensures
        state.keys(track_id).len() < MAX_KEYS_PER_TRACK ==> state.indexed(track_id, key).keys(
            track_id,
        ) == state.keys(track_id).insert(key),
        state.keys(track_id).len() >= MAX_KEYS_PER_TRACK ==> state.indexed(track_id, key).keys(
            track_id,
        ) == state.keys(track_id),
{
}

/// Remembering or forgetting keys of one track leaves the others alone, and
/// nothing is left of a track that was forgotten.
pub proof fn law_index_separate(state: AppModel, track_id: i64, other: i64, key: Seq<char>)
    requires
        track_id != other,
    ensures
        state.indexed(track_id, key).keys(other) == state.keys(other),
        state.forgotten(track_id).keys(other) == state.keys(other),
        state.forgotten(track_id).keys(track_id) == Set::<Seq<char>>::empty(),
{
}

/// Once the keys handed over for a track are removed from the cache, the
/// response under a key that was remembered for it is gone, and every
/// response under a key that was not is still there.
pub proof fn law_invalidation_clears_cache<T>(
    cache: Map<Seq<char>, T>,
    state: AppModel,
    track_id: i64,
    key: Seq<char>,
)
    ensures
        state.keys(track_id).contains(key) ==> !cache.remove_keys(
            state.keys(track_id),
        ).contains_key(key),
        !state.keys(track_id).contains(key) && cache.contains_key(key) ==> {
            &&& cache.remove_keys(state.keys(track_id)).contains_key(key)
            &&& cache.remove_keys(state.keys(track_id))[key] == cache[key]
        },
{
}

/// Remembering the same key twice is remembering it once.
pub proof fn law_index_twice(state: AppModel, track_id: i64, key: Seq<char>)
    requires
        state.keys(track_id).contains(key),
    ensures
        state.indexed(track_id, key).keys(track_id) == state.keys(track_id),
{
    assert(state.keys(track_id).insert(key) =~= state.keys(track_id));
}

/// Missing tracks leave the queue in the order in which they came: enqueueing
/// never changes which is the oldest, and a track that comes into an empty
/// queue is the next to leave it.
pub proof fn law_queue_in_order(state: AppModel, ticket: u64)
    requires
        state.has_room(),
    ensures
        state.missing_tracks.len() > 0 ==> {
            &&& state.enqueued(ticket).oldest() == state.oldest()
            &&& state.enqueued(ticket).dequeued() == state.dequeued().enqueued(ticket)
        },
        state.missing_tracks.len() == 0 ==> {
            &&& state.enqueued(ticket).oldest() == Some(ticket)
            &&& state.enqueued(ticket).dequeued() == state
        },
{
    let queue = state.missing_tracks;
    if queue.len() > 0 {
        assert(queue.push(ticket).skip(1) =~= queue.skip(1).push(ticket));
    } else {
        assert(queue.push(ticket).skip(1) =~= queue);
    }
}

/// One of the things that happen to the shared state.
pub enum StateStep {
    /// A missing track comes.
    Enqueue(u64),
    /// A missing track is asked for.
    Dequeue,
    /// A request is counted.
    CountRequest,
    /// The counted requests are reported.
    TakeRequestCount,
    /// The number of recent lyrics is recorded.
    SetRecentLyrics(usize),
    /// A supervisor starts.
    StartSupervision(u8),
    /// A number of workers is asked for.
    SetWorkers(u8),
    /// A cache key is remembered for a track.
    Remember(i64, Seq<char>),
    /// A track is invalidated.
    Invalidate(i64),
}

impl AppModel {
    /// The state after one step.
    pub open spec fn after(self, step: StateStep) -> AppModel {
        match step {
            StateStep::Enqueue(ticket) => self.enqueued(ticket),
            StateStep::Dequeue => self.dequeued(),
            StateStep::CountRequest => self.counted(),
            StateStep::TakeRequestCount => self.reported(),
            StateStep::SetRecentLyrics(count) => self.with_recent_lyrics(count),
            StateStep::StartSupervision(workers) => self.with_supervisor(workers),
            StateStep::SetWorkers(workers) => self.with_workers(workers),
            StateStep::Remember(track_id, key) => self.indexed(track_id, key),
            StateStep::Invalidate(track_id) => self.forgotten(track_id),
        }
    }

    /// The state after a whole run.
    pub open spec fn run(self, steps: Seq<StateStep>) -> AppModel
        decreases steps.len(),
    {
        if steps.len() == 0 {
            self
        } else {
            self.run(steps.drop_last()).after(steps.last())
        }
    }

    /// The tickets that found room in the queue during a run, in the order in
    /// which they came.
    pub open spec fn admitted(self, steps: Seq<StateStep>) -> Seq<u64>
        decreases steps.len(),
    {
        if steps.len() == 0 {
            Seq::empty()
        } else {
            let before = self.admitted(steps.drop_last());
            match steps.last() {
                StateStep::Enqueue(ticket) => if self.run(steps.drop_last()).has_room() {
                    before.push(ticket)
                } else {
                    before
                },
                _ => before,
            }
        }
    }

    /// The tickets handed out during a run, in the order in which they left.
    pub open spec fn handed_out(self, steps: Seq<StateStep>) -> Seq<u64>
        decreases steps.len(),
    {
        if steps.len() == 0 {
            Seq::empty()
        } else {
            let before = self.handed_out(steps.drop_last());
            match (steps.last(), self.run(steps.drop_last()).oldest()) {
                (StateStep::Dequeue, Some(ticket)) => before.push(ticket),
                _ => before,
            }
        }
    }

    /// How many requests came during a run.
    pub open spec fn requests_made(self, steps: Seq<StateStep>) -> nat
        decreases steps.len(),
    {
        if steps.len() == 0 {
            0
        } else {
            let before = self.requests_made(steps.drop_last());
            match steps.last() {
                StateStep::CountRequest => before + 1,
                _ => before,
            }
        }
    }

    /// How many requests were reported during a run, all reports together.
    pub open spec fn requests_reported(self, steps: Seq<StateStep>) -> nat
        decreases steps.len(),
    {
        if steps.len() == 0 {
            0
        } else {
            let before = self.requests_reported(steps.drop_last());
            match steps.last() {
                StateStep::TakeRequestCount => before + self.run(
                    steps.drop_last(),
                ).requests as nat,
                _ => before,
            }
        }
    }

    /// How many requests the counter dropped during a run by wrapping around.
    pub open spec fn requests_wrapped(self, steps: Seq<StateStep>) -> nat
        decreases steps.len(),
    {
        if steps.len() == 0 {
            0
        } else {
            let before = self.requests_wrapped(steps.drop_last());
            match steps.last() {
                StateStep::CountRequest => if self.run(steps.drop_last()).requests == usize::MAX {
                    before + usize::MAX as nat + 1
                } else {
                    before
                },
                _ => before,
            }
        }
    }
}

/// No run leads out of the limits.
pub proof fn law_run_keeps_limits(state: AppModel, steps: Seq<StateStep>)
    requires
        state.wf(),
    ensures
        state.run(steps).wf(),
    decreases steps.len(),
{
    if steps.len() > 0 {
        law_run_keeps_limits(state, steps.drop_last());
        let before = state.run(steps.drop_last());
        if let StateStep::Remember(track_id, key) = steps.last() {
            law_index_limit(before, track_id, key);
        }
    }
}

/// Every state that a server reaches is within the limits.
pub proof fn law_reached_states_are_within_limits(steps: Seq<StateStep>)
    ensures
        AppModel::initial().run(steps).wf(),
{
    law_run_keeps_limits(AppModel::initial(), steps);
}

/// The count of recent lyrics recorded last in a run, if any was.
pub open spec fn last_lyrics_count(steps: Seq<StateStep>) -> Option<usize>
    decreases steps.len(),
{
    if steps.len() == 0 {
        None
    } else {
        match steps.last() {
            StateStep::SetRecentLyrics(count) => Some(count),
            _ => last_lyrics_count(steps.drop_last()),
        }
    }
}

/// After any run the count of recent lyrics is the last one recorded in it,
/// or the old one where none was.
pub proof fn law_run_keeps_last_lyrics_count(state: AppModel, steps: Seq<StateStep>)
    ensures
        state.run(steps).recent_lyrics == match last_lyrics_count(steps) {
            Some(count) => count,
            None => state.recent_lyrics,
        },
    decreases steps.len(),
{
    if steps.len() > 0 {
        law_run_keeps_last_lyrics_count(state, steps.drop_last());
    }
}

/// The number of workers set last in a run, if any was.
pub open spec fn last_workers(steps: Seq<StateStep>) -> Option<u8>
    decreases steps.len(),
{
    if steps.len() == 0 {
        None
    } else {
        match steps.last() {
            StateStep::StartSupervision(workers) => Some(workers),
            StateStep::SetWorkers(workers) => Some(workers),
            _ => last_workers(steps.drop_last()),
        }
    }
}

/// After any run the number of workers is the last one set in it, or the old
/// one where none was.
pub proof fn law_run_keeps_last_workers(state: AppModel, steps: Seq<StateStep>)
    ensures
        state.run(steps).workers == match last_workers(steps) {
            Some(workers) => workers,
            None => state.workers,
        },
    decreases steps.len(),
{
    if steps.len() > 0 {
        law_run_keeps_last_workers(state, steps.drop_last());
    }
}

/// The task that counts recent lyrics, after the given outcomes of its
/// counts: the state, and whether it still goes on.
pub open spec fn lyrics_task(state: AppModel, counts: Seq<Option<i64>>) -> (AppModel, bool)
    decreases counts.len(),
{
    if counts.len() == 0 {
        (state, true)
    } else {
        let (before, goes_on) = lyrics_task(state, counts.drop_last());
        if goes_on {
            lyrics_step(before, counts.last())
        } else {
            (before, false)
        }
    }
}

/// As long as counting succeeds the task goes on, and the last count is the
/// one on record; before the first one nothing has changed.
pub proof fn law_lyrics_task_overwrites(state: AppModel, counts: Seq<Option<i64>>)
    requires
        forall|i: int| 0 <= i < counts.len() ==> (#[trigger] counts[i]) is Some,
    ensures
        lyrics_task(state, counts).1,
        lyrics_task(state, counts).0 == if counts.len() == 0 {
            state
        } else {
            state.with_recent_lyrics(counts.last()->0 as usize)
        },
    decreases counts.len(),
{
    if counts.len() > 0 {
        let rest = counts.drop_last();
        assert forall|i: int| 0 <= i < rest.len() implies (#[trigger] rest[i]) is Some by {
            assert(rest[i] == counts[i]);
        }
        law_lyrics_task_overwrites(state, rest);
        assert(counts[counts.len() - 1] is Some);
    }
}

/// The first count that fails ends the task: what was on record before it
/// stays, whatever counts there might be after it.
pub proof fn law_lyrics_task_ends(
    state: AppModel,
    counts: Seq<Option<i64>>,
    after: Seq<Option<i64>>,
)
    ensures
        !lyrics_task(state, counts.push(None) + after).1,
        lyrics_task(state, counts.push(None) + after).0 == lyrics_task(state, counts).0,
    decreases after.len(),
{
    let failed = counts.push(None::<i64>);
    if after.len() == 0 {
        assert(failed + after =~= failed);
        assert(failed.drop_last() =~= counts);
    } else {
        law_lyrics_task_ends(state, counts, after.drop_last());
        assert((failed + after).drop_last() =~= failed + after.drop_last());
    }
}

/// Over any run in which a track is not invalidated, every key remembered for
/// it stays remembered.
pub proof fn law_run_keeps_keys(state: AppModel, steps: Seq<StateStep>, track_id: i64)
    requires
        forall|i: int|
            0 <= i < steps.len() ==> #[trigger] steps[i] != StateStep::Invalidate(track_id),
    ensures
        state.keys(track_id).subset_of(state.run(steps).keys(track_id)),
    decreases steps.len(),
{
    if steps.len() > 0 {
        let rest = steps.drop_last();
        assert forall|i: int| 0 <= i < rest.len() implies #[trigger] rest[i]
            != StateStep::Invalidate(track_id) by {
            assert(rest[i] == steps[i]);
        }
        law_run_keeps_keys(state, rest, track_id);
        assert(steps[steps.len() - 1] != StateStep::Invalidate(track_id));
    }
}

/// Over any run, what was in the queue and what was admitted to it is, in
/// this order, what was handed out and what is in the queue still: nothing is
/// lost, doubled or overtaken.
pub proof fn law_run_keeps_queue_order(state: AppModel, steps: Seq<StateStep>)
    ensures
        state.missing_tracks + state.admitted(steps) == state.handed_out(steps) + state.run(
            steps,
        ).missing_tracks,
    decreases steps.len(),
{
    if steps.len() == 0 {
        assert(state.missing_tracks + Seq::empty() =~= Seq::empty() + state.missing_tracks);
    } else {
        let rest = steps.drop_last();
        law_run_keeps_queue_order(state, rest);
        let before = state.run(rest).missing_tracks;
        match steps.last() {
            StateStep::Enqueue(ticket) => {
                assert(state.missing_tracks + state.admitted(rest).push(ticket) =~= (
                state.missing_tracks + state.admitted(rest)).push(ticket));
                assert(state.handed_out(rest) + before.push(ticket) =~= (state.handed_out(rest)
                    + before).push(ticket));
            },
            StateStep::Dequeue => {
                if before.len() > 0 {
                    assert(state.handed_out(rest) + before =~= state.handed_out(rest).push(
                        before[0],
                    ) + before.skip(1));
                }
            },
            _ => {},
        }
    }
}

/// Over any run, the requests counted before it and those made during it are
/// those reported, those still on the counter, and those dropped by wrapping
/// around: no other request is lost, and none is reported twice.
pub proof fn law_run_loses_no_request(state: AppModel, steps: Seq<StateStep>)
    ensures
        state.requests as nat + state.requests_made(steps) == state.requests_reported(steps)
            + state.run(steps).requests as nat + state.requests_wrapped(steps),
    decreases steps.len(),
{
    if steps.len() > 0 {
        law_run_loses_no_request(state, steps.drop_last());
    }
}

/// The counter drops nothing during a run whose requests, with those before
/// it, are no more than it can hold.
pub proof fn law_counter_keeps_what_fits(state: AppModel, steps: Seq<StateStep>)
    requires
        state.requests as nat + state.requests_made(steps) <= usize::MAX,
    ensures
        state.requests_wrapped(steps) == 0,
    decreases steps.len(),
{
    if steps.len() > 0 {
        let rest = steps.drop_last();
        law_counter_keeps_what_fits(state, rest);
        law_run_loses_no_request(state, rest);
    }
}

/// A server starts with nothing remembered, nothing to look for, room for
/// 600000 missing tracks, nothing counted, and no supervisor.
pub proof fn law_start(state: AppState)
    requires
        call_ensures(build_app_state, (), state),
    ensures
        forall|track_id: i64| !(#[trigger] state@.index.contains_key(track_id)),
        state@.missing_tracks.len() == 0,
        state@.capacity == 600000,
        state@.requests == 0,
        state@.recent_lyrics == 0,
        state@.workers == 0,
        !state@.supervised,
{
}

/// A missing track is taken exactly where fewer wait than there are places,
/// whatever else the state holds; it goes to the end of the queue. Otherwise
/// it is handed back. Nothing else changes.
pub proof fn law_enqueue(state: &mut AppState, missing_track: u64, res: Result<(), u64>)
    requires
        call_ensures(AppState::enqueue_missing_track, (state, missing_track), res),
    ensures
        res is Ok <==> old(state)@.missing_tracks.len() < old(state)@.capacity,
        res is Ok ==> {
            &&& final(state)@.missing_tracks.len() == old(state)@.missing_tracks.len() + 1
            &&& final(state)@.missing_tracks.last() == missing_track
            &&& forall|i: int|
                0 <= i < old(state)@.missing_tracks.len()
                    ==> #[trigger] final(state)@.missing_tracks[i] == old(state)@.missing_tracks[i]
        },
        res is Err ==> {
            &&& res->Err_0 == missing_track
            &&& final(state)@.missing_tracks == old(state)@.missing_tracks
        },
        final(state)@.index == old(state)@.index,
        final(state)@.capacity == old(state)@.capacity,
        final(state)@.requests == old(state)@.requests,
        final(state)@.recent_lyrics == old(state)@.recent_lyrics,
        final(state)@.workers == old(state)@.workers,
        final(state)@.supervised == old(state)@.supervised,
{
}

/// The missing track at the front of the queue is the one that leaves it, and
/// the others move up. An empty queue gives none. Nothing else changes.
pub proof fn law_dequeue(state: &mut AppState, res: Option<u64>)
    requires
        call_ensures(AppState::dequeue_missing_track, (state,), res),
    ensures
        res is Some <==> old(state)@.missing_tracks.len() > 0,
        res is Some ==> old(state)@.missing_tracks == seq![res->0] + final(state)@.missing_tracks,
        res is None ==> final(state)@.missing_tracks.len() == 0,
        final(state)@.index == old(state)@.index,
        final(state)@.capacity == old(state)@.capacity,
        final(state)@.requests == old(state)@.requests,
        final(state)@.recent_lyrics == old(state)@.recent_lyrics,
        final(state)@.workers == old(state)@.workers,
        final(state)@.supervised == old(state)@.supervised,
{
    if res is Some {
        let before = old(state)@.missing_tracks;
        assert(before =~= seq![before[0]] + before.skip(1));
    }
}

/// The number of missing tracks goes up by one with each that is taken, and
/// down by one with each that leaves.
pub proof fn law_queue_length(
    state: &mut AppState,
    before: usize,
    after: usize,
    missing_track: u64,
    res: Result<(), u64>,
)
    requires
        call_ensures(AppState::missing_tracks_len, (old(state),), before),
        call_ensures(AppState::enqueue_missing_track, (state, missing_track), res),
        call_ensures(AppState::missing_tracks_len, (final(state),), after),
    ensures
        before == old(state)@.missing_tracks.len(),
        res is Ok ==> after == before + 1,
        res is Err ==> after == before && before >= old(state)@.capacity,
{
}

/// A request counts as one, except that the count starts over at zero where
/// it can go no higher. Nothing else changes.
pub proof fn law_count_request(state: &mut AppState)
    requires
        call_ensures(AppState::count_request, (state,), ()),
    ensures
        old(state)@.requests < usize::MAX ==> final(state)@.requests == old(state)@.requests + 1,
        old(state)@.requests == usize::MAX ==> final(state)@.requests == 0,
        final(state)@.index == old(state)@.index,
        final(state)@.missing_tracks == old(state)@.missing_tracks,
        final(state)@.capacity == old(state)@.capacity,
        final(state)@.recent_lyrics == old(state)@.recent_lyrics,
        final(state)@.workers == old(state)@.workers,
        final(state)@.supervised == old(state)@.supervised,
{
}

/// A report gives every request counted, and the count starts over. Nothing
/// else changes.
pub proof fn law_take_request_count(state: &mut AppState, count: usize)
    requires
        call_ensures(AppState::take_request_count, (state,), count),
    ensures
        count == old(state)@.requests,
        final(state)@.requests == 0,
        final(state)@.index == old(state)@.index,
        final(state)@.missing_tracks == old(state)@.missing_tracks,
        final(state)@.capacity == old(state)@.capacity,
        final(state)@.recent_lyrics == old(state)@.recent_lyrics,
        final(state)@.workers == old(state)@.workers,
        final(state)@.supervised == old(state)@.supervised,
{
}

/// What is recorded as the number of recent lyrics is what is read. Nothing
/// else changes.
pub proof fn law_recent_lyrics_are_read_back(state: &mut AppState, count: usize, read: usize)
    requires
        call_ensures(AppState::set_recent_lyrics_count, (state, count), ()),
        call_ensures(AppState::recent_lyrics_count, (final(state),), read),
    ensures
        read == count,
        final(state)@.index == old(state)@.index,
        final(state)@.missing_tracks == old(state)@.missing_tracks,
        final(state)@.capacity == old(state)@.capacity,
        final(state)@.requests == old(state)@.requests,
        final(state)@.workers == old(state)@.workers,
        final(state)@.supervised == old(state)@.supervised,
{
}

/// A count of recent lyrics that succeeded is what is read from then on, and
/// counting goes on; one that failed changes nothing, and counting ends.
pub proof fn law_counted_lyrics_are_read_back(
    state: &mut AppState,
    count: Option<i64>,
    goes_on: bool,
    before: usize,
    after: usize,
)
    requires
        call_ensures(record_recent_lyrics, (state, count), goes_on),
        call_ensures(AppState::recent_lyrics_count, (old(state),), before),
        call_ensures(AppState::recent_lyrics_count, (final(state),), after),
    ensures
        goes_on <==> count is Some,
        count is Some && 0 <= count->0 <= usize::MAX ==> after == count->0,
        count is Some ==> after == count->0 as usize,
        count is None ==> after == before,
        final(state)@.index == old(state)@.index,
        final(state)@.missing_tracks == old(state)@.missing_tracks,
        final(state)@.capacity == old(state)@.capacity,
        final(state)@.requests == old(state)@.requests,
        final(state)@.workers == old(state)@.workers,
        final(state)@.supervised == old(state)@.supervised,
{
}

/// The number of workers that a supervisor starts with is what is read, and
/// from then on there is a supervisor. Nothing else changes.
pub proof fn law_supervision_starts(state: &mut AppState, initial_workers: u8, read: u8)
    requires
        call_ensures(AppState::start_supervision, (state, initial_workers), ()),
        call_ensures(AppState::workers_count, (final(state),), read),
    ensures
        read == initial_workers,
        final(state)@.supervised,
        final(state)@.index == old(state)@.index,
        final(state)@.missing_tracks == old(state)@.missing_tracks,
        final(state)@.capacity == old(state)@.capacity,
        final(state)@.requests == old(state)@.requests,
        final(state)@.recent_lyrics == old(state)@.recent_lyrics,
{
}

/// The number of workers that is asked for is what is read, whether there is
/// a supervisor or not. Nothing else changes.
pub proof fn law_workers_are_read_back(
    state: &mut AppState,
    workers_count: u8,
    supervised: bool,
    read: u8,
)
    requires
        call_ensures(AppState::set_workers_count, (state, workers_count), supervised),
        call_ensures(AppState::workers_count, (final(state),), read),
    ensures
        read == workers_count,
        supervised == old(state)@.supervised,
        final(state)@.index == old(state)@.index,
        final(state)@.missing_tracks == old(state)@.missing_tracks,
        final(state)@.capacity == old(state)@.capacity,
        final(state)@.requests == old(state)@.requests,
        final(state)@.recent_lyrics == old(state)@.recent_lyrics,
        final(state)@.supervised == old(state)@.supervised,
{
}

/// Whether the index of a state holds `key` for a track.
pub open spec fn remembered(state: AppModel, track_id: i64, key: Seq<char>) -> bool {
    state.index.contains_key(track_id) && state.index[track_id].contains(key)
}

/// How many keys the index of a state holds for a track.
pub open spec fn key_count(state: AppModel, track_id: i64) -> nat {
    if state.index.contains_key(track_id) {
        state.index[track_id].len()
    } else {
        0
    }
}

/// A key is remembered for its track wherever that has fewer than 64, and
/// only there. All that was remembered before still is, for every track, and
/// nothing more. Nothing else changes.
pub proof fn law_key_is_remembered(state: &mut AppState, track_id: i64, cache_key: &str)
    requires
        call_ensures(add_get_metadata_cache_index, (state, track_id, cache_key), ()),
    ensures
        key_count(old(state)@, track_id) < 64 ==> remembered(
            final(state)@,
            track_id,
            cache_key@,
        ),
        key_count(old(state)@, track_id) >= 64 ==> (remembered(
            final(state)@,
            track_id,
            cache_key@,
        ) <==> remembered(old(state)@, track_id, cache_key@)),
        forall|t: i64, k: Seq<char>|
            t != track_id || k != cache_key@ ==> (#[trigger] remembered(final(state)@, t, k)
                <==> remembered(old(state)@, t, k)),
        final(state)@.missing_tracks == old(state)@.missing_tracks,
        final(state)@.capacity == old(state)@.capacity,
        final(state)@.requests == old(state)@.requests,
        final(state)@.recent_lyrics == old(state)@.recent_lyrics,
        final(state)@.workers == old(state)@.workers,
        final(state)@.supervised == old(state)@.supervised,
{
}

/// Invalidating a track hands over exactly the keys that are remembered for
/// it, each of them once, and forgets them; those of other tracks stay.
/// Nothing else changes.
pub proof fn law_keys_are_handed_over(state: &mut AppState, track_id: i64, keys: Vec<String>)
    requires
        call_ensures(invalidate_get_metadata_cache_for_track_id, (state, track_id), keys),
    ensures
        forall|k: Seq<char>| #[trigger]
            remembered(old(state)@, track_id, k) <==> exists|i: int|
                0 <= i < keys@.len() && (#[trigger] keys@[i])@ == k,
        forall|i: int, j: int|
            0 <= i < j < keys@.len() ==> (#[trigger] keys@[i])@ != (#[trigger] keys@[j])@,
        forall|k: Seq<char>| !#[trigger] remembered(final(state)@, track_id, k),
        forall|t: i64, k: Seq<char>|
            t != track_id ==> (#[trigger] remembered(final(state)@, t, k) <==> remembered(
                old(state)@,
                t,
                k,
            )),
        final(state)@.missing_tracks == old(state)@.missing_tracks,
        final(state)@.capacity == old(state)@.capacity,
        final(state)@.requests == old(state)@.requests,
        final(state)@.recent_lyrics == old(state)@.recent_lyrics,
        final(state)@.workers == old(state)@.workers,
        final(state)@.supervised == old(state)@.supervised,
{
    let texts = keys@.map_values(|k: String| k@);
    assert forall|k: Seq<char>| #[trigger]
        remembered(old(state)@, track_id, k) <==> exists|i: int|
            0 <= i < keys@.len() && (#[trigger] keys@[i])@ == k by {
        assert(texts.to_set().contains(k) <==> texts.contains(k));
        if texts.contains(k) {
            let i = choose|i: int| 0 <= i < texts.len() && texts[i] == k;
            assert(keys@[i]@ == k);
        }
        if exists|i: int| 0 <= i < keys@.len() && (#[trigger] keys@[i])@ == k {
            let i = choose|i: int| 0 <= i < keys@.len() && (#[trigger] keys@[i])@ == k;
            assert(texts[i] == k);
        }
    }
    assert forall|i: int, j: int| 0 <= i < j < keys@.len() implies (#[trigger] keys@[i])@ != (
    #[trigger] keys@[j])@ by {
        assert(texts[i] == keys@[i]@ && texts[j] == keys@[j]@);
    }
}

/// The missing tracks that come during a run, in the order in which they
/// come.
pub open spec fn tracks_offered(steps: Seq<StateStep>) -> Seq<u64>
    decreases steps.len(),
{
    if steps.len() == 0 {
        Seq::empty()
    } else {
        match steps.last() {
            StateStep::Enqueue(ticket) => tracks_offered(steps.drop_last()).push(ticket),
            _ => tracks_offered(steps.drop_last()),
        }
    }
}

/// No run changes how many missing tracks can wait.
proof fn lemma_run_keeps_capacity(state: AppModel, steps: Seq<StateStep>)
    ensures
        state.run(steps).capacity == state.capacity,
        state.run(steps).missing_tracks.len() <= state.missing_tracks.len() + tracks_offered(
            steps,
        ).len(),
    decreases steps.len(),
{
    if steps.len() > 0 {
        lemma_run_keeps_capacity(state, steps.drop_last());
    }
}

/// Whatever else happens to a server, no missing track is turned away before
/// 600000 have come: until then all of them, in the order in which they came,
/// have been handed out or wait still.
pub proof fn law_first_tracks_are_all_taken(steps: Seq<StateStep>)
    requires
        tracks_offered(steps).len() <= 600000,
    ensures
        AppModel::initial().handed_out(steps) + AppModel::initial().run(steps).missing_tracks
            == tracks_offered(steps),
{
    let start = AppModel::initial();
    lemma_all_admitted(start, steps);
    law_run_keeps_queue_order(start, steps);
    assert(start.missing_tracks + tracks_offered(steps) =~= tracks_offered(steps));
}

proof fn lemma_all_admitted(state: AppModel, steps: Seq<StateStep>)
    requires
        state.missing_tracks.len() + tracks_offered(steps).len() <= state.capacity,
    ensures
        state.admitted(steps) == tracks_offered(steps),
    decreases steps.len(),
{
    if steps.len() > 0 {
        lemma_all_admitted(state, steps.drop_last());
        lemma_run_keeps_capacity(state, steps.drop_last());
    }
}

/// Every server that has been started takes a missing track exactly where
/// fewer than 600000 wait, whatever has happened to it before.
pub proof fn law_reached_states_have_600000_places(steps: Seq<StateStep>, ticket: u64)
    ensures
        AppModel::initial().run(steps).missing_tracks.len() <= 600000,
        AppModel::initial().run(steps).missing_tracks.len() < 600000
            ==> AppModel::initial().run(steps).after(StateStep::Enqueue(ticket)).missing_tracks
            == AppModel::initial().run(steps).missing_tracks.push(ticket),
        AppModel::initial().run(steps).missing_tracks.len() == 600000
            ==> AppModel::initial().run(steps).after(StateStep::Enqueue(ticket)).missing_tracks
            == AppModel::initial().run(steps).missing_tracks,
{
    law_reached_states_are_within_limits(steps);
    lemma_run_keeps_capacity(AppModel::initial(), steps);
}

/// Whatever happens to a server, it remembers no more than 64 keys for any
/// track.
pub proof fn law_no_track_has_more_than_64_keys(steps: Seq<StateStep>, track_id: i64)
    ensures
        key_count(AppModel::initial().run(steps), track_id) <= 64,
{
    law_reached_states_are_within_limits(steps);
}

} // verus!
