//! Fetching verified records from their holders.

use crate::ids::{nearer, same_bytes, PeerId, XorName};
use crate::replication::protocol::{
    FetchRequest, FetchResponse, ReplicationMessage, ReplicationMessageBody,
};
use crate::replication::queues::{
    front, lemma_dequeued_valid, lemma_fetching_valid, lemma_first_untried, lemma_front_exists,
    lemma_retry_asks_every_source, CandidateModel, QueuesModel, ReplicationQueues,
};
use crate::seqs::lemma_push_contains;
use vstd::prelude::*;

verus! {

// ---------------------------------------------------------------------------
// One fetch
// ---------------------------------------------------------------------------

/// How a fetch attempt ended.
#[derive(Clone, Copy, Debug, PartialEq, Eq, Structural)]
pub enum FetchResult {
    /// The record was fetched, checked and stored.
    Stored,
    /// The content did not match its address; the fetch is not retried.
    IntegrityFailed,
    /// The source failed; another source may be tried.
    SourceFailed,
}

/// What came of the request that was sent to a source.
#[derive(Debug)]
pub enum FetchReply {
    /// The request could not be encoded.
    NotEncoded,
    /// The network could not deliver the request or its answer.
    SendFailed,
    /// The answer could not be decoded.
    Undecodable,
    /// The answer to a fetch request.
    Answer(FetchResponse),
    /// A message of another kind.
    Unexpected,
}

/// Next thing to do about a fetch attempt.
#[derive(Clone, Copy, Debug, PartialEq, Eq, Structural)]
pub enum FetchStep {
    /// Compute the content address of the fetched data.
    ComputeAddress,
    /// Store the fetched data.
    Store,
    /// The attempt is over.
    Finish {
        /// How it ended.
        result: FetchResult,
        /// Whether the source is reported.
        penalize: bool,
    },
}

/// Next thing to do about a fetch of `key`. `computed` is the content address
/// of the data and `stored` tells whether storing worked, once known.
pub open spec fn fetch_step(
    key: XorName,
    max_chunk_size: u64,
    reply: FetchReply,
    computed: Option<XorName>,
    stored: Option<bool>,
) -> FetchStep {
    match reply {
        FetchReply::NotEncoded => FetchStep::Finish {
            result: FetchResult::SourceFailed,
            penalize: false,
        },
        FetchReply::SendFailed => FetchStep::Finish {
            result: FetchResult::SourceFailed,
            penalize: false,
        },
        FetchReply::Answer(FetchResponse::Success { key: answered, data }) => {
            if answered != key || data@.len() > max_chunk_size {
                FetchStep::Finish { result: FetchResult::IntegrityFailed, penalize: true }
            } else {
                match computed {
                    None => FetchStep::ComputeAddress,
                    Some(address) => if address != answered {
                        FetchStep::Finish { result: FetchResult::IntegrityFailed, penalize: true }
                    } else {
                        match stored {
                            None => FetchStep::Store,
                            Some(true) => FetchStep::Finish {
                                result: FetchResult::Stored,
                                penalize: false,
                            },
                            Some(false) => FetchStep::Finish {
                                result: FetchResult::SourceFailed,
                                penalize: false,
                            },
                        }
                    },
                }
            }
        },
        _ => FetchStep::Finish { result: FetchResult::SourceFailed, penalize: true },
    }
}

/// Decide what to do next about a fetch of `key`. The answered key and the size
/// are checked before the data is hashed.
pub fn execute_single_fetch(
    key: &XorName,
    max_chunk_size: u64,
    reply: &FetchReply,
    computed: &Option<XorName>,
    stored: Option<bool>,
) -> (s: FetchStep)
    ensures
        s == fetch_step(*key, max_chunk_size, *reply, *computed, stored),
{
    match reply {
        FetchReply::NotEncoded | FetchReply::SendFailed => FetchStep::Finish {
            result: FetchResult::SourceFailed,
            penalize: false,
        },
        FetchReply::Answer(FetchResponse::Success { key: answered, data }) => {
            if !same_bytes(answered, key) || data.len() as u64 > max_chunk_size {
                return FetchStep::Finish { result: FetchResult::IntegrityFailed, penalize: true };
            }
            match computed {
                None => FetchStep::ComputeAddress,
                Some(address) => {
                    if !same_bytes(address, answered) {
                        return FetchStep::Finish {
                            result: FetchResult::IntegrityFailed,
                            penalize: true,
                        };
                    }
                    match stored {
                        None => FetchStep::Store,
                        Some(true) => FetchStep::Finish {
                            result: FetchResult::Stored,
                            penalize: false,
                        },
                        Some(false) => FetchStep::Finish {
                            result: FetchResult::SourceFailed,
                            penalize: false,
                        },
                    }
                },
            }
        },
        FetchReply::Answer(FetchResponse::NotFound { .. })
        | FetchReply::Answer(FetchResponse::Error { .. })
        | FetchReply::Undecodable
        | FetchReply::Unexpected => FetchStep::Finish {
            result: FetchResult::SourceFailed,
            penalize: true,
        },
    }
}

/// A fetch ends as stored exactly when the source answered with the requested
/// key, the data is not too large, its content address is the key, and storing
/// worked.
pub proof fn lemma_fetch_stored_iff(
    key: XorName,
    max_chunk_size: u64,
    reply: FetchReply,
    computed: Option<XorName>,
    stored: Option<bool>,
)
    ensures
        (fetch_step(key, max_chunk_size, reply, computed, stored) matches FetchStep::Finish {
            result,
            ..
        } && result is Stored) <==> {
            &&& reply matches FetchReply::Answer(FetchResponse::Success { key: answered, data })
            &&& answered == key
            &&& data@.len() <= max_chunk_size
            &&& computed == Some(key)
            &&& stored == Some(true)
        },
{
}

/// Data is written to the store only under the requested key and only after
/// its content address was found to be that key.
pub proof fn lemma_only_checked_data_is_stored(
    key: XorName,
    max_chunk_size: u64,
    reply: FetchReply,
    computed: Option<XorName>,
    stored: Option<bool>,
)
    ensures
        fetch_step(key, max_chunk_size, reply, computed, stored) is Store ==> {
            &&& reply matches FetchReply::Answer(FetchResponse::Success { key: answered, data })
            &&& answered == key
            &&& data@.len() <= max_chunk_size
            &&& computed == Some(key)
        },
{
}

/// A source is reported only for what it answered: never when the request did
/// not get through, and never because storing failed here.
pub proof fn lemma_fetch_blames_answers_only(
    key: XorName,
    max_chunk_size: u64,
    reply: FetchReply,
    computed: Option<XorName>,
    stored: Option<bool>,
)
    ensures
        fetch_step(key, max_chunk_size, reply, computed, stored) matches FetchStep::Finish {
            penalize: true,
            ..
        } ==> !(reply is NotEncoded) && !(reply is SendFailed) && !(reply matches FetchReply::Answer(
            FetchResponse::Success { key: answered, data },
        ) && answered == key && data@.len() <= max_chunk_size && computed == Some(key)),
{
}

/// Calls `rand::thread_rng` and `rand::Rng::gen` for a request identifier.
/// Nothing is known of the number drawn.
#[verifier::external_body]
fn random_request_id() -> (id: u64)
{
    rand::Rng::gen::<u64>(&mut rand::thread_rng())
}

/// The request for a record under a given identifier.
pub fn fetch_message(request_id: u64, key: XorName) -> (m: ReplicationMessage)
    ensures
        m == (ReplicationMessage {
            request_id,
            body: ReplicationMessageBody::FetchRequest(FetchRequest { key }),
        }),
{
    ReplicationMessage {
        request_id,
        body: ReplicationMessageBody::FetchRequest(FetchRequest { key }),
    }
}

/// The request for a record under a fresh identifier.
pub fn new_fetch_message(key: XorName) -> (m: ReplicationMessage)
    ensures
        m.body == ReplicationMessageBody::FetchRequest(FetchRequest { key }),
{
    let request_id = random_request_id();
    fetch_message(request_id, key)
}

// ---------------------------------------------------------------------------
// The fetch worker
// ---------------------------------------------------------------------------

/// A fetch to start.
#[derive(Clone, Copy, Debug)]
pub struct FetchTask {
    /// The record.
    pub key: XorName,
    /// Peer to ask.
    pub source: PeerId,
}

/// The pipeline and the fetches to start when `slots` are free: the nearest
/// candidates first, each from its first source; candidates without a source
/// are dropped.
pub open spec fn filled(queues: QueuesModel, slots: nat) -> (QueuesModel, Seq<FetchTask>)
    decreases queues.queued.len(),
{
    if slots == 0 || queues.queued.len() == 0 {
        (queues, Seq::empty())
    } else {
        proof {
            lemma_front_exists(queues.queued);
        }
        let c = queues.queued[front(queues.queued)];
        let rest = queues.dequeued();
        if c.sources.len() == 0 {
            filled(rest, slots)
        } else {
            let after = filled(
                rest.fetching(c.key, c.sources[0], c.sources),
                (slots - 1) as nat,
            );
            (after.0, seq![FetchTask { key: c.key, source: c.sources[0] }] + after.1)
        }
    }
}

/// Start as many fetches as `concurrency` permits beside those in flight.
pub fn fill_fetch_slots(queues: &mut ReplicationQueues, in_flight: usize, concurrency: usize) -> (
    tasks: Vec<FetchTask>)
    requires
        old(queues).wf(),
    ensures
        final(queues).wf(),
        (final(queues)@, tasks@) == filled(
            old(queues)@,
            if in_flight < concurrency {
                (concurrency - in_flight) as nat
            } else {
                0
            },
        ),
{
    let slots: usize = if in_flight < concurrency {
        concurrency - in_flight
    } else {
        0
    };
    let mut tasks: Vec<FetchTask> = Vec::new();
    let ghost goal = filled(queues@, slots as nat);
    assert(tasks@ + goal.1 =~= goal.1);
    while tasks.len() < slots
        invariant
            queues.wf(),
            tasks@.len() <= slots,
            goal == filled(old(queues)@, slots as nat),
            goal.0 == filled(queues@, (slots - tasks@.len()) as nat).0,
            goal.1 == tasks@ + filled(queues@, (slots - tasks@.len()) as nat).1,
        ensures
            queues.wf(),
            goal.0 == queues@,
            goal.1 == tasks@,
        decreases slots - tasks@.len(), queues@.queued.len(),
    {
        let ghost before = queues@;
        let ghost left = (slots - tasks@.len()) as nat;
        match queues.dequeue_fetch() {
            None => {
                assert(goal.1 =~= tasks@);
                break ;
            },
            Some(candidate) => {
                let ghost rest = queues@;
                assert(rest.queued.len() < before.queued.len()) by {
                    lemma_front_exists(before.queued);
                }
                if candidate.sources.len() > 0 {
                    let source = candidate.sources[0];
                    let key = candidate.key;
                    let ghost had = tasks@;
                    queues.start_fetch(key, source, candidate.sources);
                    tasks.push(FetchTask { key, source });
                    proof {
                        let after = filled(queues@, (left - 1) as nat);
                        assert(had + (seq![FetchTask { key, source }] + after.1) =~= tasks@
                            + after.1);
                    }
                }
            },
        }
    }
    assert(goal.1 =~= tasks@);
    tasks
}

/// What follows the end of a fetch attempt.
#[derive(Clone, Copy, Debug)]
pub enum FetchNext {
    /// Ask another source.
    Retry {
        /// The source.
        source: PeerId,
    },
    /// The key is done with.
    Terminal,
}

/// What follows the end of a fetch attempt for `key`. An attempt without an
/// outcome has crashed.
pub open spec fn fetch_next(
    queues: QueuesModel,
    key: XorName,
    outcome: Option<FetchResult>,
) -> (QueuesModel, FetchNext) {
    match outcome {
        Some(FetchResult::SourceFailed) => match queues.next_source(key) {
            Some(source) => (queues.retried(key), FetchNext::Retry { source }),
            None => (queues.fetched(key), FetchNext::Terminal),
        },
        _ => (queues.fetched(key), FetchNext::Terminal),
    }
}

/// Update the pipeline after a fetch attempt and decide what follows: a source
/// failure moves on to the next source while there is one; a stored record, a
/// failed integrity check and a crash end the fetch.
pub fn finish_fetch(
    queues: &mut ReplicationQueues,
    key: &XorName,
    outcome: Option<FetchResult>,
) -> (next: FetchNext)
    requires
        old(queues).wf(),
    ensures
        final(queues).wf(),
        (final(queues)@, next) == fetch_next(old(queues)@, *key, outcome),
{
    if let Some(FetchResult::SourceFailed) = outcome {
        if let Some(source) = queues.retry_fetch(key) {
            return FetchNext::Retry { source };
        }
    }
    queues.complete_fetch(key);
    FetchNext::Terminal
}

/// Number of positions in `sources` that hold a peer outside `used`.
pub open spec fn untried_count(sources: Seq<PeerId>, used: Seq<PeerId>) -> nat
    decreases sources.len(),
{
    if sources.len() == 0 {
        0
    } else {
        untried_count(sources.drop_last(), used) + if used.contains(sources.last()) {
            0nat
        } else {
            1nat
        }
    }
}

proof fn lemma_untried_monotone(sources: Seq<PeerId>, used: Seq<PeerId>, p: PeerId)
    ensures
        untried_count(sources, used.push(p)) <= untried_count(sources, used),
        sources.contains(p) && !used.contains(p) ==> untried_count(sources, used.push(p))
            < untried_count(sources, used),
    decreases sources.len(),
{
    if sources.len() > 0 {
        let init = sources.drop_last();
        lemma_untried_monotone(init, used, p);
        lemma_push_contains(used, p, sources.last());
        if sources.contains(p) && sources.last() != p {
            let i = choose|i: int| 0 <= i < sources.len() && sources[i] == p;
            assert(init[i] == p);
        }
    }
}

/// A retry asks a verified holder that was not asked before, and every retry
/// leaves fewer holders to ask, so a fetch is retried finitely often.
pub proof fn lemma_retry_asks_a_new_source(queues: QueuesModel, key: XorName, source: PeerId)
    requires
        queues.valid(),
        queues.in_flight.contains_key(key),
        fetch_next(queues, key, Some(FetchResult::SourceFailed)).1 == (FetchNext::Retry { source }),
    ensures
        queues.in_flight[key].sources.contains(source),
        !queues.in_flight[key].tried.contains(source),
        source != queues.in_flight[key].source,
        ({
            let f = queues.in_flight[key];
            let g = fetch_next(queues, key, Some(FetchResult::SourceFailed)).0.in_flight[key];
            &&& g.sources == f.sources
            &&& g.tried == f.tried.push(f.source)
            &&& g.source == source
            &&& untried_count(g.sources, g.tried.push(g.source)) < untried_count(
                f.sources,
                f.tried.push(f.source),
            )
        }),
{
    let f = queues.in_flight[key];
    lemma_first_untried(f.sources, f.tried.push(f.source));
    lemma_push_contains(f.tried, f.source, source);
    lemma_untried_monotone(f.sources, f.tried.push(f.source), source);
}

/// A fetch whose content failed the integrity check is over, whatever sources
/// are left.
pub proof fn lemma_integrity_failure_is_final(queues: QueuesModel, key: XorName)
    ensures
        fetch_next(queues, key, Some(FetchResult::IntegrityFailed)) == (
            queues.fetched(key),
            FetchNext::Terminal,
        ),
{
}

/// A terminal end takes the key out of flight; a retry keeps it in flight.
pub proof fn lemma_terminal_leaves_flight(
    queues: QueuesModel,
    key: XorName,
    outcome: Option<FetchResult>,
)
    requires
        queues.in_flight.contains_key(key),
    ensures
        ({
            let (after, next) = fetch_next(queues, key, outcome);
            &&& next is Terminal <==> !after.in_flight.contains_key(key)
            &&& after.pending == queues.pending
            &&& after.queued == queues.queued
        }),
{
}

/// Filling never starts more fetches than there are free slots.
pub proof fn lemma_fill_respects_slots(queues: QueuesModel, slots: nat)
    ensures
        filled(queues, slots).1.len() <= slots,
    decreases queues.queued.len(),
{
    if slots > 0 && queues.queued.len() > 0 {
        lemma_front_exists(queues.queued);
        let c = queues.queued[front(queues.queued)];
        let rest = queues.dequeued();
        if c.sources.len() == 0 {
            lemma_fill_respects_slots(rest, slots);
        } else {
            lemma_fill_respects_slots(
                rest.fetching(c.key, c.sources[0], c.sources),
                (slots - 1) as nat,
            );
        }
    }
}

/// A source failure ends a fetch only when every source was asked: as long as
/// some source was neither tried before nor is the one that failed, such a
/// source is asked next, and the one that failed counts as tried. Every other
/// end of an attempt ends the fetch.
pub proof fn lemma_fetch_ends_only_when_all_sources_failed(
    queues: QueuesModel,
    key: XorName,
    outcome: Option<FetchResult>,
    other: XorName,
)
    ensures
        ({
            let f = queues.in_flight[key];
            let (after, next) = fetch_next(queues, key, outcome);
            let asked_all = forall|i: int|
                0 <= i < f.sources.len() ==> f.tried.contains(#[trigger] f.sources[i])
                    || f.sources[i] == f.source;
            &&& next is Terminal <==> !(queues.in_flight.contains_key(key) && outcome == Some(
                FetchResult::SourceFailed,
            ) && !asked_all)
            &&& next matches FetchNext::Retry { source } ==> {
                &&& f.sources.contains(source)
                &&& !f.tried.contains(source)
                &&& source != f.source
                &&& after.in_flight.contains_key(key)
                &&& after.in_flight[key].source == source
                &&& after.in_flight[key].sources == f.sources
                &&& after.in_flight[key].tried == f.tried.push(f.source)
            }
            &&& next is Terminal ==> !after.in_flight.contains_key(key)
            &&& other != key ==> (after.in_flight.contains_key(other)
                <==> queues.in_flight.contains_key(other))
            &&& other != key && queues.in_flight.contains_key(other) ==> after.in_flight[other]
                == queues.in_flight[other]
            &&& after.pending == queues.pending
            &&& after.queued == queues.queued
        }),
{
    lemma_retry_asks_every_source(queues, key, other);
}

/// How each answer is taken. Data that came under another key, is too large or
/// does not hash to the key fails the integrity check; data that passed is
/// stored, and a store that fails counts as a failed source; so does every
/// answer without data and a request or answer that did not get through. The
/// source is reported for bad data, for an answer that is not the data and for
/// one that makes no sense.
pub proof fn lemma_fetch_step_cases(
    key: XorName,
    max_chunk_size: u64,
    reply: FetchReply,
    computed: Option<XorName>,
    stored: Option<bool>,
)
    ensures
        ({
            let step = fetch_step(key, max_chunk_size, reply, computed, stored);
            let fits = reply matches FetchReply::Answer(
                FetchResponse::Success { key: answered, data },
            ) && answered == key && data@.len() <= max_chunk_size;
            let misfits = reply matches FetchReply::Answer(
                FetchResponse::Success { key: answered, data },
            ) && (answered != key || data@.len() > max_chunk_size);
            let bad = misfits || (fits && computed is Some && computed != Some(key));
            let refused = reply is Undecodable || reply is Unexpected || (reply matches FetchReply::Answer(
                answer,
            ) && !(answer is Success));
            let lost = reply is NotEncoded || reply is SendFailed;
            let checked = fits && computed == Some(key);
            &&& step is ComputeAddress <==> fits && computed is None
            &&& step is Store <==> checked && stored is None
            &&& step is Finish <==> bad || refused || lost || (checked && stored is Some)
            &&& step matches FetchStep::Finish { result, penalize } ==> {
                &&& result is IntegrityFailed <==> bad
                &&& result is Stored <==> checked && stored == Some(true)
                &&& result is SourceFailed <==> refused || lost || (checked && stored == Some(false))
                &&& penalize <==> bad || refused
            }
        }),
{
}

/// Free slots go to the nearest candidates. Every fetch started is of a queued
/// candidate of its own and asks its first source. Nothing that stays queued is nearer
/// than anything that left the queue. A slot stays free only when the queue is
/// empty. A candidate with a source that left the queue is in flight, with
/// nobody tried; fetches that ran before, and the pending keys, are untouched.
pub proof fn lemma_fill_starts_the_nearest(queues: QueuesModel, slots: nat)
    requires
        queues.valid(),
    ensures
        ({
            let (after, tasks) = filled(queues, slots);
            &&& tasks.len() <= slots
            &&& tasks.len() < slots ==> after.queued.len() == 0
            &&& slots == 0 ==> after == queues
            &&& after.pending == queues.pending
            &&& forall|k: XorName| #[trigger]
                queues.in_flight.contains_key(k) ==> after.in_flight.contains_key(k)
                    && after.in_flight[k] == queues.in_flight[k]
            &&& forall|t: int|
                0 <= t < tasks.len() ==> started(queues.queued, after, #[trigger] tasks[t])
                    && !queues.in_flight.contains_key(tasks[t].key)
            &&& forall|s: int, t: int|
                0 <= s < t < tasks.len() ==> #[trigger] tasks[s].key != #[trigger] tasks[t].key
            &&& forall|c: CandidateModel|
                #![trigger queues.queued.contains(c)]
                queues.queued.contains(c) ==> after.queued.contains(c) || c.sources.len() == 0 || (
                after.in_flight.contains_key(c.key) && exists|t: int|
                    0 <= t < tasks.len() && #[trigger] tasks[t].key == c.key)
            &&& forall|c: CandidateModel| #[trigger]
                after.queued.contains(c) ==> queues.queued.contains(c)
            &&& forall|c: CandidateModel, d: CandidateModel|
                #![trigger queues.queued.contains(c), after.queued.contains(d)]
                queues.queued.contains(c) && !after.queued.contains(c) && after.queued.contains(d)
                    ==> !nearer(d.distance, c.distance)
        }),
    decreases queues.queued.len(),
{
    lemma_fill_respects_slots(queues, slots);
    if slots > 0 && queues.queued.len() > 0 {
        lemma_front_exists(queues.queued);
        let f = front(queues.queued);
        let c = queues.queued[f];
        let rest = queues.dequeued();
        lemma_dequeued_valid(queues);
        assert(queues.queued.contains(c));
        assert(queues.is_queued(c.key));
        assert(!rest.queued.contains(c)) by {
            if rest.queued.contains(c) {
                let i = choose|i: int| 0 <= i < rest.queued.len() && rest.queued[i] == c;
                assert(rest.queued[i].key == c.key);
                assert(rest.is_queued(c.key));
            }
        }
        assert forall|d: CandidateModel| #[trigger] queues.queued.contains(d) implies d == c
            || rest.queued.contains(d) by {
            let i = choose|i: int| 0 <= i < queues.queued.len() && queues.queued[i] == d;
            if i < f {
                assert(rest.queued[i] == d);
            } else if i > f {
                assert(rest.queued[i - 1] == d);
            }
        }
        assert forall|d: CandidateModel| #[trigger] rest.queued.contains(d) implies queues.queued.contains(
            d,
        ) by {
            let i = choose|i: int| 0 <= i < rest.queued.len() && rest.queued[i] == d;
            assert(queues.queued[if i < f {
                i
            } else {
                i + 1
            }] == d);
        }
        assert forall|d: CandidateModel| #[trigger] queues.queued.contains(d) implies !nearer(
            d.distance,
            c.distance,
        ) by {
            let i = choose|i: int| 0 <= i < queues.queued.len() && queues.queued[i] == d;
            assert(!nearer(queues.queued[i].distance, queues.queued[f].distance));
        }
        let (after, tasks) = filled(queues, slots);
        if c.sources.len() == 0 {
            lemma_fill_starts_the_nearest(rest, slots);
            assert forall|t: int| 0 <= t < tasks.len() implies started(
                queues.queued,
                after,
                #[trigger] tasks[t],
            ) && !queues.in_flight.contains_key(tasks[t].key) by {
                assert(started(rest.queued, after, tasks[t]));
                lemma_started_widens(rest.queued, queues.queued, after, tasks[t]);
            }
            assert(!after.queued.contains(c));
        } else {
            let begun = rest.fetching(c.key, c.sources[0], c.sources);
            lemma_fetching_valid(rest, c.key, c.sources[0], c.sources);
            lemma_fill_starts_the_nearest(begun, (slots - 1) as nat);
            let later = filled(begun, (slots - 1) as nat).1;
            let first = FetchTask { key: c.key, source: c.sources[0] };
            assert(begun.in_flight.contains_key(c.key));
            assert(tasks[0] == first);
            assert(started(queues.queued, after, first)) by {
                let i = f;
                assert(queues.queued[i] == c);
            }
            assert forall|t: int| 0 <= t < tasks.len() implies started(
                queues.queued,
                after,
                #[trigger] tasks[t],
            ) && !queues.in_flight.contains_key(tasks[t].key) by {
                if t > 0 {
                    assert(tasks[t] == later[t - 1]);
                    assert(started(begun.queued, after, later[t - 1]));
                    lemma_started_widens(begun.queued, queues.queued, after, later[t - 1]);
                    assert(!begun.in_flight.contains_key(later[t - 1].key));
                }
            }
            assert forall|s: int, t: int| 0 <= s < t < tasks.len() implies #[trigger] tasks[s].key
                != #[trigger] tasks[t].key by {
                assert(tasks[t] == later[t - 1]);
                assert(!begun.in_flight.contains_key(later[t - 1].key));
                if s > 0 {
                    assert(tasks[s] == later[s - 1]);
                }
            }
            assert forall|k: XorName| #[trigger]
                queues.in_flight.contains_key(k) implies after.in_flight.contains_key(k)
                && after.in_flight[k] == queues.in_flight[k] by {
                assert(begun.in_flight.contains_key(k));
            }
            assert forall|d: CandidateModel|
                #![trigger queues.queued.contains(d)]
                queues.queued.contains(d) implies after.queued.contains(d) || d.sources.len() == 0
                || (after.in_flight.contains_key(d.key) && exists|t: int|
                0 <= t < tasks.len() && #[trigger] tasks[t].key == d.key) by {
                if d == c {
                    assert(tasks[0].key == d.key);
                } else {
                    assert(begun.queued.contains(d));
                    if !after.queued.contains(d) && d.sources.len() > 0 {
                        let t = choose|t: int|
                            0 <= t < later.len() && #[trigger] later[t].key == d.key;
                        assert(tasks[t + 1].key == d.key);
                    }
                }
            }
        }
    }
}

/// `task` asks the first source of a candidate of `queue`, and that fetch runs
/// afterwards with nobody tried.
pub open spec fn started(
    queue: Seq<CandidateModel>,
    after: QueuesModel,
    task: FetchTask,
) -> bool {
    &&& after.in_flight.contains_key(task.key)
    &&& after.in_flight[task.key].source == task.source
    &&& after.in_flight[task.key].tried.len() == 0
    &&& exists|i: int|
        {
            &&& 0 <= i < queue.len()
            &&& #[trigger] queue[i].key == task.key
            &&& queue[i].sources.len() > 0
            &&& queue[i].sources[0] == task.source
            &&& queue[i].sources == after.in_flight[task.key].sources
        }
}

proof fn lemma_started_widens(
    few: Seq<CandidateModel>,
    many: Seq<CandidateModel>,
    after: QueuesModel,
    task: FetchTask,
)
    requires
        started(few, after, task),
        forall|d: CandidateModel| #[trigger] few.contains(d) ==> many.contains(d),
    ensures
        started(many, after, task),
{
    let i = choose|i: int|
        {
            &&& 0 <= i < few.len()
            &&& #[trigger] few[i].key == task.key
            &&& few[i].sources.len() > 0
            &&& few[i].sources[0] == task.source
            &&& few[i].sources == after.in_flight[task.key].sources
        };
    assert(few.contains(few[i]));
    let j = choose|j: int| 0 <= j < many.len() && many[j] == few[i];
    assert(many[j].key == task.key);
}

} // verus!
