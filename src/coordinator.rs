//! The turn-coordination protocol: once every worker reports idle, either feed
//! the latest pending observation back to the model or ask for new speech.
//! The waiting between rounds and the queries themselves belong to the caller;
//! this module decides what a round does with the answers.

use vstd::prelude::*;

verus! {

/// Readiness of one worker.
#[derive(Clone, Copy, Debug, PartialEq, Eq, Structural)]
pub enum Status {
    Idle,
    Busy,
}

#[derive(Clone, Copy, Debug, PartialEq, Eq, Structural)]
pub enum CoordinatorError {
    /// A status query could not reach its worker.
    WorkerUnavailable,
}

/// One worker's answer to a status query, by name.
pub type Reading = (String, Result<Status, CoordinatorError>);

/// The answers of one polling round, in the order the workers were asked.
pub struct StatusSnapshot {
    entries: Vec<Reading>,
}

impl View for StatusSnapshot {
    type V = Seq<Reading>;

    closed spec fn view(&self) -> Seq<Reading> {
        self.entries@
    }
}

impl StatusSnapshot {
    pub fn new() -> (r: Self)
        ensures
            r@.len() == 0,
    {
        StatusSnapshot { entries: Vec::new() }
    }

    /// Adds the answer of worker `name`.
    pub fn record(&mut self, name: String, reading: Result<Status, CoordinatorError>)
        ensures
            final(self)@ == old(self)@.push((name, reading)),
    {
        self.entries.push((name, reading));
    }

    pub fn len(&self) -> (r: usize)
        ensures
            r == self@.len(),
    {
        self.entries.len()
    }
}

/// Observations left by action execution, most recent last.
pub struct ObservationQueue {
    items: Vec<String>,
}

impl View for ObservationQueue {
    type V = Seq<String>;

    closed spec fn view(&self) -> Seq<String> {
        self.items@
    }
}

impl ObservationQueue {
    pub fn new() -> (r: Self)
        ensures
            r@.len() == 0,
    {
        ObservationQueue { items: Vec::new() }
    }

    pub fn push(&mut self, observation: String)
        ensures
            final(self)@ == old(self)@.push(observation),
    {
        self.items.push(observation);
    }

    /// Removes and returns the most recent observation, if any.
    pub fn pop(&mut self) -> (r: Option<String>)
        ensures
            old(self)@.len() == 0 ==> r is None && final(self)@ == old(self)@,
            old(self)@.len() > 0 ==> r == Some(old(self)@.last()) && final(self)@ == old(
                self,
            )@.drop_last(),
    {
        self.items.pop()
    }

    pub fn len(&self) -> (r: usize)
        ensures
            r == self@.len(),
    {
        self.items.len()
    }

    pub fn is_empty(&self) -> (r: bool)
        ensures
            r == (self@.len() == 0),
    {
        self.items.len() == 0
    }
}

/// What a polling round asks the caller to do.
#[derive(Debug)]
pub enum TurnDecision {
    /// The coordinator was cancelled: leave the loop.
    Stop,
    /// Some worker is busy or could not be asked: take no action this round.
    Wait,
    /// Send this observation to the model as a new turn.
    Reinject(String),
    /// Ask the speech-input worker to capture a new utterance.
    RequestCapture,
}

/// Every worker of `workers` answered, in order, and each is idle.
pub open spec fn all_idle(workers: Seq<Seq<char>>, snapshot: Seq<Reading>) -> bool {
    &&& snapshot.len() == workers.len()
    &&& forall|i: int|
        0 <= i < snapshot.len() ==> (#[trigger] snapshot[i]).0@ == workers[i] && snapshot[i].1
            == Ok::<Status, CoordinatorError>(Status::Idle)
}

/// Some worker of the snapshot could not be asked.
pub open spec fn some_unavailable(snapshot: Seq<Reading>) -> bool {
    exists|j: int| 0 <= j < snapshot.len() && (#[trigger] snapshot[j]).1 is Err
}

/// The most rounds in a row with an unreachable worker that lengthen the wait.
pub const MAX_BACKOFF_STEPS: u32 = 5;

/// The wait before a round, in seconds, after `n` rounds in a row in which
/// some worker could not be asked: two seconds, doubled for each such round.
pub open spec fn backoff_secs(n: nat) -> nat
    decreases n,
{
    if n == 0 {
        2
    } else {
        2 * backoff_secs((n - 1) as nat)
    }
}

/// How many rounds in a row had an unreachable worker, after `snapshot`.
pub open spec fn next_unreachable(n: nat, snapshot: Seq<Reading>) -> nat {
    if !some_unavailable(snapshot) {
        0
    } else if n < MAX_BACKOFF_STEPS {
        n + 1
    } else {
        MAX_BACKOFF_STEPS as nat
    }
}

/// Some worker of the snapshot reports busy.
pub open spec fn some_busy(snapshot: Seq<Reading>) -> bool {
    exists|j: int|
        0 <= j < snapshot.len() && (#[trigger] snapshot[j]).1 == Ok::<Status, CoordinatorError>(
            Status::Busy,
        )
}

/// One round: its decision, and the observation queue after it.
pub open spec fn next_turn(
    cancelled: bool,
    workers: Seq<Seq<char>>,
    snapshot: Seq<Reading>,
    queue: Seq<String>,
) -> (TurnDecision, Seq<String>) {
    if cancelled {
        (TurnDecision::Stop, queue)
    } else if !all_idle(workers, snapshot) {
        (TurnDecision::Wait, queue)
    } else if queue.len() > 0 {
        (TurnDecision::Reinject(queue.last()), queue.drop_last())
    } else {
        (TurnDecision::RequestCapture, queue)
    }
}

/// Rounds on successive snapshots: their decisions in order, and the
/// observation queue after the last.
pub open spec fn turns(
    workers: Seq<Seq<char>>,
    snapshots: Seq<Seq<Reading>>,
    queue: Seq<String>,
) -> (Seq<TurnDecision>, Seq<String>)
    decreases snapshots.len(),
{
    if snapshots.len() == 0 {
        (Seq::empty(), queue)
    } else {
        let (decisions, q) = turns(workers, snapshots.drop_last(), queue);
        let (d, q2) = next_turn(false, workers, snapshots.last(), q);
        (decisions.push(d), q2)
    }
}

/// The coordinator: the workers it polls, in order, whether it was
/// cancelled, and how many rounds in a row some worker could not be asked.
pub struct TurnCoordinator {
    workers: Vec<String>,
    cancelled: bool,
    unreachable_rounds: u32,
}

impl View for TurnCoordinator {
    type V = (Seq<Seq<char>>, bool, nat);

    closed spec fn view(&self) -> (Seq<Seq<char>>, bool, nat) {
        (
            self.workers@.map_values(|w: String| w@),
            self.cancelled,
            self.unreachable_rounds as nat,
        )
    }
}

impl TurnCoordinator {
    pub fn new(workers: Vec<String>) -> (r: Self)
        ensures
            r@ == (workers@.map_values(|w: String| w@), false, 0nat),
    {
        TurnCoordinator { workers, cancelled: false, unreachable_rounds: 0 }
    }

    /// Seconds to wait before the next round: two, doubled for each round in
    /// a row (up to `MAX_BACKOFF_STEPS`) in which some worker could not be
    /// asked.
    pub fn round_delay_secs(&self) -> (r: u64)
        ensures
            r == backoff_secs(
                if self@.2 <= MAX_BACKOFF_STEPS {
                    self@.2
                } else {
                    MAX_BACKOFF_STEPS as nat
                },
            ),
    {
        let steps = if self.unreachable_rounds <= MAX_BACKOFF_STEPS {
            self.unreachable_rounds
        } else {
            MAX_BACKOFF_STEPS
        };
        let mut delay: u64 = 2;
        let mut i: u32 = 0;
        while i < steps
            invariant
                steps <= MAX_BACKOFF_STEPS,
                i <= steps,
                delay == backoff_secs(i as nat),
                delay <= 64,
            decreases steps - i,
        {
            assert(backoff_secs((i + 1) as nat) == 2 * backoff_secs(i as nat));
            proof {
                lemma_backoff_bound(i as nat);
            }
            delay = delay * 2;
            i = i + 1;
        }
        delay
    }

    /// The workers to poll, in order.
    pub fn workers(&self) -> (r: &Vec<String>)
        ensures
            r@.map_values(|w: String| w@) == self@.0,
    {
        &self.workers
    }

    /// Stops the loop: every later round decides `Stop`.
    pub fn cancel(&mut self)
        ensures
            final(self)@ == (old(self)@.0, true, old(self)@.2),
    {
        self.cancelled = true;
    }

    pub fn is_cancelled(&self) -> (r: bool)
        ensures
            r == self@.1,
    {
        self.cancelled
    }

    /// Decides one round from its snapshot. Only when every worker answered
    /// idle does the round act: it pops the most recent observation and hands
    /// it back for the model, or, with none pending, asks for new speech.
    /// A round in which some worker could not be asked lengthens the wait
    /// before the next one.
    pub fn decide(&mut self, snapshot: &StatusSnapshot, observations: &mut ObservationQueue) -> (r:
        TurnDecision)
        ensures
            (r, final(observations)@) == next_turn(
                old(self)@.1,
                old(self)@.0,
                snapshot@,
                old(observations)@,
            ),
            final(self)@ == (old(self)@.0, old(self)@.1, next_unreachable(old(self)@.2, snapshot@)),
            final(self)@.2 <= MAX_BACKOFF_STEPS,
    {
        if self.any_unavailable(snapshot) {
            if self.unreachable_rounds < MAX_BACKOFF_STEPS {
                self.unreachable_rounds = self.unreachable_rounds + 1;
            } else {
                self.unreachable_rounds = MAX_BACKOFF_STEPS;
            }
        } else {
            self.unreachable_rounds = 0;
        }
        if self.cancelled {
            return TurnDecision::Stop;
        }
        if !self.quiescent(snapshot) {
            return TurnDecision::Wait;
        }
        match observations.pop() {
            Some(observation) => TurnDecision::Reinject(observation),
            None => TurnDecision::RequestCapture,
        }
    }

    /// Whether some worker could not be asked.
    pub fn any_unavailable(&self, snapshot: &StatusSnapshot) -> (r: bool)
        ensures
            r == some_unavailable(snapshot@),
    {
        let entries = &snapshot.entries;
        let mut i: usize = 0;
        while i < entries.len()
            invariant
                entries@ == snapshot@,
                i <= entries.len(),
                forall|j: int| 0 <= j < i ==> (#[trigger] entries@[j]).1 is Ok,
            decreases entries.len() - i,
        {
            if entries[i].1.is_err() {
                assert(snapshot@[i as int].1 is Err);
                return true;
            }
            i = i + 1;
        }
        false
    }

    /// Whether every worker answered, in order, and each is idle.
    pub fn quiescent(&self, snapshot: &StatusSnapshot) -> (r: bool)
        ensures
            r == all_idle(self@.0, snapshot@),
    {
        let entries = &snapshot.entries;
        if entries.len() != self.workers.len() {
            return false;
        }
        let mut i: usize = 0;
        while i < entries.len()
            invariant
                entries@ == snapshot@,
                entries.len() == self.workers.len(),
                i <= entries.len(),
                forall|j: int|
                    0 <= j < i ==> (#[trigger] entries@[j]).0@ == self@.0[j] && entries@[j].1
                        == Ok::<Status, CoordinatorError>(Status::Idle),
            decreases entries.len() - i,
        {
            assert(self@.0[i as int] == self.workers@[i as int]@);
            assert(snapshot@[i as int] == entries@[i as int]);
            if entries[i].0 != self.workers[i] {
                return false;
            }
            match entries[i].1 {
                Ok(Status::Idle) => {},
                _ => {
                    return false;
                },
            }
            i = i + 1;
        }
        true
    }
}

proof fn lemma_backoff_bound(n: nat)
    requires
        n < MAX_BACKOFF_STEPS,
    ensures
        backoff_secs(n) <= 32,
{
    assert(backoff_secs(0) == 2);
    assert(backoff_secs(1) == 4);
    assert(backoff_secs(2) == 8);
    assert(backoff_secs(3) == 16);
    assert(backoff_secs(4) == 32);
}

/// Rounds in which some worker reports busy take no action: each decides
/// `Wait`, and the observation queue is left as it was.
pub proof fn lemma_busy_rounds_take_no_action(
    workers: Seq<Seq<char>>,
    snapshots: Seq<Seq<Reading>>,
    queue: Seq<String>,
)
    requires
        forall|i: int| 0 <= i < snapshots.len() ==> some_busy(#[trigger] snapshots[i]),
    ensures
        turns(workers, snapshots, queue).1 == queue,
        turns(workers, snapshots, queue).0.len() == snapshots.len(),
        forall|i: int|
            0 <= i < snapshots.len() ==> #[trigger] turns(workers, snapshots, queue).0[i]
                is Wait,
    decreases snapshots.len(),
{
    if snapshots.len() > 0 {
        let rest = snapshots.drop_last();
        assert forall|i: int| 0 <= i < rest.len() implies some_busy(#[trigger] rest[i]) by {
            assert(rest[i] == snapshots[i]);
        }
        lemma_busy_rounds_take_no_action(workers, rest, queue);
        let last = snapshots.last();
        assert(some_busy(snapshots[snapshots.len() - 1]));
        let j = choose|j: int|
            0 <= j < last.len() && (#[trigger] last[j]).1 == Ok::<Status, CoordinatorError>(
                Status::Busy,
            );
        assert(!all_idle(workers, last));
    }
}

/// A round in which every worker is idle acts exactly once: with
/// observations pending it pops the most recent one and hands it back, and
/// with none it asks for new speech and leaves the queue empty.
pub proof fn lemma_idle_round_acts_once(
    workers: Seq<Seq<char>>,
    snapshot: Seq<Reading>,
    queue: Seq<String>,
)
    requires
        all_idle(workers, snapshot),
    ensures
        queue.len() > 0 ==> next_turn(false, workers, snapshot, queue) == (
        TurnDecision::Reinject(queue.last()),
        queue.drop_last(),
        ),
        queue.len() > 0 ==> next_turn(false, workers, snapshot, queue).1.len() == queue.len()
            - 1,
        queue.len() == 0 ==> next_turn(false, workers, snapshot, queue) == (
        TurnDecision::RequestCapture,
        queue,
        ),
{
}

} // verus!
