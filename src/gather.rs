//! The gathering state machine: one fetch per queue, at most
//! `MAX_IN_FLIGHT` fetches outstanding at once, failing on the first error.
//!
//! The caller performs the fetches: it asks `next_launch` for work until it
//! gets `None`, hands each result back to `complete`, and stops once
//! `is_done` holds, taking the result from `outcome`.

use vstd::prelude::*;
use crate::record::{QueueAttributes, QueueRecord, build_record, is_record_of};

verus! {

/// Most fetches outstanding at any moment.
pub const MAX_IN_FLIGHT: usize = 256;

/// The state of one identifier's fetch.
pub enum Slot {
    /// Not launched, or launched and awaiting its result.
    Open,
    /// Completed with this record.
    Filled(QueueRecord),
    /// Completed with a failure.
    Failed,
}

/// Number of slots among the first `n` that are still open.
pub open spec fn count_open(slots: Seq<Slot>, n: int) -> nat
    decreases n,
{
    if n <= 0 {
        0
    } else {
        count_open(slots, n - 1) + if slots[n - 1] is Open { 1nat } else { 0nat }
    }
}

proof fn lemma_count_close(slots: Seq<Slot>, n: int, i: int, v: Slot)
    requires
        0 <= i < n <= slots.len(),
        slots[i] is Open,
        !(v is Open),
    ensures
        count_open(slots.update(i, v), n) + 1 == count_open(slots, n),
    decreases n,
{
    if n - 1 > i {
        lemma_count_close(slots, n - 1, i, v);
    } else {
        lemma_count_same(slots, slots.update(i, v), i);
    }
}

proof fn lemma_count_same(a: Seq<Slot>, b: Seq<Slot>, n: int)
    requires
        0 <= n <= a.len(),
        n <= b.len(),
        forall|k: int| 0 <= k < n ==> a[k] == b[k],
    ensures
        count_open(a, n) == count_open(b, n),
    decreases n,
{
    if n > 0 {
        lemma_count_same(a, b, n - 1);
    }
}

proof fn lemma_count_zero(slots: Seq<Slot>, n: int)
    requires
        0 <= n <= slots.len(),
        count_open(slots, n) == 0,
    ensures
        forall|k: int| 0 <= k < n ==> !(slots[k] is Open),
    decreases n,
{
    if n > 0 {
        lemma_count_zero(slots, n - 1);
    }
}

/// Fetch results for a list of queue identifiers, gathered under a ceiling
/// on outstanding fetches.
pub struct Gatherer {
    identifiers: Vec<String>,
    /// Identifiers before this index have been launched.
    next: usize,
    /// Number of launched fetches not yet completed.
    in_flight: usize,
    /// The record of each completed fetch, by identifier position.
    slots: Vec<Slot>,
    /// The first failure reported, if any.
    failure: Option<String>,
}

impl Gatherer {
    /// The identifiers to fetch.
    pub closed spec fn ids(&self) -> Seq<String> {
        self.identifiers@
    }

    /// Number of identifiers launched so far (a prefix of `ids`).
    pub closed spec fn launched(&self) -> nat {
        self.next as nat
    }

    /// Number of launched fetches that have not completed.
    pub closed spec fn pending(&self) -> nat {
        self.in_flight as nat
    }

    /// The record for position `i`, once its fetch has completed.
    pub closed spec fn slot(&self, i: int) -> Option<QueueRecord> {
        match self.slots@[i] {
            Slot::Filled(r) => Some(r),
            _ => None,
        }
    }

    /// The fetch for position `i` has not reported back (it may not be launched).
    pub closed spec fn open(&self, i: int) -> bool {
        self.slots@[i] is Open
    }

    /// The first failure reported.
    pub closed spec fn failed(&self) -> Option<String> {
        self.failure
    }

    /// Position `i` has been launched and its result is still awaited.
    pub open spec fn is_pending(&self, i: int) -> bool {
        0 <= i < self.launched() && self.open(i)
    }

    /// Number of positions before `n` whose fetch has not reported back.
    pub open spec fn count_awaiting(&self, n: int) -> nat
        decreases n,
    {
        if n <= 0 {
            0
        } else {
            self.count_awaiting(n - 1) + if self.open(n - 1) { 1nat } else { 0nat }
        }
    }

    /// No more work: a fetch failed, or every fetch has completed.
    pub open spec fn done(&self) -> bool {
        self.failed() is Some || (self.launched() == self.ids().len() && self.pending() == 0)
    }

    pub closed spec fn wf(&self) -> bool {
        &&& self.slots@.len() == self.identifiers@.len()
        &&& self.next <= self.identifiers@.len()
        &&& forall|i: int| self.next <= i < self.slots@.len() ==> self.slots@[i] is Open
        &&& self.in_flight == count_open(self.slots@, self.next as int)
        &&& self.in_flight <= MAX_IN_FLIGHT
        &&& forall|i: int| 0 <= i < self.slots@.len() && self.slots@[i] is Failed ==> self.failure is Some
        &&& forall|i: int| 0 <= i < self.slots@.len() && (#[trigger] self.slots@[i]) is Filled
            ==> self.slots@[i]->Filled_0.identifier@ == self.identifiers@[i]@
    }

    /// Every well-formed gatherer has at most `MAX_IN_FLIGHT` fetches
    /// outstanding, and that count is the number of launched positions whose
    /// result is still awaited.
    pub proof fn lemma_in_flight_bounded(&self)
        requires
            self.wf(),
        ensures
            self.pending() <= MAX_IN_FLIGHT,
            self.pending() == self.count_awaiting(self.launched() as int),
    {
        self.lemma_count_awaiting(self.next as int);
    }

    proof fn lemma_count_awaiting(&self, n: int)
        requires
            0 <= n <= self.slots@.len(),
        ensures
            self.count_awaiting(n) == count_open(self.slots@, n),
        decreases n,
    {
        if n > 0 {
            self.lemma_count_awaiting(n - 1);
        }
    }

    /// Once finished without a failure, every identifier has exactly one
    /// record, at its own position and carrying that identifier.
    pub proof fn lemma_success_covers_all(&self)
        requires
            self.wf(),
            self.done(),
            self.failed() is None,
        ensures
            forall|i: int| 0 <= i < self.ids().len() ==> (#[trigger] self.slot(i)) is Some
                && self.slot(i).unwrap().identifier@ == self.ids()[i]@,
    {
        lemma_count_zero(self.slots@, self.next as int);
        assert forall|i: int| 0 <= i < self.ids().len() implies (#[trigger] self.slot(i)) is Some
            && self.slot(i).unwrap().identifier@ == self.ids()[i]@ by {
            assert(!(self.slots@[i] is Open));
            assert(!(self.slots@[i] is Failed));
        }
    }

    /// Over no identifiers nothing is launched or outstanding, and the
    /// gathering is done from the start.
    pub proof fn lemma_empty_is_done(&self)
        requires
            self.wf(),
            self.ids().len() == 0,
        ensures
            self.launched() == 0,
            self.pending() == 0,
            self.done(),
    {
    }

    /// Once a fetch has failed the gathering is over.
    pub proof fn lemma_failure_is_final(&self)
        requires
            self.wf(),
            self.failed() is Some,
        ensures
            self.done(),
    {
    }

    /// A gatherer over `identifiers`, with nothing launched yet. Over no
    /// identifiers it is done at once.
    pub fn new(identifiers: Vec<String>) -> (g: Gatherer)
        ensures
            g.wf(),
            g.ids() == identifiers@,
            g.launched() == 0,
            g.pending() == 0,
            g.failed() is None,
            g.done() == (identifiers@.len() == 0),
    {
        let n = identifiers.len();
        let mut slots: Vec<Slot> = Vec::new();
        let mut i: usize = 0;
        while i < n
            invariant
                i <= n,
                slots@.len() == i,
                forall|k: int| 0 <= k < i ==> slots@[k] is Open,
            decreases n - i,
        {
            slots.push(Slot::Open);
            i = i + 1;
        }
        Gatherer { identifiers, next: 0, in_flight: 0, slots, failure: None }
    }

    /// Whether the gathering is over (see `done`).
    pub fn is_done(&self) -> (r: bool)
        requires
            self.wf(),
        ensures
            r == self.done(),
    {
        self.failure.is_some() || (self.next == self.identifiers.len() && self.in_flight == 0)
    }

    /// Whether position `i` is launched and awaiting its result.
    pub fn is_awaiting(&self, i: usize) -> (r: bool)
        requires
            self.wf(),
        ensures
            r == self.is_pending(i as int),
    {
        i < self.next && matches!(self.slots[i], Slot::Open)
    }

    /// Launches the next identifier, when no fetch has failed, some remain,
    /// and fewer than `MAX_IN_FLIGHT` are outstanding. Returns its position
    /// and a copy of it.
    pub fn next_launch(&mut self) -> (r: Option<(usize, String)>)
        requires
            old(self).wf(),
        ensures
            final(self).wf(),
            final(self).ids() == old(self).ids(),
            final(self).failed() == old(self).failed(),
            forall|i: int| 0 <= i < final(self).ids().len() ==> #[trigger] final(self).slot(i) == old(self).slot(i)
                && final(self).open(i) == old(self).open(i),
            (r is Some) == (old(self).failed() is None && old(self).launched() < old(self).ids().len()
                && old(self).pending() < MAX_IN_FLIGHT),
            r matches Some((i, id)) ==> {
                &&& i == old(self).launched()
                &&& id@ == old(self).ids()[i as int]@
                &&& final(self).launched() == old(self).launched() + 1
                &&& final(self).pending() == old(self).pending() + 1
            },
            r is None ==> final(self).launched() == old(self).launched() && final(self).pending() == old(self).pending(),
    {
        if self.failure.is_none() && self.next < self.identifiers.len() && self.in_flight < MAX_IN_FLIGHT {
            let i = self.next;
            let id = self.identifiers[i].clone();
            self.next = i + 1;
            self.in_flight = self.in_flight + 1;
            Some((i, id))
        } else {
            None
        }
    }

    /// Hands back the result of the fetch for position `i`. A success fills
    /// its record; a failure is kept when it is the first one.
    pub fn complete(&mut self, i: usize, result: Result<QueueAttributes, String>)
        requires
            old(self).wf(),
            old(self).is_pending(i as int),
        ensures
            final(self).wf(),
            final(self).ids() == old(self).ids(),
            final(self).launched() == old(self).launched(),
            final(self).pending() + 1 == old(self).pending(),
            match result {
                Ok(attrs) => {
                    &&& final(self).slot(i as int) matches Some(r)
                    &&& is_record_of(r, old(self).ids()[i as int]@, attrs)
                    &&& final(self).failed() == old(self).failed()
                },
                Err(e) => {
                    &&& final(self).slot(i as int) is None
                &&& !final(self).open(i as int)
                    &&& final(self).failed() == if old(self).failed() is Some { old(self).failed() } else { Some(e) }
                },
            },
            forall|k: int| 0 <= k < final(self).ids().len() && k != i ==> #[trigger] final(self).slot(k) == old(self).slot(k)
                && final(self).open(k) == old(self).open(k),
    {
        let ghost before = self.slots@;
        match result {
            Ok(attrs) => {
                let record = build_record(self.identifiers[i].clone(), attrs);
                proof {
                    lemma_count_close(before, self.next as int, i as int, Slot::Filled(record));
                }
                self.slots.set(i, Slot::Filled(record));
            },
            Err(e) => {
                proof {
                    lemma_count_close(before, self.next as int, i as int, Slot::Failed);
                }
                self.slots.set(i, Slot::Failed);
                if self.failure.is_none() {
                    self.failure = Some(e);
                }
            },
        }
        self.in_flight = self.in_flight - 1;
    }

    /// The gathered records, one per identifier in identifier order, or the
    /// first failure.
    pub fn outcome(self) -> (r: Result<Vec<QueueRecord>, String>)
        requires
            self.wf(),
            self.done(),
        ensures
            match self.failed() {
                Some(e) => r == Err::<Vec<QueueRecord>, String>(e),
                None => r matches Ok(v) && v@.len() == self.ids().len() && forall|i: int|
                    0 <= i < v@.len() ==> Some(#[trigger] v@[i]) == self.slot(i) && v@[i].identifier@
                        == self.ids()[i]@,
            },
    {
        match self.failure {
            Some(e) => Err(e),
            None => {
                proof {
                    self.lemma_success_covers_all();
                    assert forall|k: int| 0 <= k < self.slots@.len() implies (#[trigger] self.slots@[k]) is Filled by {
                        assert(self.slot(k) is Some);
                    }
                }
                let Gatherer { slots, .. } = self;
                let ghost all = slots@;
                let mut rest = slots;
                let mut reversed: Vec<QueueRecord> = Vec::new();
                while rest.len() > 0
                    invariant
                        rest@ == all.subrange(0, rest@.len() as int),
                        rest@.len() + reversed@.len() == all.len(),
                        forall|k: int| 0 <= k < all.len() ==> (#[trigger] all[k]) is Filled,
                        forall|k: int| 0 <= k < reversed@.len() ==> all[all.len() - 1 - k] == Slot::Filled(#[trigger] reversed@[k]),
                    decreases rest@.len(),
                {
                    let ghost k = rest@.len() - 1;
                    match rest.pop() {
                        Some(Slot::Filled(r)) => reversed.push(r),
                        _ => {
                            assert(all[k] is Filled);
                        },
                    }
                    assert(rest@ =~= all.subrange(0, rest@.len() as int));
                }
                let mut out: Vec<QueueRecord> = Vec::new();
                let ghost n = all.len();
                while reversed.len() > 0
                    invariant
                        reversed@.len() + out@.len() == n,
                        n == all.len(),
                        forall|k: int| 0 <= k < reversed@.len() ==> all[n - 1 - k] == Slot::Filled(#[trigger] reversed@[k]),
                        forall|k: int| 0 <= k < out@.len() ==> all[k] == Slot::Filled(#[trigger] out@[k]),
                    decreases reversed@.len(),
                {
                    let ghost before = reversed@;
                    match reversed.pop() {
                        Some(r) => {
                            assert(all[n - 1 - (before.len() - 1)] == Slot::Filled(r));
                            out.push(r);
                        },
                        None => {},
                    }
                }
                Ok(out)
            },
        }
    }
}

/// How a run begins once the queue identifiers are listed.
pub enum RunStart {
    /// No queue was listed: there is nothing to gather.
    NoQueues,
    /// Gather the status of the listed queues.
    Gather(Gatherer),
}

/// Begins a run over the listed identifiers: an empty listing ends it at
/// once, without a gatherer.
pub fn start_run(identifiers: Vec<String>) -> (r: RunStart)
    ensures
        (r is NoQueues) == (identifiers@.len() == 0),
        r matches RunStart::Gather(g) ==> {
            &&& g.wf()
            &&& g.ids() == identifiers@
            &&& g.launched() == 0
            &&& g.failed() is None
        },
{
    if identifiers.len() == 0 {
        RunStart::NoQueues
    } else {
        RunStart::Gather(Gatherer::new(identifiers))
    }
}

} // verus!
