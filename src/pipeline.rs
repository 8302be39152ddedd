use vstd::multiset::{lemma_multiset_empty_len, Multiset};
use vstd::prelude::*;
use vstd::seq_lib::lemma_multiset_commutative;

use crate::error::{Cause, ExtractError, FetchError, TopicError};
use crate::json::{views, Json};
use crate::stage::{
    count, lemma_count_full, lemma_count_le, lemma_count_zero, lemma_counts_after_set, Stage,
};

verus! {

/// At most this many fetches are in flight at once.
pub const FETCH_LIMIT: usize = 3;

/// At most this many extractions run at once.
pub const EXTRACT_LIMIT: usize = 3;

/// A completion handed back to the pipeline by whoever runs its commands.
pub enum Event {
    /// The fetch of identifier `index` ended.
    Fetched { index: usize, outcome: Result<Json, FetchError> },
    /// The extraction of identifier `index` ended.
    Extracted { index: usize, outcome: Result<Vec<String>, ExtractError> },
}

/// Work that the pipeline asks to be started.
pub enum Command {
    /// Fetch the payload of identifier `index`.
    Fetch { index: usize },
    /// Extract the values of identifier `index` from its payload.
    Extract { index: usize, payload: Json },
}

pub open spec fn command_index(c: Command) -> int {
    match c {
        Command::Fetch { index } => index as int,
        Command::Extract { index, .. } => index as int,
    }
}

/// The values of a log of folded batches, in the order they were folded.
pub open spec fn concat(log: Seq<(int, Seq<Seq<char>>)>) -> Seq<Seq<char>>
    decreases log.len(),
{
    if log.len() == 0 {
        Seq::empty()
    } else {
        concat(log.drop_last()) + log.last().1
    }
}

/// Identifier `i` has a batch in the log.
pub open spec fn folded(log: Seq<(int, Seq<Seq<char>>)>, i: int) -> bool {
    exists|j: int| 0 <= j < log.len() && (#[trigger] log[j]).0 == i
}

/// The union, with multiplicity, of the batches of a log.
pub open spec fn union_of(log: Seq<(int, Seq<Seq<char>>)>) -> Multiset<Seq<char>>
    decreases log.len(),
{
    if log.len() == 0 {
        Multiset::empty()
    } else {
        union_of(log.drop_last()).add(log.last().1.to_multiset())
    }
}

/// The abstract state of a pipeline.
pub struct PipelineView {
    /// The identifiers, in input order.
    pub repos: Seq<Seq<char>>,
    /// The stage of each identifier.
    pub stages: Seq<Stage>,
    /// The payload received for each identifier whose fetch succeeded.
    pub payloads: Map<int, Json>,
    /// Each folded batch with its identifier, in completion order.
    pub log: Seq<(int, Seq<Seq<char>>)>,
    /// The aggregate so far.
    pub values: Seq<Seq<char>>,
    /// The first failure observed: the identifier and its cause.
    pub failure: Option<(int, Cause)>,
}

impl PipelineView {
    pub open spec fn fetches_active(self) -> nat {
        count(self.stages, Stage::Fetching)
    }

    pub open spec fn extractions_active(self) -> nat {
        count(self.stages, Stage::Extracting)
    }

    /// Finished: failed, or every identifier folded.
    pub open spec fn is_done(self) -> bool {
        self.failure is Some || count(self.stages, Stage::Extracted) == self.stages.len()
    }

    /// The event reports on a task that this pipeline has in flight.
    pub open spec fn accepts(self, e: Event) -> bool {
        &&& self.failure is None
        &&& match e {
            Event::Fetched { index, .. } => index < self.stages.len() && self.stages[index as int]
                == Stage::Fetching,
            Event::Extracted { index, .. } => index < self.stages.len()
                && self.stages[index as int] == Stage::Extracting,
        }
    }

    /// The state right after an accepted event, before free slots are filled.
    pub open spec fn absorb(self, e: Event) -> PipelineView {
        match e {
            Event::Fetched { index, outcome } => match outcome {
                Ok(p) => PipelineView {
                    stages: self.stages.update(index as int, Stage::Fetched),
                    payloads: self.payloads.insert(index as int, p),
                    ..self
                },
                Err(err) => PipelineView {
                    stages: self.stages.update(index as int, Stage::Failed),
                    failure: Some((index as int, Cause::Fetch(err))),
                    ..self
                },
            },
            Event::Extracted { index, outcome } => match outcome {
                Ok(vals) => PipelineView {
                    stages: self.stages.update(index as int, Stage::Extracted),
                    log: self.log.push((index as int, views(vals@))),
                    values: self.values + views(vals@),
                    ..self
                },
                Err(err) => PipelineView {
                    stages: self.stages.update(index as int, Stage::Failed),
                    failure: Some((index as int, Cause::Extract(err))),
                    ..self
                },
            },
        }
    }

    /// `fin` is `self` after the commands `cmds` started: each one moves a
    /// pending identifier to fetching or a fetched one to extracting, each
    /// identifier at most once, and nothing else changes.
    pub open spec fn started(self, fin: PipelineView, cmds: Seq<Command>) -> bool {
        let n = self.stages.len();
        &&& fin.repos == self.repos
        &&& fin.payloads == self.payloads
        &&& fin.log == self.log
        &&& fin.values == self.values
        &&& fin.failure == self.failure
        &&& fin.stages.len() == n
        &&& forall|i: int|
            0 <= i < n && #[trigger] fin.stages[i] != self.stages[i] ==> (self.stages[i]
                == Stage::Pending && fin.stages[i] == Stage::Fetching) || (self.stages[i]
                == Stage::Fetched && fin.stages[i] == Stage::Extracting)
        &&& forall|k: int|
            0 <= k < cmds.len() ==> match #[trigger] cmds[k] {
                Command::Fetch { index } => index < n && self.stages[index as int]
                    == Stage::Pending && fin.stages[index as int] == Stage::Fetching,
                Command::Extract { index, payload } => index < n && self.stages[index as int]
                    == Stage::Fetched && fin.stages[index as int] == Stage::Extracting
                    && fin.payloads.contains_key(index as int) && payload
                    == fin.payloads[index as int],
            }
        &&& forall|j: int, k: int|
            0 <= j < k < cmds.len() ==> command_index(#[trigger] cmds[j]) != command_index(
                #[trigger] cmds[k],
            )
        &&& cmds.len() == (fin.fetches_active() - self.fetches_active()) + (
        fin.extractions_active() - self.extractions_active())
    }

    /// `fin` is `self` with its free slots filled by `cmds`: pending
    /// identifiers start fetching and fetched ones start extracting, until a
    /// stage is at its bound or has nothing left to take. Nothing starts once
    /// a failure is recorded.
    pub open spec fn filled(self, fin: PipelineView, cmds: Seq<Command>) -> bool {
        let n = self.stages.len();
        &&& self.started(fin, cmds)
        &&& self.failure is Some ==> fin.stages == self.stages && cmds.len() == 0
        &&& self.failure is None ==> {
            &&& fin.fetches_active() == FETCH_LIMIT || forall|i: int|
                0 <= i < n ==> fin.stages[i] != Stage::Pending
            &&& fin.extractions_active() == EXTRACT_LIMIT || forall|i: int|
                0 <= i < n ==> fin.stages[i] != Stage::Fetched
        }
    }
}

/// The two-stage pipeline that turns identifiers into one aggregate of
/// values. It decides; whoever drives it runs the fetches and extractions it
/// asks for and hands back their completions, in any order.
pub struct Pipeline {
    repos: Vec<String>,
    stages: Vec<Stage>,
    next: usize,
    ready: Vec<(usize, Json)>,
    fetching: usize,
    extracting: usize,
    extracted: usize,
    values: Vec<String>,
    failure: Option<(usize, Cause)>,
    payloads: Ghost<Map<int, Json>>,
    log: Ghost<Seq<(int, Seq<Seq<char>>)>>,
}

impl View for Pipeline {
    type V = PipelineView;

    closed spec fn view(&self) -> PipelineView {
        PipelineView {
            repos: views(self.repos@),
            stages: self.stages@,
            payloads: self.payloads@,
            log: self.log@,
            values: views(self.values@),
            failure: match self.failure {
                Some((i, c)) => Some((i as int, c)),
                None => None,
            },
        }
    }
}

impl Pipeline {
    pub closed spec fn wf(&self) -> bool {
        let n = self.repos@.len();
        let s = self.stages@;
        &&& s.len() == n
        &&& self.next <= n
        &&& forall|i: int| 0 <= i < n ==> ((#[trigger] s[i] == Stage::Pending) <==> i >= self.next)
        &&& self.fetching == count(s, Stage::Fetching)
        &&& self.fetching <= FETCH_LIMIT
        &&& self.extracting == count(s, Stage::Extracting)
        &&& self.extracting <= EXTRACT_LIMIT
        &&& self.extracted == count(s, Stage::Extracted)
        &&& self.ready@.len() == count(s, Stage::Fetched)
        &&& forall|k: int|
            0 <= k < self.ready@.len() ==> {
                let (i, p) = #[trigger] self.ready@[k];
                &&& i < n
                &&& s[i as int] == Stage::Fetched
                &&& self.payloads@.contains_key(i as int)
                &&& self.payloads@[i as int] == p
            }
        &&& forall|j: int, k: int|
            0 <= j < k < self.ready@.len() ==> (#[trigger] self.ready@[j]).0 != (
            #[trigger] self.ready@[k]).0
        &&& self.failure matches Some((i, _)) ==> i < n
        &&& self.log@.len() == self.extracted
        &&& forall|j: int|
            0 <= j < self.log@.len() ==> 0 <= (#[trigger] self.log@[j]).0 < n && s[self.log@[j].0]
                == Stage::Extracted
        &&& forall|j: int, k: int|
            0 <= j < k < self.log@.len() ==> (#[trigger] self.log@[j]).0 != (
            #[trigger] self.log@[k]).0
        &&& forall|i: int|
            0 <= i < n && #[trigger] s[i] == Stage::Extracted ==> exists|j: int|
                0 <= j < self.log@.len() && (#[trigger] self.log@[j]).0 == i
        &&& views(self.values@) == concat(self.log@)
    }

    /// A pipeline over `repos` in which nothing has started yet.
    pub fn new(repos: Vec<String>) -> (p: Pipeline)
        ensures
            p.wf(),
            p@.repos == views(repos@),
            p@.stages == Seq::new(repos@.len(), |i: int| Stage::Pending),
            p@.payloads == Map::<int, Json>::empty(),
            p@.log.len() == 0,
            p@.values.len() == 0,
            p@.failure is None,
    {
        let mut stages: Vec<Stage> = Vec::new();
        let mut i: usize = 0;
        while i < repos.len()
            invariant
                i <= repos@.len(),
                stages@ == Seq::new(i as nat, |j: int| Stage::Pending),
            decreases repos@.len() - i,
        {
            stages.push(Stage::Pending);
            assert(stages@ =~= Seq::new((i + 1) as nat, |j: int| Stage::Pending));
            i = i + 1;
        }
        proof {
            lemma_count_zero(stages@, Stage::Fetching);
            lemma_count_zero(stages@, Stage::Fetched);
            lemma_count_zero(stages@, Stage::Extracting);
            lemma_count_zero(stages@, Stage::Extracted);
        }
        let p = Pipeline {
            repos,
            stages,
            next: 0,
            ready: Vec::new(),
            fetching: 0,
            extracting: 0,
            extracted: 0,
            values: Vec::new(),
            failure: None,
            payloads: Ghost(Map::empty()),
            log: Ghost(Seq::empty()),
        };
        assert(views(p.values@) =~= concat(p.log@));
        p
    }

    /// Starts what the free slots allow.
    fn fill(&mut self) -> (cmds: Vec<Command>)
        requires
            old(self).wf(),
        ensures
            final(self).wf(),
            old(self)@.filled(final(self)@, cmds@),
    {
        let mut cmds: Vec<Command> = Vec::new();
        if self.failure.is_some() {
            return cmds;
        }
        let ghost start = self@;
        assert(start.started(self@, cmds@));
        while self.fetching < FETCH_LIMIT && self.next < self.repos.len()
            invariant
                self.wf(),
                start.started(self@, cmds@),
                forall|k: int| 0 <= k < cmds@.len() ==> (#[trigger] cmds@[k]) is Fetch,
                forall|k: int|
                    0 <= k < cmds@.len() ==> command_index(#[trigger] cmds@[k]) < self.next,
                self.extracting == old(self).extracting,
                self.ready@ == old(self).ready@,
            decreases self.repos@.len() - self.next,
        {
            let i = self.next;
            proof {
                lemma_counts_after_set(self.stages@, i as int, Stage::Fetching);
            }
            self.stages.set(i, Stage::Fetching);
            self.fetching = self.fetching + 1;
            self.next = self.next + 1;
            cmds.push(Command::Fetch { index: i });
        }
        let ghost mid = self@;
        while self.extracting < EXTRACT_LIMIT && self.ready.len() > 0
            invariant
                self.wf(),
                start.started(self@, cmds@),
                self.fetching == count(mid.stages, Stage::Fetching),
                self.fetching == FETCH_LIMIT || self.next == self.repos@.len(),
                forall|k: int|
                    0 <= k < cmds@.len() ==> match #[trigger] cmds@[k] {
                        Command::Fetch { index } => self@.stages[index as int] == Stage::Fetching,
                        Command::Extract { index, .. } => self@.stages[index as int]
                            == Stage::Extracting,
                    },
            decreases self.ready@.len(),
        {
            let (i, payload) = self.ready.remove(0);
            proof {
                lemma_counts_after_set(self.stages@, i as int, Stage::Extracting);
            }
            self.stages.set(i, Stage::Extracting);
            self.extracting = self.extracting + 1;
            cmds.push(Command::Extract { index: i, payload });
        }
        proof {
            lemma_count_zero(self.stages@, Stage::Fetched);
        }
        cmds
    }

    /// Starts the first fetches: as many as the fetch bound allows.
    pub fn start(&mut self) -> (cmds: Vec<Command>)
        requires
            old(self).wf(),
        ensures
            final(self).wf(),
            old(self)@.filled(final(self)@, cmds@),
    {
        self.fill()
    }

    /// Takes one completion and returns the work it frees up. The first
    /// failure is recorded and ends the pipeline; events that report on no
    /// task in flight, and all events after a failure, change nothing. Tasks
    /// still in flight when the pipeline fails are not waited for: whatever
    /// they report later is dropped.
    pub fn step(&mut self, event: Event) -> (cmds: Vec<Command>)
        requires
            old(self).wf(),
        ensures
            final(self).wf(),
            old(self)@.accepts(event) ==> old(self)@.absorb(event).filled(final(self)@, cmds@),
            !old(self)@.accepts(event) ==> final(self)@ == old(self)@ && cmds@.len() == 0,
    {
        if self.failure.is_some() {
            return Vec::new();
        }
        let ghost before = self@;
        match event {
            Event::Fetched { index, outcome } => {
                if index >= self.stages.len() || self.stages[index] != Stage::Fetching {
                    return Vec::new();
                }
                proof {
                    lemma_counts_after_set(self.stages@, index as int, Stage::Fetched);
                }
                proof {
                    lemma_count_zero(self.stages@, Stage::Fetching);
                }
                self.fetching = self.fetching - 1;
                match outcome {
                    Ok(payload) => {
                        self.stages.set(index, Stage::Fetched);
                        self.payloads = Ghost(self.payloads@.insert(index as int, payload));
                        self.ready.push((index, payload));
                    },
                    Err(err) => {
                        proof {
                            lemma_counts_after_set(self.stages@, index as int, Stage::Failed);
                        }
                        self.stages.set(index, Stage::Failed);
                        self.failure = Some((index, Cause::Fetch(err)));
                    },
                }
            },
            Event::Extracted { index, outcome } => {
                if index >= self.stages.len() || self.stages[index] != Stage::Extracting {
                    return Vec::new();
                }
                proof {
                    lemma_count_zero(self.stages@, Stage::Extracting);
                }
                self.extracting = self.extracting - 1;
                match outcome {
                    Ok(vals) => {
                        proof {
                            lemma_counts_after_set(self.stages@, index as int, Stage::Extracted);
                            lemma_count_le(self.stages@.update(index as int, Stage::Extracted), Stage::Extracted);
                        }
                        let ghost batch = views(vals@);
                        let mut vals = vals;
                        self.stages.set(index, Stage::Extracted);
                        self.extracted = self.extracted + 1;
                        self.values.append(&mut vals);
                        self.log = Ghost(self.log@.push((index as int, batch)));
                        proof {
                            assert(self.log@.drop_last() =~= before.log);
                            assert(views(self.values@) =~= before.values + batch);
                            let s = self.stages@;
                            assert forall|i: int|
                                0 <= i < s.len() && #[trigger] s[i] == Stage::Extracted implies exists|j: int|
                                    0 <= j < self.log@.len() && (#[trigger] self.log@[j]).0 == i by {
                                if i == index as int {
                                    assert(self.log@[before.log.len() as int].0 == i);
                                } else {
                                    assert(before.stages[i] == Stage::Extracted);
                                    let j = choose|j: int| 0 <= j < before.log.len() && (#[trigger] before.log[j]).0 == i;
                                    assert(self.log@[j] == before.log[j]);
                                }
                            }
                        }
                    },
                    Err(err) => {
                        proof {
                            lemma_counts_after_set(self.stages@, index as int, Stage::Failed);
                        }
                        self.stages.set(index, Stage::Failed);
                        self.failure = Some((index, Cause::Extract(err)));
                    },
                }
            },
        }
        self.fill()
    }

    /// The pipeline has failed or has folded every identifier.
    pub fn is_done(&self) -> (r: bool)
        requires
            self.wf(),
        ensures
            r == self@.is_done(),
    {
        self.failure.is_some() || self.extracted == self.repos.len()
    }

    /// The aggregate result: all values on success, or the first failure with
    /// the identifier it names. No partial result comes with an error.
    pub fn finish(self) -> (r: Result<Vec<String>, TopicError>)
        requires
            self.wf(),
            self@.is_done(),
        ensures
            match self@.failure {
                Some((i, c)) => r matches Err(e) && e.repo@ == self@.repos[i] && e.cause == c,
                None => r matches Ok(v) && views(v@) == self@.values,
            },
    {
        let mut repos = self.repos;
        match self.failure {
            Some((i, cause)) => Err(TopicError { repo: repos.remove(i), cause }),
            None => Ok(self.values),
        }
    }
}


/// The aggregate of a log holds, with multiplicity, exactly the values of its
/// batches.
pub proof fn lemma_concat_multiset(log: Seq<(int, Seq<Seq<char>>)>)
    ensures
        concat(log).to_multiset() == union_of(log),
    decreases log.len(),
{
    if log.len() == 0 {
        concat(log).to_multiset_ensures();
        lemma_multiset_empty_len(concat(log).to_multiset());
    } else {
        lemma_concat_multiset(log.drop_last());
        lemma_multiset_commutative(concat(log.drop_last()), log.last().1);
    }
}

/// In every state, at most `FETCH_LIMIT` fetches and at most `EXTRACT_LIMIT`
/// extractions are active.
pub proof fn lemma_bounded_concurrency(p: &Pipeline)
    requires
        p.wf(),
    ensures
        p@.fetches_active() <= FETCH_LIMIT,
        p@.extractions_active() <= EXTRACT_LIMIT,
{
}

/// When the pipeline finished without a failure, every identifier's batch was
/// folded exactly once, and the aggregate is the union of those batches: as a
/// sequence their concatenation in completion order, as a multiset their sum.
pub proof fn lemma_success_is_union(p: &Pipeline)
    requires
        p.wf(),
        p@.is_done(),
        p@.failure is None,
    ensures
        p@.log.len() == p@.repos.len(),
        forall|i: int| 0 <= i < p@.repos.len() ==> #[trigger] folded(p@.log, i),
        forall|j: int| 0 <= j < p@.log.len() ==> 0 <= (#[trigger] p@.log[j]).0 < p@.repos.len(),
        forall|j: int, k: int|
            0 <= j < k < p@.log.len() ==> (#[trigger] p@.log[j]).0 != (#[trigger] p@.log[k]).0,
        p@.values == concat(p@.log),
        p@.values.to_multiset() == union_of(p@.log),
{
    lemma_count_full(p.stages@, Stage::Extracted);
    lemma_concat_multiset(p@.log);
    assert forall|i: int| 0 <= i < p@.repos.len() implies #[trigger] folded(p@.log, i) by {
        assert(p.stages@[i] == Stage::Extracted);
    }
}

/// A failure decides the result: the first failing event names its
/// identifier and cause and finishes the pipeline, and once a failure is
/// recorded no later event is taken in.
pub proof fn lemma_first_failure_wins(v: PipelineView, e: Event)
    ensures
        v.failure is Some ==> !v.accepts(e),
        v.accepts(e) ==> match e {
            Event::Fetched { index, outcome: Err(err) } => v.absorb(e).failure == Some(
                (index as int, Cause::Fetch(err)),
            ) && v.absorb(e).is_done(),
            Event::Extracted { index, outcome: Err(err) } => v.absorb(e).failure == Some(
                (index as int, Cause::Extract(err)),
            ) && v.absorb(e).is_done(),
            _ => v.absorb(e).failure is None,
        },
{
}

/// With no identifiers the pipeline is finished from the start, with an empty
/// aggregate and no failure.
pub proof fn lemma_empty_source(p: &Pipeline)
    requires
        p.wf(),
        p@.repos.len() == 0,
    ensures
        p@.is_done(),
        p@.failure is None,
        p@.values.len() == 0,
{
    assert(p.log@ =~= Seq::<(int, Seq<Seq<char>>)>::empty());
}

} // verus!
