//! How far and how fast lookups go: passes that end, and the pauses between them.

use crate::addr::SocketAddr;
use crate::channel::Channel;
use crate::error::Error;
use crate::lookup::Candidate;
use crate::state::at_least_one;
use crate::time::{max_int, min_int, Duration, MAX_DURATION_NANOS};
use vstd::prelude::*;

verus! {

/// One pass of a lookup for peers: how many requests are in flight and how
/// many may still be sent.
#[derive(Clone, Copy, Debug, PartialEq, Eq, Structural)]
pub struct LookupPass {
    pub inflight: usize,
    pub budget: usize,
    pub max_inflight: usize,
}

/// What a pass does next.
#[derive(Clone, Copy, Debug, PartialEq, Eq)]
pub enum PassStep {
    /// Ask this node.
    Start(Candidate),
    /// Wait until one of the requests in flight is over.
    AwaitCompletion,
    /// The pass is over.
    Finished,
}

impl LookupPass {
    /// A pass that has not sent anything yet.
    pub open spec fn fresh(max_inflight: usize, max_requests: usize) -> LookupPass {
        LookupPass {
            inflight: 0,
            budget: at_least_one(max_requests),
            max_inflight: at_least_one(max_inflight),
        }
    }

    /// What the pass does next while `queued` candidates wait. As long as fewer
    /// requests than allowed are in flight and the budget lasts, the oldest candidate is
    /// asked. The pass is over when nothing is in flight and nothing is queued or the
    /// budget is used up.
    pub open spec fn next(self, queued: Seq<Candidate>) -> PassStep {
        if self.inflight >= self.max_inflight {
            PassStep::AwaitCompletion
        } else if self.budget > 0 && queued.len() > 0 {
            PassStep::Start(queued[0])
        } else if self.inflight > 0 {
            PassStep::AwaitCompletion
        } else {
            PassStep::Finished
        }
    }

    /// The pass after a request was sent.
    pub open spec fn started(self) -> LookupPass {
        LookupPass {
            inflight: (self.inflight + 1) as usize,
            budget: (self.budget - 1) as usize,
            ..self
        }
    }

    /// The pass after a request was over.
    pub open spec fn completed(self) -> LookupPass {
        LookupPass { inflight: (self.inflight - 1) as usize, ..self }
    }

    /// A pass with at most `max_inflight` requests in flight and at most
    /// `max_requests` in all, at least one each.
    pub fn new(max_inflight: usize, max_requests: usize) -> (pass: LookupPass)
        ensures
            pass == LookupPass::fresh(max_inflight, max_requests),
    {
        LookupPass {
            inflight: 0,
            budget: if max_requests == 0 {
                1
            } else {
                max_requests
            },
            max_inflight: if max_inflight == 0 {
                1
            } else {
                max_inflight
            },
        }
    }

    /// Decides what the pass does next, and takes the candidate out that is asked.
    pub fn step(&mut self, nodes: &mut Channel<Candidate>) -> (step: PassStep)
        ensures
            step == old(self).next(old(nodes).queued()),
            *final(self) == (if step is Start {
                old(self).started()
            } else {
                *old(self)
            }),
            final(nodes).queued() == (if step is Start {
                old(nodes).queued().skip(1)
            } else {
                old(nodes).queued()
            }),
            final(nodes).alive() == old(nodes).alive(),
    {
        if self.inflight >= self.max_inflight {
            return PassStep::AwaitCompletion;
        }
        if self.budget > 0 {
            if let Some(candidate) = nodes.receive() {
                self.inflight = self.inflight + 1;
                self.budget = self.budget - 1;
                return PassStep::Start(candidate);
            }
        }
        if self.inflight > 0 {
            PassStep::AwaitCompletion
        } else {
            PassStep::Finished
        }
    }

    /// Notes that one of the requests in flight is over.
    pub fn on_completed(&mut self)
        requires
            old(self).inflight > 0,
        ensures
            *final(self) == old(self).completed(),
    {
        self.inflight = self.inflight - 1;
    }
}

/// A pass and the candidates that wait.
#[verifier::ext_equal]
pub ghost struct PassMoment {
    pub pass: LookupPass,
    pub queued: Seq<Candidate>,
}

/// What happens in the course of a pass.
pub ghost enum PassEvent {
    /// The oldest candidate is asked.
    Started,
    /// A request is over, and has queued further candidates.
    Completed { added: Seq<Candidate> },
}

impl PassMoment {
    /// The event can happen now.
    pub open spec fn allows(self, event: PassEvent) -> bool {
        match event {
            PassEvent::Started => self.pass.next(self.queued) is Start,
            PassEvent::Completed { .. } => self.pass.inflight > 0,
        }
    }

    /// What follows the event.
    pub open spec fn after(self, event: PassEvent) -> PassMoment {
        match event {
            PassEvent::Started => PassMoment {
                pass: self.pass.started(),
                queued: self.queued.skip(1),
            },
            PassEvent::Completed { added } => PassMoment {
                pass: self.pass.completed(),
                queued: self.queued + added,
            },
        }
    }

    /// The events can happen one after the other.
    pub open spec fn allows_all(self, events: Seq<PassEvent>) -> bool
        decreases events.len(),
    {
        events.len() == 0 || (self.allows(events[0]) && self.after(events[0]).allows_all(
            events.skip(1),
        ))
    }

    /// What follows the events.
    pub open spec fn after_all(self, events: Seq<PassEvent>) -> PassMoment
        decreases events.len(),
    {
        if events.len() == 0 {
            self
        } else {
            self.after(events[0]).after_all(events.skip(1))
        }
    }

    /// The candidates that are asked in the course of the events, in this order.
    pub open spec fn asked(self, events: Seq<PassEvent>) -> Seq<Candidate>
        decreases events.len(),
    {
        if events.len() == 0 {
            Seq::empty()
        } else {
            let rest = self.after(events[0]).asked(events.skip(1));
            match events[0] {
                PassEvent::Started => seq![self.queued[0]] + rest,
                PassEvent::Completed { .. } => rest,
            }
        }
    }
}

/// The candidates that the events queue.
pub open spec fn all_added(events: Seq<PassEvent>) -> Seq<Candidate>
    decreases events.len(),
{
    if events.len() == 0 {
        Seq::empty()
    } else {
        let rest = all_added(events.skip(1));
        match events[0] {
            PassEvent::Started => rest,
            PassEvent::Completed { added } => added + rest,
        }
    }
}

/// Never are more requests in flight than allowed.
pub proof fn law_inflight_is_bounded(moment: PassMoment, events: Seq<PassEvent>)
    requires
        moment.pass.inflight <= moment.pass.max_inflight,
        moment.allows_all(events),
    ensures
        moment.after_all(events).pass.inflight <= moment.pass.max_inflight,
        moment.after_all(events).pass.max_inflight == moment.pass.max_inflight,
    decreases events.len(),
{
    if events.len() > 0 {
        law_inflight_is_bounded(moment.after(events[0]), events.skip(1));
    }
}

/// Every request is paid for out of the budget, so a pass sends no more than its budget.
pub proof fn law_requests_are_bounded(moment: PassMoment, events: Seq<PassEvent>)
    requires
        moment.allows_all(events),
    ensures
        moment.asked(events).len() + moment.after_all(events).pass.budget == moment.pass.budget,
        moment.asked(events).len() <= moment.pass.budget,
    decreases events.len(),
{
    if events.len() > 0 {
        law_requests_are_bounded(moment.after(events[0]), events.skip(1));
    }
}

/// A pass comes to an end: it has no more than two events for each request.
pub proof fn law_pass_terminates(moment: PassMoment, events: Seq<PassEvent>)
    requires
        moment.allows_all(events),
    ensures
        events.len() <= 2 * moment.pass.budget + moment.pass.inflight,
    decreases events.len(),
{
    if events.len() > 0 {
        law_pass_terminates(moment.after(events[0]), events.skip(1));
    }
}

/// A pass that waits has something to wait for.
pub proof fn law_pass_is_not_stuck(pass: LookupPass, queued: Seq<Candidate>)
    requires
        pass.max_inflight > 0,
        pass.next(queued) is AwaitCompletion,
    ensures
        pass.inflight > 0,
{
}

/// A pass ends only when nothing is in flight and either no candidate is left or
/// the budget is used up.
pub proof fn law_pass_ends_converged_or_spent(pass: LookupPass, queued: Seq<Candidate>)
    requires
        pass.max_inflight > 0,
    ensures
        pass.next(queued) is Finished <==> pass.inflight == 0 && (queued.len() == 0 || pass.budget
            == 0),
{
}

/// Candidates are asked in the order in which they were queued, and none is lost: those that
/// are not asked in this pass stay at the front of the queue for the next one.
pub proof fn law_candidates_keep_their_order(moment: PassMoment, events: Seq<PassEvent>)
    requires
        moment.allows_all(events),
    ensures
        moment.asked(events) + moment.after_all(events).queued == moment.queued + all_added(events),
    decreases events.len(),
{
    if events.len() == 0 {
        assert(moment.asked(events) + moment.queued =~= moment.queued + all_added(events));
    } else {
        let (next, rest) = (moment.after(events[0]), events.skip(1));
        law_candidates_keep_their_order(next, rest);
        let left = moment.after_all(events).queued;
        match events[0] {
            PassEvent::Started => {
                let first = seq![moment.queued[0]];
                assert(first + next.queued =~= moment.queued);
                assert(moment.asked(events) + left =~= first + (next.asked(rest) + left));
                assert(first + (next.queued + all_added(rest)) =~= moment.queued + all_added(rest));
            },
            PassEvent::Completed { added } => {
                assert((moment.queued + added) + all_added(rest) =~= moment.queued + (added
                    + all_added(rest)));
            },
        }
    }
}

/// A pass has at most `max_inflight` requests in flight and sends at most
/// `max_requests` (at least one each), and comes to an end.
pub proof fn law_pass_is_bounded(
    max_inflight: usize,
    max_requests: usize,
    queued: Seq<Candidate>,
    events: Seq<PassEvent>,
)
    requires
        (PassMoment { pass: LookupPass::fresh(max_inflight, max_requests), queued }).allows_all(
            events,
        ),
    ensures
        ({
            let begin = PassMoment { pass: LookupPass::fresh(max_inflight, max_requests), queued };
            &&& begin.after_all(events).pass.inflight <= at_least_one(max_inflight)
            &&& begin.asked(events).len() <= at_least_one(max_requests)
            &&& events.len() <= 2 * at_least_one(max_requests)
        }),
{
    let begin = PassMoment { pass: LookupPass::fresh(max_inflight, max_requests), queued };
    law_inflight_is_bounded(begin, events);
    law_requests_are_bounded(begin, events);
    law_pass_terminates(begin, events);
}

/// Candidates that an earlier pass left are asked before the nodes that a pass
/// begins with.
pub proof fn law_leftovers_are_asked_first(
    pass: LookupPass,
    left: Seq<Candidate>,
    roots: Seq<Candidate>,
    events: Seq<PassEvent>,
)
    requires
        (PassMoment { pass, queued: left + roots }).allows_all(events),
    ensures
        ({
            let asked = (PassMoment { pass, queued: left + roots }).asked(events);
            forall|i: int|
                0 <= i < asked.len() && i < left.len() ==> #[trigger] asked[i] == left[i]
        }),
{
    let begin = PassMoment { pass, queued: left + roots };
    law_candidates_keep_their_order(begin, events);
    let asked = begin.asked(events);
    let all = asked + begin.after_all(events).queued;
    assert forall|i: int| 0 <= i < asked.len() && i < left.len() implies #[trigger] asked[i]
        == left[i] by {
        assert(all[i] == asked[i]);
        assert(((left + roots) + all_added(events))[i] == left[i]);
    }
}

/// A lookup for nodes, which goes on as long as there is anybody left to ask.
#[derive(Clone, Copy, Debug, PartialEq, Eq, Structural)]
pub struct FindNodeRun {
    pub inflight: usize,
    pub successes: usize,
    pub errors: usize,
}

/// What a lookup for nodes does next.
#[derive(Debug, PartialEq, Eq)]
pub enum FindNodeStep {
    /// Ask this node.
    Start(Candidate),
    /// Wait until one of the requests in flight is over.
    AwaitCompletion,
    /// The lookup is over.
    Finished(Result<(), Error>),
}

/// An address as one that a lookup begins with.
pub open spec fn as_start(addr: SocketAddr) -> Candidate {
    Candidate { id: None, addr, depth: 0 }
}

impl FindNodeRun {
    /// How many requests the lookup has sent.
    pub open spec fn sent(self) -> int {
        self.inflight + self.successes + self.errors
    }

    /// What came of the lookup: it succeeded if any of its requests did.
    pub open spec fn outcome(self) -> Result<(), Error> {
        if self.successes == 0 {
            Err(Error::NoSuccessfulLookups { errors: self.errors })
        } else {
            Ok(())
        }
    }

    /// What the lookup does next while `queued` candidates wait.
    pub open spec fn next(self, queued: Seq<Candidate>) -> FindNodeStep {
        if queued.len() > 0 {
            FindNodeStep::Start(queued[0])
        } else if self.inflight > 0 {
            FindNodeStep::AwaitCompletion
        } else {
            FindNodeStep::Finished(self.outcome())
        }
    }

    /// The lookup after a request was sent.
    pub open spec fn started(self) -> FindNodeRun {
        FindNodeRun { inflight: (self.inflight + 1) as usize, ..self }
    }

    /// The lookup after a request was over.
    pub open spec fn completed(self, succeeded: bool) -> FindNodeRun {
        if succeeded {
            FindNodeRun {
                inflight: (self.inflight - 1) as usize,
                successes: (self.successes + 1) as usize,
                ..self
            }
        } else {
            FindNodeRun {
                inflight: (self.inflight - 1) as usize,
                errors: (self.errors + 1) as usize,
                ..self
            }
        }
    }

    /// Begins a lookup by asking all of the addresses.
    pub fn begin(addrs: &Vec<SocketAddr>) -> (r: (FindNodeRun, Vec<Candidate>))
        ensures
            r.0 == (FindNodeRun { inflight: addrs.len(), successes: 0, errors: 0 }),
            r.1@ == addrs@.map_values(|addr: SocketAddr| as_start(addr)),
    {
        let mut starts: Vec<Candidate> = Vec::new();
        let mut i: usize = 0;
        while i < addrs.len()
            invariant
                i <= addrs@.len(),
                starts@ =~= addrs@.take(i as int).map_values(|addr: SocketAddr| as_start(addr)),
            decreases addrs@.len() - i,
        {
            starts.push(Candidate { id: None, addr: addrs[i], depth: 0 });
            i += 1;
        }
        assert(addrs@.take(i as int) =~= addrs@);
        (FindNodeRun { inflight: addrs.len(), successes: 0, errors: 0 }, starts)
    }

    /// Decides what the lookup does next, and takes the candidate out that is asked.
    pub fn step(&mut self, nodes: &mut Channel<Candidate>) -> (step: FindNodeStep)
        requires
            old(nodes).queued().len() > 0 ==> old(self).sent() < usize::MAX,
        ensures
            step == old(self).next(old(nodes).queued()),
            *final(self) == (if step is Start {
                old(self).started()
            } else {
                *old(self)
            }),
            final(nodes).queued() == (if step is Start {
                old(nodes).queued().skip(1)
            } else {
                old(nodes).queued()
            }),
            final(nodes).alive() == old(nodes).alive(),
    {
        if let Some(candidate) = nodes.receive() {
            self.inflight = self.inflight + 1;
            return FindNodeStep::Start(candidate);
        }
        if self.inflight > 0 {
            FindNodeStep::AwaitCompletion
        } else if self.successes == 0 {
            FindNodeStep::Finished(Err(Error::NoSuccessfulLookups { errors: self.errors }))
        } else {
            FindNodeStep::Finished(Ok(()))
        }
    }

    /// Notes that one of the requests in flight is over.
    pub fn on_completed(&mut self, succeeded: bool)
        requires
            old(self).inflight > 0,
            old(self).sent() <= usize::MAX,
        ensures
            *final(self) == old(self).completed(succeeded),
            final(self).sent() == old(self).sent(),
    {
        self.inflight = self.inflight - 1;
        if succeeded {
            self.successes = self.successes + 1;
        } else {
            self.errors = self.errors + 1;
        }
    }
}

/// What happens in the course of a lookup for nodes.
pub ghost enum FindNodeEvent {
    Started,
    Completed { succeeded: bool },
}

/// The lookup after the events.
pub open spec fn find_node_after(run: FindNodeRun, events: Seq<FindNodeEvent>) -> FindNodeRun
    decreases events.len(),
{
    if events.len() == 0 {
        run
    } else {
        let next = match events[0] {
            FindNodeEvent::Started => run.started(),
            FindNodeEvent::Completed { succeeded } => run.completed(succeeded),
        };
        find_node_after(next, events.skip(1))
    }
}

/// The events can happen one after the other: what is over was in flight, and no more is
/// sent than can be counted.
pub open spec fn find_node_allows(run: FindNodeRun, events: Seq<FindNodeEvent>) -> bool
    decreases events.len(),
{
    events.len() == 0 || match events[0] {
        FindNodeEvent::Started => run.sent() < usize::MAX && find_node_allows(
            run.started(),
            events.skip(1),
        ),
        FindNodeEvent::Completed { succeeded } => run.inflight > 0 && run.sent() <= usize::MAX
            && find_node_allows(run.completed(succeeded), events.skip(1)),
    }
}

/// How many of the events are requests that succeeded, or failed.
pub open spec fn count_completed(events: Seq<FindNodeEvent>, succeeded: bool) -> nat
    decreases events.len(),
{
    if events.len() == 0 {
        0
    } else {
        let rest = count_completed(events.skip(1), succeeded);
        if events[0] == (FindNodeEvent::Completed { succeeded }) {
            rest + 1
        } else {
            rest
        }
    }
}

/// A lookup for nodes that began with `starts` requests succeeds exactly if one of its
/// requests did, and otherwise tells how many failed.
pub proof fn law_find_node_outcome(starts: usize, events: Seq<FindNodeEvent>)
    requires
        find_node_allows(FindNodeRun { inflight: starts, successes: 0, errors: 0 }, events),
    ensures
        ({
            let begin = FindNodeRun { inflight: starts, successes: 0, errors: 0 };
            let end = find_node_after(begin, events);
            &&& end.outcome() is Ok <==> count_completed(events, true) > 0
            &&& end.outcome() matches Err(e) ==> e == Error::NoSuccessfulLookups {
                errors: count_completed(events, false) as usize,
            } && count_completed(events, false) <= usize::MAX
        }),
{
    lemma_find_node_counts(FindNodeRun { inflight: starts, successes: 0, errors: 0 }, events);
}

proof fn lemma_find_node_counts(run: FindNodeRun, events: Seq<FindNodeEvent>)
    requires
        find_node_allows(run, events),
    ensures
        find_node_after(run, events).successes == run.successes + count_completed(events, true),
        find_node_after(run, events).errors == run.errors + count_completed(events, false),
    decreases events.len(),
{
    if events.len() > 0 {
        let next = match events[0] {
            FindNodeEvent::Started => run.started(),
            FindNodeEvent::Completed { succeeded } => run.completed(succeeded),
        };
        lemma_find_node_counts(next, events.skip(1));
    }
}

/// What a task that looks for peers over and over does next.
#[derive(Clone, Copy, Debug, PartialEq, Eq, Structural)]
pub enum TaskStep {
    /// Run a pass, which begins with so many nodes.
    RunPass { roots: usize },
    /// Sleep, and try again.
    Sleep(Duration),
}

/// What the task does after it queued the nodes to begin with. Without any (the
/// routing table is still empty) it tries again in a second; where they could not be
/// queued, it tries again after the interval.
pub fn after_root(interval: Duration, roots: &Result<usize, Error>) -> (step: TaskStep)
    ensures
        step == (match *roots {
            Ok(n) => if n == 0 {
                TaskStep::Sleep(Duration { nanos: 1_000_000_000 })
            } else {
                TaskStep::RunPass { roots: n }
            },
            Err(_) => TaskStep::Sleep(interval),
        }),
{
    match roots {
        Ok(n) => if *n == 0 {
            TaskStep::Sleep(Duration::from_secs(1))
        } else {
            TaskStep::RunPass { roots: *n }
        },
        Err(_) => TaskStep::Sleep(interval),
    }
}

/// How far the starts of two passes lie apart, in nanoseconds. With fewer than
/// eight nodes to begin with, passes come proportionally sooner, but not within a second.
pub open spec fn cadence_nanos(interval: Duration, roots: usize) -> int {
    if roots < 8 {
        max_int(
            min_int((interval.nanos as int / 8) * roots, MAX_DURATION_NANOS as int),
            1_000_000_000,
        )
    } else {
        interval.nanos as int
    }
}

/// How far the starts of two passes lie apart.
pub fn cadence(interval: Duration, roots: usize) -> (d: Duration)
    ensures
        d.nanos == cadence_nanos(interval, roots),
{
    if roots < 8 {
        interval.divided_by(8).saturating_mul(roots as u32).max(Duration::from_secs(1))
    } else {
        interval
    }
}

/// How long the task sleeps after a pass that took `elapsed`.
pub fn rest_after_pass(interval: Duration, roots: usize, elapsed: Duration) -> (d: Duration)
    ensures
        d.nanos == max_int(cadence_nanos(interval, roots) - elapsed.nanos, 0),
{
    cadence(interval, roots).saturating_sub(elapsed)
}

/// Passes start at least a second apart, and, where the interval is at least a
/// second, no further apart than the interval.
pub proof fn law_cadence_is_bounded(interval: Duration, roots: usize)
    requires
        interval.nanos >= 1_000_000_000,
    ensures
        1_000_000_000 <= cadence_nanos(interval, roots) <= interval.nanos,
{
    if roots < 8 {
        let (eighth, n) = (interval.nanos as int / 8, roots as int);
        assert(eighth * n <= eighth * 8) by (nonlinear_arith)
            requires
                eighth >= 0,
                0 <= n < 8,
        ;
    }
}

/// The more nodes there are to begin with, the further passes lie apart.
pub proof fn law_cadence_grows_with_roots(interval: Duration, fewer: usize, more: usize)
    requires
        interval.nanos >= 1_000_000_000,
        fewer <= more,
    ensures
        cadence_nanos(interval, fewer) <= cadence_nanos(interval, more),
{
    law_cadence_is_bounded(interval, fewer);
    if more < 8 {
        let (eighth, a, b) = (interval.nanos as int / 8, fewer as int, more as int);
        assert(eighth * a <= eighth * b) by (nonlinear_arith)
            requires
                eighth >= 0,
                a <= b,
        ;
    }
}

/// A new pass has nothing in flight, and may send as many requests and have as many in flight
/// as it is told, but at least one.
pub proof fn law_new_pass_has_its_full_budget(max_inflight: usize, max_requests: usize)
    ensures
        ({
            let pass = LookupPass::fresh(max_inflight, max_requests);
            &&& pass.inflight == 0
            &&& max_requests >= 1 ==> pass.budget == max_requests
            &&& max_requests == 0 ==> pass.budget == 1
            &&& max_inflight >= 1 ==> pass.max_inflight == max_inflight
            &&& max_inflight == 0 ==> pass.max_inflight == 1
        }),
{
}

/// A pass that ends while candidates are left has sent exactly as many requests as it was
/// allowed.
pub proof fn law_pass_uses_up_its_budget(
    max_inflight: usize,
    max_requests: usize,
    queued: Seq<Candidate>,
    events: Seq<PassEvent>,
)
    requires
        (PassMoment { pass: LookupPass::fresh(max_inflight, max_requests), queued }).allows_all(
            events,
        ),
        ({
            let end = (PassMoment {
                pass: LookupPass::fresh(max_inflight, max_requests),
                queued,
            }).after_all(events);
            &&& end.pass.next(end.queued) is Finished
            &&& end.queued.len() > 0
        }),
    ensures
        ({
            let begin = PassMoment { pass: LookupPass::fresh(max_inflight, max_requests), queued };
            &&& max_requests >= 1 ==> begin.asked(events).len() == max_requests
            &&& max_requests == 0 ==> begin.asked(events).len() == 1
        }),
{
    let begin = PassMoment { pass: LookupPass::fresh(max_inflight, max_requests), queued };
    law_requests_are_bounded(begin, events);
    law_inflight_is_bounded(begin, events);
}

/// The first candidates are asked at once, in order and without waiting, as many as may be in
/// flight and in the budget.
pub proof fn law_first_candidates_are_asked_at_once(
    max_inflight: usize,
    max_requests: usize,
    queued: Seq<Candidate>,
    n: nat,
)
    requires
        n <= queued.len(),
        n <= max_inflight,
        n <= max_requests,
    ensures
        ({
            let begin = PassMoment { pass: LookupPass::fresh(max_inflight, max_requests), queued };
            let starts = Seq::new(n, |i: int| PassEvent::Started);
            &&& begin.allows_all(starts)
            &&& begin.asked(starts) == queued.take(n as int)
            &&& begin.after_all(starts).pass.inflight == n
            &&& begin.after_all(starts).queued == queued.skip(n as int)
        }),
{
    lemma_starts_are_allowed(
        PassMoment { pass: LookupPass::fresh(max_inflight, max_requests), queued },
        n,
    );
}

proof fn lemma_starts_are_allowed(moment: PassMoment, n: nat)
    requires
        n <= moment.queued.len(),
        moment.pass.inflight + n <= moment.pass.max_inflight,
        n <= moment.pass.budget,
    ensures
        ({
            let starts = Seq::new(n, |i: int| PassEvent::Started);
            &&& moment.allows_all(starts)
            &&& moment.asked(starts) == moment.queued.take(n as int)
            &&& moment.after_all(starts).pass.inflight == moment.pass.inflight + n
            &&& moment.after_all(starts).queued == moment.queued.skip(n as int)
        }),
    decreases n,
{
    let starts = Seq::new(n, |i: int| PassEvent::Started);
    if n == 0 {
        assert(moment.asked(starts) =~= moment.queued.take(0));
        assert(moment.queued.skip(0) =~= moment.queued);
    } else {
        let fewer = Seq::new((n - 1) as nat, |i: int| PassEvent::Started);
        assert(starts.skip(1) =~= fewer);
        let next = moment.after(PassEvent::Started);
        lemma_starts_are_allowed(next, (n - 1) as nat);
        assert(seq![moment.queued[0]] + next.queued.take(n - 1) =~= moment.queued.take(n as int));
        assert(next.queued.skip(n - 1) =~= moment.queued.skip(n as int));
    }
}

/// A pass asks the oldest candidate exactly if there is one, fewer requests than allowed are in
/// flight and the budget lasts; it waits or ends only where it cannot.
pub proof fn law_pass_asks_whenever_it_may(pass: LookupPass, queued: Seq<Candidate>)
    requires
        pass.max_inflight > 0,
    ensures
        pass.next(queued) is Start <==> queued.len() > 0 && pass.inflight < pass.max_inflight
            && pass.budget > 0,
        pass.next(queued) matches PassStep::Start(candidate) ==> candidate == queued[0],
        pass.next(queued) is Finished ==> pass.inflight == 0,
        pass.next(queued) is AwaitCompletion ==> pass.inflight > 0,
{
}

/// A request that is sent costs one of the budget and is one more in flight; one that is over
/// is one less in flight.
pub proof fn law_pass_counts_its_requests(pass: LookupPass)
    ensures
        pass.inflight < usize::MAX && pass.budget > 0 ==> {
            &&& pass.started().inflight == pass.inflight + 1
            &&& pass.started().budget == pass.budget - 1
            &&& pass.started().max_inflight == pass.max_inflight
        },
        pass.inflight > 0 ==> {
            &&& pass.completed().inflight == pass.inflight - 1
            &&& pass.completed().budget == pass.budget
            &&& pass.completed().max_inflight == pass.max_inflight
        },
{
}

/// A lookup for nodes asks whoever is queued, waits only if nobody is, and ends only if
/// nothing is in flight either. It ends well exactly if a request succeeded.
pub proof fn law_find_node_goes_on_while_it_can(run: FindNodeRun, queued: Seq<Candidate>)
    ensures
        queued.len() > 0 ==> run.next(queued) == FindNodeStep::Start(queued[0]),
        queued.len() == 0 && run.inflight > 0 ==> run.next(queued) is AwaitCompletion,
        queued.len() == 0 && run.inflight == 0 && run.successes > 0 ==> run.next(queued)
            == FindNodeStep::Finished(Ok(())),
        queued.len() == 0 && run.inflight == 0 && run.successes == 0 ==> run.next(queued)
            == FindNodeStep::Finished(Err(Error::NoSuccessfulLookups { errors: run.errors })),
{
}

/// A lookup for nodes counts every request once: in flight, then as succeeded or as failed.
pub proof fn law_find_node_counts_its_requests(run: FindNodeRun)
    requires
        run.inflight + run.successes + run.errors < usize::MAX,
    ensures
        run.started() == (FindNodeRun {
            inflight: (run.inflight + 1) as usize,
            successes: run.successes,
            errors: run.errors,
        }),
        run.inflight > 0 ==> {
            &&& run.completed(true).inflight == run.inflight - 1
            &&& run.completed(true).successes == run.successes + 1
            &&& run.completed(true).errors == run.errors
            &&& run.completed(false).inflight == run.inflight - 1
            &&& run.completed(false).successes == run.successes
            &&& run.completed(false).errors == run.errors + 1
        },
        run.sent() == run.inflight + run.successes + run.errors,
{
}

/// An address that a lookup begins with is asked as it is, at no depth, without an id.
pub proof fn law_start_is_unnamed(addr: SocketAddr)
    ensures
        as_start(addr).id is None,
        as_start(addr).addr == addr,
        as_start(addr).depth == 0,
{
}

/// With eight nodes to begin with or more, passes lie the interval apart. With fewer, they lie as
/// many eighths of it apart as there are nodes, but a second at least.
pub proof fn law_cadence_is_proportional(interval: Duration, roots: usize, eighth: int)
    requires
        interval.nanos <= MAX_DURATION_NANOS,
        8 * eighth <= interval.nanos < 8 * eighth + 8,
    ensures
        roots >= 8 ==> cadence_nanos(interval, roots) == interval.nanos,
        roots < 8 && eighth * roots >= 1_000_000_000 ==> cadence_nanos(interval, roots) == eighth
            * roots,
        roots < 8 && eighth * roots < 1_000_000_000 ==> cadence_nanos(interval, roots)
            == 1_000_000_000,
{
    assert(interval.nanos as int / 8 == eighth);
    if roots < 8 {
        let n = roots as int;
        assert(eighth * n <= eighth * 8) by (nonlinear_arith)
            requires
                eighth >= 0,
                0 <= n < 8,
        ;
    }
}

} // verus!
