use vstd::prelude::*;

use crate::cleanup::chunks;
use crate::job::{names_of, output_of, ResultBody};

verus! {

/// Why the broker side of a run failed. Each of these ends the run.
#[derive(Clone, Copy, PartialEq, Eq, Debug, Structural)]
pub enum BrokerError {
    /// The broker could not be reached.
    Unavailable,
    /// The broker refused a job.
    Rejected,
    /// A fetch from the result inbox ran out of time.
    FetchTimeout,
    /// A payload could not be decoded.
    MalformedPayload,
}

/// The part of a run whose broker work failed.
#[derive(Clone, Copy, PartialEq, Eq, Debug, Structural)]
pub enum Stage {
    /// Putting jobs on the queue.
    Submission,
    /// Fetching results from the run's inbox.
    Collection,
}

/// What the coordinator waits on. Exactly one event is handled at a time.
pub enum Event {
    /// The command source is exhausted, after submitting this many commands.
    SourceExhausted(u64),
    /// The periodic tick.
    Tick,
    /// The broker took a job and gave it this id.
    Ack(String),
    /// The ack channel closed or failed for this round.
    AckClosed,
    /// A result came in from the run's inbox.
    Outcome(ResultBody),
    /// The broker work of a stage failed.
    Failure(Stage, BrokerError),
    /// The operator or the system asked the run to stop.
    Terminate,
}

/// What the loop around the coordinator does after an event.
pub enum Action {
    /// Nothing to do: wait for the next event.
    Wait,
    /// Show progress: this many results of that many commands.
    Progress { done: u64, total: u64 },
    /// Print a finished job's output.
    Print(String),
    /// Drop a result for a job this run does not wait for, reporting its id.
    Discard(String),
    /// Stop at once: the run was aborted.
    Abort,
    /// Stop at once: the broker work of a stage failed.
    Fail(Stage, BrokerError),
}

/// The mathematical form of an action.
pub enum ActionView {
    Wait,
    Progress { done: nat, total: nat },
    Print(Seq<char>),
    Discard(Seq<char>),
    Abort,
    Fail(Stage, BrokerError),
}

impl View for Action {
    type V = ActionView;

    open spec fn view(&self) -> ActionView {
        match self {
            Action::Wait => ActionView::Wait,
            Action::Progress { done, total } => ActionView::Progress {
                done: *done as nat,
                total: *total as nat,
            },
            Action::Print(s) => ActionView::Print(s@),
            Action::Discard(s) => ActionView::Discard(s@),
            Action::Abort => ActionView::Abort,
            Action::Fail(st, e) => ActionView::Fail(*st, *e),
        }
    }
}

/// Where a run stands.
#[derive(Clone, Copy, PartialEq, Eq, Debug, Structural)]
pub enum Phase {
    /// More commands may still come.
    Collecting,
    /// All commands are in; results are still awaited.
    Dispatching,
    /// Every result is in.
    Done,
    /// A termination event ended the run.
    Aborted,
    /// The broker side failed.
    Failed,
}

/// The state of a run, as sets and numbers.
pub struct RunView {
    /// The job ids acked and not yet answered.
    pub outstanding: Set<Seq<char>>,
    /// Every job id ever acked.
    pub acked: Set<Seq<char>>,
    pub submitted: nat,
    pub completed: nat,
    pub more_coming: bool,
    pub aborted: bool,
    pub failed: bool,
    pub fatal: Option<(Stage, BrokerError)>,
}

/// The state of a run when nothing has happened yet.
pub open spec fn initial_view() -> RunView {
    RunView {
        outstanding: Set::empty(),
        acked: Set::empty(),
        submitted: 0,
        completed: 0,
        more_coming: true,
        aborted: false,
        failed: false,
        fatal: None,
    }
}

/// The state after one event.
pub open spec fn next_view(s: RunView, e: Event) -> RunView {
    match e {
        Event::SourceExhausted(n) => RunView {
            more_coming: false,
            submitted: if n > s.submitted {
                n as nat
            } else {
                s.submitted
            },
            ..s
        },
        Event::Tick => s,
        Event::Ack(id) => RunView {
            outstanding: s.outstanding.insert(id@),
            acked: s.acked.insert(id@),
            ..s
        },
        Event::AckClosed => s,
        Event::Outcome(rb) => if s.outstanding.contains(rb.job_id@) {
            RunView {
                outstanding: s.outstanding.remove(rb.job_id@),
                completed: s.completed + 1,
                failed: s.failed || rb.result.status != 0,
                ..s
            }
        } else {
            s
        },
        Event::Failure(st, err) => RunView { fatal: Some((st, err)), failed: true, ..s },
        Event::Terminate => RunView { aborted: true, failed: true, ..s },
    }
}

/// What the loop does after one event.
pub open spec fn action_view(s: RunView, e: Event) -> ActionView {
    match e {
        Event::Tick => ActionView::Progress { done: s.completed, total: s.submitted },
        Event::Outcome(rb) => if s.outstanding.contains(rb.job_id@) {
            ActionView::Print(output_of(rb.result))
        } else {
            ActionView::Discard(rb.job_id@)
        },
        Event::Failure(st, err) => ActionView::Fail(st, err),
        Event::Terminate => ActionView::Abort,
        _ => ActionView::Wait,
    }
}

/// Where a run in state `s` stands. Without an abort or a failure, the run is
/// done when the source is exhausted, no acked job is still waiting, and as
/// many results have come in as commands were submitted.
pub open spec fn phase_view(s: RunView) -> Phase {
    if s.aborted {
        Phase::Aborted
    } else if s.fatal.is_some() {
        Phase::Failed
    } else if s.more_coming {
        Phase::Collecting
    } else if s.outstanding.is_empty() && s.completed >= s.submitted {
        Phase::Done
    } else {
        Phase::Dispatching
    }
}

/// The exit code of a run in state `s`: zero unless it failed.
pub open spec fn exit_view(s: RunView) -> i32 {
    if s.failed {
        1
    } else {
        0
    }
}

/// The coordinator's state, owned by the one loop that handles events.
pub struct RunState {
    /// The job ids acked and not yet answered, each once.
    pub outstanding: Vec<String>,
    pub total_submitted: u64,
    pub total_completed: u64,
    pub more_coming: bool,
    pub aborted: bool,
    pub failed: bool,
    pub fatal: Option<(Stage, BrokerError)>,
    pub acked: Ghost<Set<Seq<char>>>,
}

/// The index of `id` in `ids`, if it is there.
pub(crate) fn position_of(ids: &Vec<String>, id: &String) -> (r: Option<usize>)
    ensures
        r.is_none() ==> !names_of(ids@).contains(id@),
        r.is_some() ==> r.unwrap() < ids@.len() && ids@[r.unwrap() as int]@ == id@,
{
    let mut i: usize = 0;
    while i < ids.len()
        invariant
            i <= ids@.len(),
            forall|j: int| 0 <= j < i ==> ids@[j]@ != id@,
        decreases ids@.len() - i,
    {
        if ids[i] == *id {
            return Some(i);
        }
        i = i + 1;
    }
    proof {
        if names_of(ids@).contains(id@) {
            let j = choose|j: int| 0 <= j < names_of(ids@).len() && names_of(ids@)[j] == id@;
            assert(ids@[j]@ == id@);
        }
    }
    None
}

proof fn lemma_remove_distinct(s: Seq<Seq<char>>, i: int)
    requires
        s.no_duplicates(),
        0 <= i < s.len(),
    ensures
        s.remove(i).no_duplicates(),
        s.remove(i).to_set() == s.to_set().remove(s[i]),
{
    let r = s.remove(i);
    assert forall|a: int, b: int| 0 <= a < b < r.len() implies r[a] != r[b] by {
        let a2 = if a < i { a } else { a + 1 };
        let b2 = if b < i { b } else { b + 1 };
        assert(r[a] == s[a2] && r[b] == s[b2]);
    }
    assert forall|x: Seq<char>| r.to_set().contains(x) <==> s.to_set().remove(s[i]).contains(x) by {
        if r.contains(x) {
            let k = choose|k: int| 0 <= k < r.len() && r[k] == x;
            let k2 = if k < i { k } else { k + 1 };
            assert(s[k2] == x);
            assert(k2 != i);
        }
        if s.contains(x) && x != s[i] {
            let k = choose|k: int| 0 <= k < s.len() && s[k] == x;
            if k < i {
                assert(r[k] == x);
            } else {
                assert(k != i);
                assert(r[k - 1] == x);
            }
        }
    }
    assert(r.to_set() =~= s.to_set().remove(s[i]));
}

impl View for RunState {
    type V = RunView;

    open spec fn view(&self) -> RunView {
        RunView {
            outstanding: names_of(self.outstanding@).to_set(),
            acked: self.acked@,
            submitted: self.total_submitted as nat,
            completed: self.total_completed as nat,
            more_coming: self.more_coming,
            aborted: self.aborted,
            failed: self.failed,
            fatal: self.fatal,
        }
    }
}

impl RunState {
    /// The state's own rules: each outstanding id once, every outstanding id
    /// acked, and an aborted or failed run marked failed.
    pub open spec fn wf(&self) -> bool {
        &&& names_of(self.outstanding@).no_duplicates()
        &&& self@.outstanding.subset_of(self@.acked)
        &&& self.aborted ==> self.failed
        &&& self.fatal.is_some() ==> self.failed
    }

    /// A run where nothing has happened yet.
    pub fn new() -> (r: RunState)
        ensures
            r.wf(),
            r@ == initial_view(),
    {
        let r = RunState {
            outstanding: Vec::new(),
            total_submitted: 0,
            total_completed: 0,
            more_coming: true,
            aborted: false,
            failed: false,
            fatal: None,
            acked: Ghost(Set::empty()),
        };
        assert(r@.outstanding =~= Set::empty());
        r
    }

    /// Handles one event and says what the loop does next.
    pub fn step(&mut self, e: Event) -> (r: Action)
        requires
            old(self).wf(),
            old(self).total_completed < u64::MAX,
        ensures
            final(self).wf(),
            final(self)@ == next_view(old(self)@, e),
            r@ == action_view(old(self)@, e),
    {
        let ghost s0 = self@;
        match e {
            Event::SourceExhausted(n) => {
                self.more_coming = false;
                if n > self.total_submitted {
                    self.total_submitted = n;
                }
                Action::Wait
            },
            Event::Tick => Action::Progress { done: self.total_completed, total: self.total_submitted },
            Event::Ack(id) => {
                let ghost k = id@;
                self.acked = Ghost(self.acked@.insert(k));
                match position_of(&self.outstanding, &id) {
                    Some(j) => {
                        assert(names_of(self.outstanding@)[j as int] == k);
                        assert(names_of(self.outstanding@).contains(k));
                        assert(self@.outstanding =~= s0.outstanding.insert(k));
                    },
                    None => {
                        let ghost before = self.outstanding@;
                        self.outstanding.push(id);
                        proof {
                            assert(names_of(self.outstanding@) =~= names_of(before).push(k));
                            names_of(before).lemma_push_to_set_commute(k);
                        }
                    },
                }
                Action::Wait
            },
            Event::AckClosed => Action::Wait,
            Event::Outcome(rb) => {
                match position_of(&self.outstanding, &rb.job_id) {
                    Some(i) => {
                        let ghost before = names_of(self.outstanding@);
                        self.outstanding.remove(i);
                        proof {
                            assert(names_of(self.outstanding@) =~= before.remove(i as int));
                            lemma_remove_distinct(before, i as int);
                            assert(before.contains(rb.job_id@)) by {
                                assert(before[i as int] == rb.job_id@);
                            }
                        }
                        self.total_completed = self.total_completed + 1;
                        if rb.result.status != 0 {
                            self.failed = true;
                        }
                        Action::Print(rb.result.output_text())
                    },
                    None => Action::Discard(rb.job_id),
                }
            },
            Event::Failure(st, err) => {
                self.fatal = Some((st, err));
                self.failed = true;
                Action::Fail(st, err)
            },
            Event::Terminate => {
                self.aborted = true;
                self.failed = true;
                Action::Abort
            },
        }
    }

    /// Where the run stands.
    pub fn phase(&self) -> (r: Phase)
        ensures
            r == phase_view(self@),
    {
        if self.aborted {
            Phase::Aborted
        } else if self.fatal.is_some() {
            Phase::Failed
        } else if self.more_coming {
            Phase::Collecting
        } else if self.outstanding.len() == 0 && self.total_completed >= self.total_submitted {
            proof {
                assert(self@.outstanding =~= Set::empty());
            }
            Phase::Done
        } else {
            proof {
                if self.outstanding.len() > 0 {
                    assert(names_of(self.outstanding@)[0] == self.outstanding@[0]@);
                    assert(self@.outstanding.contains(self.outstanding@[0]@));
                }
            }
            Phase::Dispatching
        }
    }

    /// Whether the loop is over: the run is done, aborted or failed.
    pub fn is_finished(&self) -> (r: bool)
        ensures
            r == (phase_view(self@) == Phase::Done || phase_view(self@) == Phase::Aborted
                || phase_view(self@) == Phase::Failed),
    {
        let p = self.phase();
        match p {
            Phase::Done | Phase::Aborted | Phase::Failed => true,
            _ => false,
        }
    }

    /// The process exit code for the run: zero only if nothing failed.
    pub fn exit_code(&self) -> (r: i32)
        ensures
            r == exit_view(self@),
    {
        if self.failed {
            1
        } else {
            0
        }
    }
}

/// The state after the events `es`, handled in order from `s`.
pub open spec fn run_view(s: RunView, es: Seq<Event>) -> RunView
    decreases es.len(),
{
    if es.len() == 0 {
        s
    } else {
        next_view(run_view(s, es.drop_last()), es.last())
    }
}

/// How many outputs are printed while the events `es` are handled from `s`.
pub open spec fn printed(s: RunView, es: Seq<Event>) -> nat
    decreases es.len(),
{
    if es.len() == 0 {
        0
    } else {
        printed(s, es.drop_last()) + if action_view(run_view(s, es.drop_last()), es.last()) is Print {
            1nat
        } else {
            0nat
        }
    }
}

/// The ids acked in `es`, in order.
pub open spec fn ack_ids(es: Seq<Event>) -> Seq<Seq<char>>
    decreases es.len(),
{
    if es.len() == 0 {
        Seq::empty()
    } else {
        match es.last() {
            Event::Ack(id) => ack_ids(es.drop_last()).push(id@),
            _ => ack_ids(es.drop_last()),
        }
    }
}

/// The job ids of the results that arrive in `es`, in order.
pub open spec fn answered(es: Seq<Event>) -> Seq<Seq<char>>
    decreases es.len(),
{
    if es.len() == 0 {
        Seq::empty()
    } else {
        match es.last() {
            Event::Outcome(rb) => answered(es.drop_last()).push(rb.job_id@),
            _ => answered(es.drop_last()),
        }
    }
}

/// Whether the source reports its end somewhere in `es`.
pub open spec fn exhausted_in(es: Seq<Event>) -> bool {
    exists|j: int| 0 <= j < es.len() && es[j] is SourceExhausted
}

/// Whether the `k`-th event of `es` belongs to a clean run of `n` commands:
/// no failure and no abort; each id acked once; each result answers an id
/// acked before it, once, with status zero; the source reports `n` commands.
pub open spec fn clean_event(es: Seq<Event>, k: int, n: u64) -> bool {
    match es[k] {
        Event::Ack(id) => !ack_ids(es.take(k)).contains(id@),
        Event::Outcome(rb) => ack_ids(es.take(k)).contains(rb.job_id@) && !answered(
            es.take(k),
        ).contains(rb.job_id@) && rb.result.status == 0,
        Event::SourceExhausted(m) => m == n,
        Event::Failure(_, _) => false,
        Event::Terminate => false,
        _ => true,
    }
}

proof fn lemma_run_append(s: RunView, a: Seq<Event>, b: Seq<Event>)
    ensures
        run_view(s, a + b) == run_view(run_view(s, a), b),
        printed(s, a + b) == printed(s, a) + printed(run_view(s, a), b),
    decreases b.len(),
{
    if b.len() == 0 {
        assert(a + b =~= a);
    } else {
        assert((a + b).drop_last() =~= a + b.drop_last());
        assert((a + b).last() == b.last());
        lemma_run_append(s, a, b.drop_last());
    }
}

proof fn lemma_clean_prefix(es: Seq<Event>, n: u64, k: int)
    requires
        0 <= k <= es.len(),
        forall|j: int| 0 <= j < es.len() ==> clean_event(es, j, n),
    ensures
        ({
            let p = es.take(k);
            let s = run_view(initial_view(), p);
            &&& s.outstanding == ack_ids(p).to_set() - answered(p).to_set()
            &&& s.completed == answered(p).len()
            &&& s.more_coming == !exhausted_in(p)
            &&& s.submitted == if exhausted_in(p) {
                n as nat
            } else {
                0
            }
            &&& !s.failed && !s.aborted && s.fatal.is_none()
            &&& printed(initial_view(), p) == answered(p).len()
            &&& forall|x: Seq<char>| answered(p).contains(x) ==> ack_ids(p).contains(x)
            &&& ack_ids(p).no_duplicates()
            &&& answered(p).no_duplicates()
        }),
    decreases k,
{
    let p = es.take(k);
    if k == 0 {
        assert(p =~= Seq::<Event>::empty());
        assert(ack_ids(p).to_set() - answered(p).to_set() =~= Set::empty());
    } else {
        lemma_clean_prefix(es, n, k - 1);
        let q = es.take(k - 1);
        let e = es[k - 1];
        assert(p.drop_last() =~= q);
        assert(p.last() == e);
        assert(clean_event(es, k - 1, n));
        let s = run_view(initial_view(), q);
        assert(exhausted_in(p) == (exhausted_in(q) || e is SourceExhausted)) by {
            if exhausted_in(q) {
                let j = choose|j: int| 0 <= j < q.len() && q[j] is SourceExhausted;
                assert(p[j] == q[j]);
            }
            if e is SourceExhausted {
                assert(p[k - 1] == e);
            }
            if exhausted_in(p) {
                let j = choose|j: int| 0 <= j < p.len() && p[j] is SourceExhausted;
                if j < k - 1 {
                    assert(q[j] == p[j]);
                }
            }
        }
        match e {
            Event::Ack(id) => {
                let x = id@;
                ack_ids(q).lemma_push_to_set_commute(x);
                assert(!answered(q).contains(x));
                assert(ack_ids(p).to_set() - answered(p).to_set() =~= (ack_ids(q).to_set()
                    - answered(q).to_set()).insert(x));
                assert forall|y: Seq<char>| answered(p).contains(y) implies ack_ids(p).contains(
                    y,
                ) by {
                    assert(ack_ids(q).contains(y));
                    let i = choose|i: int| 0 <= i < ack_ids(q).len() && ack_ids(q)[i] == y;
                    assert(ack_ids(p)[i] == y);
                }
            },
            Event::Outcome(rb) => {
                let x = rb.job_id@;
                answered(q).lemma_push_to_set_commute(x);
                assert(s.outstanding.contains(x));
                assert(ack_ids(p).to_set() - answered(p).to_set() =~= (ack_ids(q).to_set()
                    - answered(q).to_set()).remove(x));
                assert forall|y: Seq<char>| answered(p).contains(y) implies ack_ids(p).contains(
                    y,
                ) by {
                    if y != x {
                        let i = choose|i: int| 0 <= i < answered(p).len() && answered(p)[i] == y;
                        assert(answered(q)[i] == y);
                    }
                }
            },
            _ => {},
        }
    }
}

/// A run of `n` commands that all succeed, without a failure or an abort,
/// prints one output per command, ends done, and exits zero, whatever the
/// order in which acks, results and ticks arrive: each id is acked once, each
/// result answers an id acked before it, once, every acked id is answered,
/// and the source reports its `n` commands.
pub proof fn lemma_clean_run(es: Seq<Event>, n: u64)
    requires
        forall|j: int| 0 <= j < es.len() ==> clean_event(es, j, n),
        exhausted_in(es),
        forall|x: Seq<char>| ack_ids(es).contains(x) ==> answered(es).contains(x),
        n == ack_ids(es).len(),
    ensures
        printed(initial_view(), es) == n,
        phase_view(run_view(initial_view(), es)) == Phase::Done,
        exit_view(run_view(initial_view(), es)) == 0,
{
    lemma_clean_prefix(es, n, es.len() as int);
    assert(es.take(es.len() as int) =~= es);
    let s = run_view(initial_view(), es);
    assert(ack_ids(es).to_set() =~= answered(es).to_set());
    ack_ids(es).unique_seq_to_set();
    answered(es).unique_seq_to_set();
    assert(s.outstanding =~= Set::empty());
}

proof fn lemma_failed_sticks(s: RunView, es: Seq<Event>)
    requires
        s.failed,
    ensures
        run_view(s, es).failed,
    decreases es.len(),
{
    if es.len() > 0 {
        lemma_failed_sticks(s, es.drop_last());
    }
}

/// Once a result of the run comes back with a nonzero status, the run exits
/// nonzero, whatever happens after it.
pub proof fn lemma_nonzero_status_fails(s: RunView, es: Seq<Event>, i: int)
    requires
        0 <= i < es.len(),
        es[i] is Outcome,
        run_view(s, es.take(i)).outstanding.contains(es[i]->Outcome_0.job_id@),
        es[i]->Outcome_0.result.status != 0,
    ensures
        exit_view(run_view(s, es)) != 0,
{
    let head = es.take(i + 1);
    let tail = es.skip(i + 1);
    assert(head.drop_last() =~= es.take(i));
    assert(head + tail =~= es);
    lemma_run_append(s, head, tail);
    lemma_failed_sticks(run_view(s, head), tail);
}

/// A result for a job id that was never acked changes nothing, the count of
/// completed jobs included, and is dropped.
pub proof fn lemma_unacked_result_discarded(s: RunView, rb: ResultBody)
    requires
        s.outstanding.subset_of(s.acked),
        !s.acked.contains(rb.job_id@),
    ensures
        next_view(s, Event::Outcome(rb)) == s,
        action_view(s, Event::Outcome(rb)) == ActionView::Discard(rb.job_id@),
{
}

proof fn lemma_no_ack_nothing_outstanding(es: Seq<Event>)
    requires
        forall|i: int| 0 <= i < es.len() ==> !(es[i] is Ack),
    ensures
        run_view(initial_view(), es).outstanding.is_empty(),
    decreases es.len(),
{
    if es.len() > 0 {
        assert(forall|i: int| 0 <= i < es.len() - 1 ==> es.drop_last()[i] == es[i]);
        lemma_no_ack_nothing_outstanding(es.drop_last());
        let s = run_view(initial_view(), es.drop_last());
        assert(!(es[es.len() - 1] is Ack));
        assert(s.outstanding =~= Set::empty());
        if let Event::Outcome(rb) = es.last() {
            assert(s.outstanding.remove(rb.job_id@) =~= Set::empty());
        }
    }
}

/// A run aborted before any ack has nothing outstanding, so cleaning up after
/// it deletes nothing, and it exits nonzero, whatever other events came first.
pub proof fn lemma_abort_before_ack(es: Seq<Event>, st: RunState, size: nat)
    requires
        forall|i: int| 0 <= i < es.len() ==> !(es[i] is Ack),
        st@ == run_view(initial_view(), es.push(Event::Terminate)),
        size > 0,
    ensures
        st@.outstanding.is_empty(),
        phase_view(st@) == Phase::Aborted,
        exit_view(st@) != 0,
        chunks(names_of(st.outstanding@), size).len() == 0,
{
    lemma_no_ack_nothing_outstanding(es);
    assert(es.push(Event::Terminate).drop_last() =~= es);
    if st.outstanding@.len() > 0 {
        assert(names_of(st.outstanding@)[0] == st.outstanding@[0]@);
        assert(st@.outstanding.contains(st.outstanding@[0]@));
    }
    assert(names_of(st.outstanding@).len() == 0);
}

} // verus!
