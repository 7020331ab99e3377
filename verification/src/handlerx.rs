//! The contexts that handlers receive and the ordered registry of handlers.
//!
//! A registry runs its handlers one after the other, in the order in which
//! they were registered, on the same input; it stops at the first handler
//! that fails and returns that failure.  Running a handler is asynchronous,
//! so the registry decides and its caller runs: [`HandlerRegistry::start`]
//! and [`HandlerRegistry::next`] say which handler runs next, or what the
//! whole run returns.
use vstd::prelude::*;

verus! {

/// The input of a handler when a record is created.
#[derive(Debug)]
pub struct CreateContext<T, R> {
    pub data: T,
    pub resources: R,
}

/// The input of a handler when records are read.
#[derive(Debug)]
pub struct ReadContext<R> {
    pub resources: R,
}

/// What a handler is asked to do.
#[derive(Debug)]
pub enum Context<T, R> {
    Create(CreateContext<T, R>),
    Read(ReadContext<R>),
    Update,
    Delete,
}

/// The handlers of one kind of record, in order of registration.
pub struct HandlerRegistry<H> {
    handlers: Vec<H>,
}

impl<H> View for HandlerRegistry<H> {
    type V = Seq<H>;

    closed spec fn view(&self) -> Seq<H> {
        self.handlers@
    }
}

/// What happens next while a registry runs its handlers.
#[derive(Debug)]
pub enum ExecStep {
    /// Run the handler at this position.
    Run(usize),
    /// The run is over, with this result.
    Done(Result<(), String>),
}

/// The first step of a run over `n` handlers.
pub open spec fn exec_start(n: nat) -> ExecStep {
    if n > 0 {
        ExecStep::Run(0)
    } else {
        ExecStep::Done(Ok(()))
    }
}

/// The step after handler `i` of `n` returned `outcome`.
pub open spec fn exec_next(n: nat, i: int, outcome: Result<(), String>) -> ExecStep {
    match outcome {
        Err(e) => ExecStep::Done(Err(e)),
        Ok(()) => if i + 1 < n {
            ExecStep::Run((i + 1) as usize)
        } else {
            ExecStep::Done(Ok(()))
        },
    }
}

impl<H> HandlerRegistry<H> {
    /// An empty registry.
    pub fn new() -> (r: Self)
        ensures
            r@ == Seq::<H>::empty(),
    {
        HandlerRegistry { handlers: Vec::new() }
    }

    /// Adds a handler after those registered before.
    pub fn register(&mut self, handler: H)
        ensures
            final(self)@ == old(self)@.push(handler),
    {
        self.handlers.push(handler);
    }

    /// The number of registered handlers.
    pub fn len(&self) -> (r: usize)
        ensures
            r == self@.len(),
    {
        self.handlers.len()
    }

    /// The handler registered at position `i`.
    pub fn handler(&self, i: usize) -> (r: &H)
        requires
            i < self@.len(),
        ensures
            *r == self@[i as int],
    {
        &self.handlers[i]
    }

    /// The first step of running the registered handlers.
    pub fn start(&self) -> (s: ExecStep)
        ensures
            s == exec_start(self@.len()),
    {
        if self.handlers.len() > 0 {
            ExecStep::Run(0)
        } else {
            ExecStep::Done(Ok(()))
        }
    }

    /// The step after the handler at position `i` returned `outcome`.
    pub fn next(&self, i: usize, outcome: Result<(), String>) -> (s: ExecStep)
        requires
            i < self@.len(),
        ensures
            s == exec_next(self@.len(), i as int, outcome),
    {
        match outcome {
            Err(e) => ExecStep::Done(Err(e)),
            Ok(()) => if self.handlers.len() - i > 1 {
                ExecStep::Run(i + 1)
            } else {
                ExecStep::Done(Ok(()))
            },
        }
    }
}

/// The positions of the handlers that run, in order, and the result of the
/// run, when the handler at each position `j` returns `outcomes[j]`; `fuel`
/// bounds the number of steps.
pub open spec fn drive(n: nat, outcomes: Seq<Result<(), String>>, step: ExecStep, fuel: nat) -> (
    Seq<int>,
    Result<(), String>,
)
    decreases fuel,
{
    match step {
        ExecStep::Done(r) => (Seq::empty(), r),
        ExecStep::Run(i) => if fuel == 0 {
            (Seq::empty(), Ok(()))
        } else {
            let rest = drive(n, outcomes, exec_next(n, i as int, outcomes[i as int]), (fuel - 1) as nat);
            (seq![i as int] + rest.0, rest.1)
        },
    }
}

/// The number of handlers that run: up to and including the first failure.
pub open spec fn ran_count(outcomes: Seq<Result<(), String>>) -> nat
    decreases outcomes.len(),
{
    if outcomes.len() == 0 {
        0
    } else if outcomes[0] is Err {
        1
    } else {
        1 + ran_count(outcomes.drop_first())
    }
}

/// The result of a run: the first failure, or success.
pub open spec fn exec_result(outcomes: Seq<Result<(), String>>) -> Result<(), String>
    decreases outcomes.len(),
{
    if outcomes.len() == 0 {
        Ok(())
    } else if outcomes[0] is Err {
        outcomes[0]
    } else {
        exec_result(outcomes.drop_first())
    }
}

proof fn lemma_drive_from(n: nat, outcomes: Seq<Result<(), String>>, i: int)
    requires
        outcomes.len() == n,
        0 <= i < n,
        n <= usize::MAX,
    ensures
        drive(n, outcomes, ExecStep::Run(i as usize), (n - i) as nat) == (
            Seq::new(ran_count(outcomes.skip(i)), |j: int| i + j),
            exec_result(outcomes.skip(i)),
        ),
    decreases n - i,
{
    let o = outcomes.skip(i);
    assert(o[0] == outcomes[i]);
    assert(o.drop_first() =~= outcomes.skip(i + 1));
    let next = exec_next(n, i, outcomes[i]);
    let rest = drive(n, outcomes, next, (n - i - 1) as nat);
    if outcomes[i] is Err {
        assert(seq![i] + rest.0 =~= Seq::new(ran_count(o), |j: int| i + j));
    } else if i + 1 < n {
        lemma_drive_from(n, outcomes, i + 1);
        assert(seq![i] + rest.0 =~= Seq::new(ran_count(o), |j: int| i + j));
    } else {
        assert(outcomes.skip(i + 1) =~= Seq::<Result<(), String>>::empty());
        assert(seq![i] + rest.0 =~= Seq::new(ran_count(o), |j: int| i + j));
    }
}

/// Running a registry of `n` handlers runs them in registration order, each
/// at most once, starting with the first and stopping right after the first
/// that fails; the run returns that failure, or success when none fails.
pub proof fn lemma_exec_runs_in_order(n: nat, outcomes: Seq<Result<(), String>>)
    requires
        outcomes.len() == n,
        n <= usize::MAX,
    ensures
        drive(n, outcomes, exec_start(n), n) == (
            Seq::new(ran_count(outcomes), |j: int| j),
            exec_result(outcomes),
        ),
{
    if n > 0 {
        lemma_drive_from(n, outcomes, 0);
        assert(outcomes.skip(0) =~= outcomes);
        assert(Seq::new(ran_count(outcomes), |j: int| 0 + j) =~= Seq::new(
            ran_count(outcomes),
            |j: int| j,
        ));
    } else {
        assert(Seq::new(ran_count(outcomes), |j: int| j) =~= Seq::<int>::empty());
    }
}

} // verus!
