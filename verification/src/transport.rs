//! The order in which the destinations of a request are tried. The caller
//! connects, sends and receives; this module decides what comes next.

use crate::error::{Error, ErrorView};
use crate::parser::Destination;
use vstd::prelude::*;

verus! {

/// How one attempt at one destination ended.
#[derive(Clone, Debug, PartialEq, Eq)]
pub enum Outcome {
    /// The request was sent and these bytes came back.
    Received(Vec<u8>),
    /// Connecting, the handshake, sending or receiving failed; the text says how.
    Failed(String),
}

/// An `Outcome` as it counts in contracts.
pub enum OutcomeView {
    Received(Seq<u8>),
    Failed(Seq<char>),
}

impl View for Outcome {
    type V = OutcomeView;

    open spec fn view(&self) -> OutcomeView {
        match *self {
            Outcome::Received(bytes) => OutcomeView::Received(bytes@),
            Outcome::Failed(text) => OutcomeView::Failed(text@),
        }
    }
}

/// What the caller does next.
#[derive(Debug, PartialEq, Eq)]
pub enum Step {
    /// Attempt the request at this destination and report how it ended.
    Try(Destination),
    /// Stop: these bytes were received, or every destination failed.
    Done(Result<Vec<u8>, Error>),
}

/// A `Step` as it counts in contracts.
pub enum StepView {
    Try(Destination),
    Done(Result<Seq<u8>, ErrorView>),
}

impl View for Step {
    type V = StepView;

    open spec fn view(&self) -> StepView {
        match *self {
            Step::Try(destination) => StepView::Try(destination),
            Step::Done(Ok(bytes)) => StepView::Done(Ok(bytes@)),
            Step::Done(Err(e)) => StepView::Done(Err(e@)),
        }
    }
}

/// The destinations of one request, how many of them have been tried, and
/// how the last failed attempt failed.
#[derive(Clone, Debug)]
pub struct Fallback {
    destinations: Vec<Destination>,
    tried: usize,
    last_error: Option<String>,
}

/// A `Fallback` as it counts in contracts.
pub struct FallbackView {
    pub destinations: Seq<Destination>,
    pub tried: nat,
    pub last_error: Option<Seq<char>>,
}

impl FallbackView {
    /// The error when nothing is left to try: the last failure, if there was one.
    pub open spec fn give_up(self) -> ErrorView {
        ErrorView::Transport(
            match self.last_error {
                Some(text) => text,
                None => "no destination to try"@,
            },
        )
    }

    /// The next destination, if one is left.
    pub open spec fn proceed(self) -> (FallbackView, StepView) {
        if self.tried < self.destinations.len() {
            (
                FallbackView { tried: self.tried + 1, ..self },
                StepView::Try(self.destinations[self.tried as int]),
            )
        } else {
            (self, StepView::Done(Err(self.give_up())))
        }
    }

    /// The state and the step after `event`: `None` at the start, then how
    /// the attempt that was asked for ended. Received bytes end the run; a
    /// failure is recorded and the next destination follows.
    pub open spec fn after(self, event: Option<OutcomeView>) -> (FallbackView, StepView) {
        match event {
            None => self.proceed(),
            Some(OutcomeView::Received(bytes)) => (self, StepView::Done(Ok(bytes))),
            Some(OutcomeView::Failed(text)) => (FallbackView {
                last_error: Some(text),
                ..self
            }).proceed(),
        }
    }

    /// How a run ends that starts in this state with `event`, where `later`
    /// holds how the attempts that are asked for after it end, in order.
    pub open spec fn run(self, event: Option<OutcomeView>, later: Seq<OutcomeView>) -> Result<
        Seq<u8>,
        ErrorView,
    >
        decreases later.len(),
    {
        let (next, step) = self.after(event);
        match step {
            StepView::Done(result) => result,
            StepView::Try(_) => if later.len() == 0 {
                Err(next.give_up())
            } else {
                next.run(Some(later[0]), later.drop_first())
            },
        }
    }
}

/// The index of the first outcome that is received bytes, or the length of
/// `outcomes` where all are failures.
pub open spec fn first_received(outcomes: Seq<OutcomeView>) -> nat
    decreases outcomes.len(),
{
    if outcomes.len() == 0 || outcomes[0] is Received {
        0
    } else {
        1 + first_received(outcomes.drop_first())
    }
}

/// What a run over all destinations comes to, where `outcomes` holds how the
/// attempt at each destination would end: the bytes of the first attempt that
/// receives any, else the failure of the last attempt.
pub open spec fn settled(outcomes: Seq<OutcomeView>) -> Result<Seq<u8>, ErrorView> {
    let at = first_received(outcomes) as int;
    if at < outcomes.len() {
        Ok(outcomes[at]->Received_0)
    } else if outcomes.len() == 0 {
        Err(ErrorView::Transport("no destination to try"@))
    } else {
        Err(ErrorView::Transport(outcomes.last()->Failed_0))
    }
}

impl View for Fallback {
    type V = FallbackView;

    closed spec fn view(&self) -> FallbackView {
        FallbackView {
            destinations: self.destinations@,
            tried: self.tried as nat,
            last_error: match self.last_error {
                Some(text) => Some(text@),
                None => None,
            },
        }
    }
}

impl Fallback {
    /// A run over `destinations` of which none has been tried.
    pub fn new(destinations: Vec<Destination>) -> (r: Self)
        ensures
            r@ == (FallbackView { destinations: destinations@, tried: 0, last_error: None }),
    {
        Fallback { destinations, tried: 0, last_error: None }
    }

    /// What to do after `event`: see `FallbackView::after`. The first call
    /// passes `None`; each later call passes how the attempt ended that the
    /// call before it asked for.
    pub fn step(&mut self, event: Option<Outcome>) -> (r: Step)
        ensures
            (final(self)@, r@) == old(self)@.after(
                match event {
                    Some(outcome) => Some(outcome@),
                    None => None,
                },
            ),
    {
        match event {
            Some(Outcome::Received(bytes)) => {
                return Step::Done(Ok(bytes));
            },
            Some(Outcome::Failed(text)) => {
                self.last_error = Some(text);
            },
            None => {},
        }
        if self.tried < self.destinations.len() {
            let destination = self.destinations[self.tried];
            self.tried = self.tried + 1;
            Step::Try(destination)
        } else {
            match &self.last_error {
                Some(text) => Step::Done(Err(Error::Transport(text.clone()))),
                None => Step::Done(Err(Error::Transport("no destination to try".to_owned()))),
            }
        }
    }
}

/// A run that has tried `done` destinations, all in vain, and goes on with
/// the rest comes to what `settled` says of all the outcomes.
proof fn lemma_run_from(destinations: Seq<Destination>, outcomes: Seq<OutcomeView>, done: int)
    requires
        outcomes.len() == destinations.len(),
        0 < done <= outcomes.len(),
        first_received(outcomes.take(done - 1)) == done - 1,
    ensures
        (FallbackView {
            destinations,
            tried: done as nat,
            last_error: if done >= 2 {
                Some(outcomes[done - 2]->Failed_0)
            } else {
                None
            },
        }).run(Some(outcomes[done - 1]), outcomes.skip(done)) == settled(outcomes),
    decreases outcomes.len() - done,
{
    let state = FallbackView {
        destinations,
        tried: done as nat,
        last_error: if done >= 2 {
            Some(outcomes[done - 2]->Failed_0)
        } else {
            None
        },
    };
    lemma_first_received(outcomes, done - 1);
    if outcomes[done - 1] is Received {
    } else {
        lemma_first_received(outcomes, done);
        if done < outcomes.len() {
            assert(outcomes.skip(done)[0] == outcomes[done]);
            assert(outcomes.skip(done).drop_first() =~= outcomes.skip(done + 1));
            lemma_run_from(destinations, outcomes, done + 1);
        } else {
            assert(outcomes.take(done) =~= outcomes);
        }
    }
}

/// Where the first `n` outcomes are failures, the first received bytes are
/// where they are among the rest; and an outcome before the first received
/// bytes is a failure.
proof fn lemma_first_received(outcomes: Seq<OutcomeView>, n: int)
    requires
        0 <= n <= outcomes.len(),
        first_received(outcomes.take(n)) == n,
    ensures
        first_received(outcomes) == n + first_received(outcomes.skip(n)),
        forall|j: int| 0 <= j < n ==> outcomes[j] is Failed,
        n < outcomes.len() && outcomes[n] is Failed ==> first_received(outcomes.take(n + 1)) == n
            + 1,
        n < outcomes.len() && outcomes[n] is Received ==> first_received(outcomes) == n,
    decreases n,
{
    if n == 0 {
        assert(outcomes.skip(0) =~= outcomes);
        if outcomes.len() > 0 {
            assert(outcomes.take(1).drop_first() =~= Seq::<OutcomeView>::empty());
            assert(first_received(Seq::<OutcomeView>::empty()) == 0);
            assert(outcomes.take(1)[0] == outcomes[0]);
        }
    } else {
        let head = outcomes.take(n);
        assert(head[0] == outcomes[0]);
        assert(head.drop_first() =~= outcomes.drop_first().take(n - 1));
        lemma_first_received(outcomes.drop_first(), n - 1);
        assert(outcomes.drop_first().skip(n - 1) =~= outcomes.skip(n));
        assert forall|j: int| 0 <= j < n implies outcomes[j] is Failed by {
            if j > 0 {
                assert(outcomes[j] == outcomes.drop_first()[j - 1]);
            }
        }
        if n < outcomes.len() {
            assert(outcomes.take(n + 1).drop_first() =~= outcomes.drop_first().take(n));
            assert(outcomes.take(n + 1)[0] == outcomes[0]);
            assert(outcomes.drop_first()[n - 1] == outcomes[n]);
            assert(!(outcomes[0] is Received));
        }
    }
}

/// A run from the start over all destinations, each attempt ending as
/// `outcomes` says, returns the bytes of the first attempt that receives any
/// and asks for no attempt after it; where every attempt fails it returns the
/// failure of the last one.
pub proof fn lemma_fallback(destinations: Seq<Destination>, outcomes: Seq<OutcomeView>)
    requires
        outcomes.len() == destinations.len(),
    ensures
        (FallbackView { destinations, tried: 0, last_error: None }).run(None, outcomes) == settled(
            outcomes,
        ),
{
    if outcomes.len() > 0 {
        assert(outcomes.take(0) =~= Seq::<OutcomeView>::empty());
        assert(outcomes.drop_first() =~= outcomes.skip(1));
        lemma_run_from(destinations, outcomes, 1);
    }
}

} // verus!
