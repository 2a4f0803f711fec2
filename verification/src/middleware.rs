//! The middleware chain and its single-use continuation.
//!
//! The chain itself only decides what runs next. Whoever drives a request
//! calls [`Next::run`], invokes the stage it names, and hands the rest of the
//! chain to that stage. A middleware proceeds by calling `run` on the
//! continuation it was given and stops the chain by dropping it.
use vstd::prelude::*;

verus! {

/// The rest of a middleware chain: the shared middleware, the handler that
/// the request was routed to, and the position of the next middleware.
///
/// `run` takes the continuation by value, so each one is used at most once.
pub struct Next<'a, M, H> {
    pub middleware: &'a Vec<M>,
    pub handler: &'a H,
    pub cursor: usize,
}

/// What runs next in a chain.
pub enum Step<'a, M, H> {
    /// A middleware, and the continuation to hand to it.
    Middleware(&'a M, Next<'a, M, H>),
    /// The handler: every middleware has continued.
    Handler(&'a H),
}

impl<'a, M, H> Next<'a, M, H> {
    /// What one continuation step yields: the middleware at the cursor with
    /// a continuation one step further, or the handler once the cursor has
    /// passed the last middleware.
    pub open spec fn spec_run(self) -> Step<'a, M, H> {
        if self.cursor < self.middleware@.len() {
            Step::Middleware(
                &self.middleware@[self.cursor as int],
                Next { cursor: (self.cursor + 1) as usize, ..self },
            )
        } else {
            Step::Handler(self.handler)
        }
    }

    /// What the step after `k` middleware have continued yields.
    pub open spec fn spec_nth(self, k: nat) -> Step<'a, M, H>
        decreases k,
    {
        if k == 0 {
            self.spec_run()
        } else {
            match self.spec_run() {
                Step::Middleware(_, rest) => rest.spec_nth((k - 1) as nat),
                Step::Handler(h) => Step::Handler(h),
            }
        }
    }

    /// The stages that run when the chain is driven from here, in order.
    /// `proceeds` holds the middleware that run the continuation they are
    /// handed. A middleware is written as its index, the handler as the
    /// number of middleware.
    pub open spec fn spec_trace(self, proceeds: Set<int>) -> Seq<int>
        decreases self.middleware@.len() - self.cursor,
    {
        proof {
            assert(self.middleware@.len() == self.middleware.len());
        }
        match self.spec_run() {
            Step::Middleware(_, rest) => if proceeds.contains(self.cursor as int) {
                seq![self.cursor as int] + rest.spec_trace(proceeds)
            } else {
                seq![self.cursor as int]
            },
            Step::Handler(_) => seq![self.middleware@.len() as int],
        }
    }

    /// Creates the continuation of a whole chain, positioned on its first
    /// middleware.
    pub fn new(middleware: &'a Vec<M>, handler: &'a H) -> (next: Self)
        ensures
            next.middleware == middleware,
            next.handler == handler,
            next.cursor == 0,
    {
        Next { middleware, handler, cursor: 0 }
    }

    /// Takes one step: yields the next middleware with the continuation
    /// for it, or the handler at the end of the chain.
    pub fn run(self) -> (step: Step<'a, M, H>)
        ensures
            step == self.spec_run(),
    {
        if self.cursor < self.middleware.len() {
            let mid = &self.middleware[self.cursor];
            Step::Middleware(
                mid,
                Next { middleware: self.middleware, handler: self.handler, cursor: self.cursor + 1 },
            )
        } else {
            Step::Handler(self.handler)
        }
    }

    /// Middleware runs in registration order, each once, and the handler
    /// runs after the last of them: in a chain of `n` middleware, the step
    /// after `k` of them have continued is middleware `k`, and after all `n`
    /// it is the handler.
    pub proof fn lemma_order(self, k: nat)
        requires
            self.cursor + k <= self.middleware@.len(),
        ensures
            self.cursor + k < self.middleware@.len() ==> (self.spec_nth(k) matches Step::Middleware(
                m,
                rest,
            ) && *m == self.middleware@[self.cursor + k] && rest.cursor == self.cursor + k + 1
                && rest.middleware == self.middleware && rest.handler == self.handler),
            self.cursor + k == self.middleware@.len() ==> self.spec_nth(k) == Step::<M, H>::Handler(
                self.handler,
            ),
        decreases k,
    {
        assert(self.middleware@.len() == self.middleware.len());
        if k > 0 {
            match self.spec_run() {
                Step::Middleware(_, rest) => {
                    rest.lemma_order((k - 1) as nat);
                },
                Step::Handler(_) => {},
            }
        }
    }

    /// Driving a chain runs the middleware in registration order, each
    /// once, up to the first that does not run its continuation, and
    /// nothing after that one; where every middleware runs its
    /// continuation, the handler runs last, once. `stop` is the index of the
    /// first middleware that does not proceed, or the number of middleware
    /// where all do.
    pub proof fn lemma_trace(self, proceeds: Set<int>, stop: int)
        requires
            self.cursor <= stop <= self.middleware@.len(),
            forall|k: int| self.cursor <= k < stop ==> proceeds.contains(k),
            stop < self.middleware@.len() ==> !proceeds.contains(stop),
        ensures
            self.spec_trace(proceeds) == Seq::new(
                (stop - self.cursor + 1) as nat,
                |i: int| self.cursor + i,
            ),
        decreases self.middleware@.len() - self.cursor,
    {
        assert(self.middleware@.len() == self.middleware.len());
        let want = Seq::new((stop - self.cursor + 1) as nat, |i: int| self.cursor + i);
        match self.spec_run() {
            Step::Middleware(_, rest) => {
                if self.cursor < stop {
                    rest.lemma_trace(proceeds, stop);
                    assert(seq![self.cursor as int] + rest.spec_trace(proceeds) =~= want);
                } else {
                    assert(seq![self.cursor as int] =~= want);
                }
            },
            Step::Handler(_) => {
                assert(seq![self.middleware@.len() as int] =~= want);
            },
        }
    }
}

} // verus!
