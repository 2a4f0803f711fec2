//! Composition of functions: a pair of steps is itself a step.
//!
//! `(a, b)` first calls `a` and then calls `b` on what `a` returned. The
//! second step may itself be a pair, so that `(a, (b, c))` chains three.
//! Where the first step returns a `Result` or an `Option`, the second runs
//! on the success only and a failure passes through.
//!
//! A pair can be composed in several ways, so the trait has a second
//! parameter that tells them apart. It is inferred at the call and has no
//! other meaning.
use vstd::prelude::*;

verus! {

/// A step that can be called with `Args`.
pub trait Func<Args, T> {
    type Output;

    /// Whether the step may be called with `args`.
    spec fn accepts(&self, args: Args) -> bool;

    /// Whether the step may return `out` when called with `args`.
    spec fn yields(&self, args: Args, out: Self::Output) -> bool;

    /// Calls the step.
    fn call(&self, args: Args) -> (out: Self::Output)
        requires
            self.accepts(args),
        ensures
            self.yields(args, out),
    ;
}

/// Two functions in a row.
impl<A, B, Args, T, U> Func<Args, (T,)> for (A, B) where A: Fn(Args) -> T, B: Fn(T) -> U {
    type Output = U;

    open spec fn accepts(&self, args: Args) -> bool {
        &&& call_requires(self.0, (args,))
        &&& forall|mid: T| call_ensures(self.0, (args,), mid) ==> call_requires(self.1, (mid,))
    }

    open spec fn yields(&self, args: Args, out: U) -> bool {
        exists|mid: T| call_ensures(self.0, (args,), mid) && call_ensures(self.1, (mid,), out)
    }

    #[inline]
    fn call(&self, args: Args) -> (out: U) {
        let mid = (self.0)(args);
        (self.1)(mid)
    }
}

/// A function, then a composed step on what it returned.
impl<A, B, Args, T, F> Func<Args, ((), (), F)> for (A, B) where A: Fn(Args) -> T, B: Func<T, F> {
    type Output = B::Output;

    open spec fn accepts(&self, args: Args) -> bool {
        &&& call_requires(self.0, (args,))
        &&& forall|mid: T| call_ensures(self.0, (args,), mid) ==> self.1.accepts(mid)
    }

    open spec fn yields(&self, args: Args, out: B::Output) -> bool {
        exists|mid: T| call_ensures(self.0, (args,), mid) && self.1.yields(mid, out)
    }

    #[inline]
    fn call(&self, args: Args) -> (out: B::Output) {
        let mid = (self.0)(args);
        self.1.call(mid)
    }
}

/// A function, then a composed step that takes what it returned as a
/// tuple of one.
impl<A, B, Args, T, F> Func<Args, ((), (T,), F)> for (A, B) where
    A: Fn(Args) -> T,
    B: Func<(T,), F>,
 {
    type Output = B::Output;

    open spec fn accepts(&self, args: Args) -> bool {
        &&& call_requires(self.0, (args,))
        &&& forall|mid: T| call_ensures(self.0, (args,), mid) ==> self.1.accepts((mid,))
    }

    open spec fn yields(&self, args: Args, out: B::Output) -> bool {
        exists|mid: T| call_ensures(self.0, (args,), mid) && self.1.yields((mid,), out)
    }

    #[inline]
    fn call(&self, args: Args) -> (out: B::Output) {
        let mid = (self.0)(args);
        self.1.call((mid,))
    }
}

/// A function that may fail, then a function on its success.
impl<A, B, Args, T, R, T2, E> Func<Args, (Result<T, E>, ((),), T2)> for (A, B) where
    A: Fn(Args) -> Result<T, E>,
    B: Fn(T) -> R,
    R: Into<Result<T2, E>>,
 {
    type Output = Result<T2, E>;

    open spec fn accepts(&self, args: Args) -> bool {
        &&& call_requires(self.0, (args,))
        &&& forall|mid: T|
            call_ensures(self.0, (args,), Ok::<T, E>(mid)) ==> call_requires(self.1, (mid,))
    }

    open spec fn yields(&self, args: Args, out: Result<T2, E>) -> bool {
        ||| exists|e: E| call_ensures(self.0, (args,), Err::<T, E>(e)) && out == Err::<T2, E>(e)
        ||| exists|mid: T, r: R|
            call_ensures(self.0, (args,), Ok::<T, E>(mid)) && call_ensures(self.1, (mid,), r)
                && call_ensures(<R as Into<Result<T2, E>>>::into, (r,), out)
    }

    #[inline]
    fn call(&self, args: Args) -> (out: Result<T2, E>) {
        match (self.0)(args) {
            Ok(mid) => {
                let r = (self.1)(mid);
                r.into()
            },
            Err(e) => Err(e),
        }
    }
}

/// A function that may fail, then a composed step on its success.
impl<A, B, Args, T, E, F, R, T2> Func<Args, (Result<T, E>, (), F, T2)> for (A, B) where
    A: Fn(Args) -> Result<T, E>,
    B: Func<T, F, Output = R>,
    R: Into<Result<T2, E>>,
 {
    type Output = Result<T2, E>;

    open spec fn accepts(&self, args: Args) -> bool {
        &&& call_requires(self.0, (args,))
        &&& forall|mid: T| call_ensures(self.0, (args,), Ok::<T, E>(mid)) ==> self.1.accepts(mid)
    }

    open spec fn yields(&self, args: Args, out: Result<T2, E>) -> bool {
        ||| exists|e: E| call_ensures(self.0, (args,), Err::<T, E>(e)) && out == Err::<T2, E>(e)
        ||| exists|mid: T, r: R|
            call_ensures(self.0, (args,), Ok::<T, E>(mid)) && self.1.yields(mid, r)
                && call_ensures(<R as Into<Result<T2, E>>>::into, (r,), out)
    }

    #[inline]
    fn call(&self, args: Args) -> (out: Result<T2, E>) {
        match (self.0)(args) {
            Ok(mid) => {
                let r = self.1.call(mid);
                r.into()
            },
            Err(e) => Err(e),
        }
    }
}

/// A function that may fail, then a composed step that takes its success
/// as a tuple of one.
impl<A, B, Args, T, E, F, R, T2> Func<Args, (Result<T, E>, ((),), F, T2)> for (A, B) where
    A: Fn(Args) -> Result<T, E>,
    B: Func<(T,), F, Output = R>,
    R: Into<Result<T2, E>>,
 {
    type Output = Result<T2, E>;

    open spec fn accepts(&self, args: Args) -> bool {
        &&& call_requires(self.0, (args,))
        &&& forall|mid: T|
            call_ensures(self.0, (args,), Ok::<T, E>(mid)) ==> self.1.accepts((mid,))
    }

    open spec fn yields(&self, args: Args, out: Result<T2, E>) -> bool {
        ||| exists|e: E| call_ensures(self.0, (args,), Err::<T, E>(e)) && out == Err::<T2, E>(e)
        ||| exists|mid: T, r: R|
            call_ensures(self.0, (args,), Ok::<T, E>(mid)) && self.1.yields((mid,), r)
                && call_ensures(<R as Into<Result<T2, E>>>::into, (r,), out)
    }

    #[inline]
    fn call(&self, args: Args) -> (out: Result<T2, E>) {
        match (self.0)(args) {
            Ok(mid) => {
                let r = self.1.call((mid,));
                r.into()
            },
            Err(e) => Err(e),
        }
    }
}

/// A function that may return nothing, then a function on what it returned.
impl<A, B, Args, T, U> Func<Args, (Option<T>, ((),))> for (A, B) where
    A: Fn(Args) -> Option<T>,
    B: Fn(T) -> U,
 {
    type Output = Option<U>;

    open spec fn accepts(&self, args: Args) -> bool {
        &&& call_requires(self.0, (args,))
        &&& forall|mid: T|
            call_ensures(self.0, (args,), Some(mid)) ==> call_requires(self.1, (mid,))
    }

    open spec fn yields(&self, args: Args, out: Option<U>) -> bool {
        ||| out is None && call_ensures(self.0, (args,), None::<T>)
        ||| exists|mid: T, u: U|
            call_ensures(self.0, (args,), Some(mid)) && call_ensures(self.1, (mid,), u) && out
                == Some(u)
    }

    #[inline]
    fn call(&self, args: Args) -> (out: Option<U>) {
        match (self.0)(args) {
            Some(mid) => Some((self.1)(mid)),
            None => None,
        }
    }
}

/// A function that may return nothing, then a composed step on what it
/// returned.
impl<A, B, Args, T, F, U> Func<Args, (Option<T>, (), F)> for (A, B) where
    A: Fn(Args) -> Option<T>,
    B: Func<T, F, Output = U>,
 {
    type Output = Option<U>;

    open spec fn accepts(&self, args: Args) -> bool {
        &&& call_requires(self.0, (args,))
        &&& forall|mid: T| call_ensures(self.0, (args,), Some(mid)) ==> self.1.accepts(mid)
    }

    open spec fn yields(&self, args: Args, out: Option<U>) -> bool {
        ||| out is None && call_ensures(self.0, (args,), None::<T>)
        ||| exists|mid: T, u: U|
            call_ensures(self.0, (args,), Some(mid)) && self.1.yields(mid, u) && out == Some(u)
    }

    #[inline]
    fn call(&self, args: Args) -> (out: Option<U>) {
        match (self.0)(args) {
            Some(mid) => Some(self.1.call(mid)),
            None => None,
        }
    }
}

/// A function that may return nothing, then a composed step that takes
/// what it returned as a tuple of one.
impl<A, B, Args, T, F, U> Func<Args, (Option<T>, ((),), F)> for (A, B) where
    A: Fn(Args) -> Option<T>,
    B: Func<(T,), F, Output = U>,
 {
    type Output = Option<U>;

    open spec fn accepts(&self, args: Args) -> bool {
        &&& call_requires(self.0, (args,))
        &&& forall|mid: T| call_ensures(self.0, (args,), Some(mid)) ==> self.1.accepts((mid,))
    }

    open spec fn yields(&self, args: Args, out: Option<U>) -> bool {
        ||| out is None && call_ensures(self.0, (args,), None::<T>)
        ||| exists|mid: T, u: U|
            call_ensures(self.0, (args,), Some(mid)) && self.1.yields((mid,), u) && out == Some(u)
    }

    #[inline]
    fn call(&self, args: Args) -> (out: Option<U>) {
        match (self.0)(args) {
            Some(mid) => Some(self.1.call((mid,))),
            None => None,
        }
    }
}

/// A composed step, with the way it is composed fixed in its type.
pub struct Function<F, T>(pub F, pub core::marker::PhantomData<T>);

impl<F, T> Function<F, T> {
    /// Calls the step.
    pub fn call<Args>(&self, args: Args) -> (out: F::Output) where F: Func<Args, T>
        requires
            self.0.accepts(args),
        ensures
            self.0.yields(args, out),
    {
        self.0.call(args)
    }

    /// Calls the step through an exclusive reference, which it leaves as
    /// it was.
    pub fn call_mut<Args>(&mut self, args: Args) -> (out: F::Output) where F: Func<Args, T>
        requires
            old(self).0.accepts(args),
        ensures
            old(self).0.yields(args, out),
            *final(self) == *old(self),
    {
        self.0.call(args)
    }

    /// Calls the step and gives it up.
    pub fn call_once<Args>(self, args: Args) -> (out: F::Output) where F: Func<Args, T>
        requires
            self.0.accepts(args),
        ensures
            self.0.yields(args, out),
    {
        self.0.call(args)
    }
}

} // verus!
