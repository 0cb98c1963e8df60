use vstd::prelude::*;

verus! {

/// An error of a parser, telling whether parsing is to stop altogether or
/// may try an alternative.
pub trait ParseError {
    spec fn spec_should_terminate(&self) -> bool;

    fn should_terminate(&self) -> (r: bool)
        ensures
            r == self.spec_should_terminate(),
    ;
}

/// An error that ends parsing.
#[derive(Debug)]
pub struct Fatal<E>(pub E);

/// An error after which an alternative may be tried.
#[derive(Debug)]
pub struct Miss<E>(pub E);

impl<E> ParseError for Fatal<E> {
    open spec fn spec_should_terminate(&self) -> bool {
        true
    }

    fn should_terminate(&self) -> (r: bool) {
        true
    }
}

impl<E> ParseError for Miss<E> {
    open spec fn spec_should_terminate(&self) -> bool {
        false
    }

    fn should_terminate(&self) -> (r: bool) {
        false
    }
}

impl<E> From<E> for Fatal<E> {
    fn from(value: E) -> (r: Self) {
        Self(value)
    }
}

impl<E> vstd::std_specs::convert::FromSpecImpl<E> for Fatal<E> {
    open spec fn obeys_from_spec() -> bool {
        true
    }

    open spec fn from_spec(v: E) -> Self {
        Fatal(v)
    }
}

impl<E> From<E> for Miss<E> {
    fn from(value: E) -> (r: Self) {
        Self(value)
    }
}

impl<E> vstd::std_specs::convert::FromSpecImpl<E> for Miss<E> {
    open spec fn obeys_from_spec() -> bool {
        true
    }

    open spec fn from_spec(v: E) -> Self {
        Miss(v)
    }
}

/// One of two errors, or both.
#[derive(Debug, Clone)]
pub enum EitherBoth<T0, T1> {
    First(T0),
    Last(T1),
    Both(T0, T1),
}

impl<T0: ParseError, T1: ParseError> ParseError for EitherBoth<T0, T1> {
    open spec fn spec_should_terminate(&self) -> bool {
        match self {
            EitherBoth::First(e) => e.spec_should_terminate(),
            EitherBoth::Last(e) => e.spec_should_terminate(),
            EitherBoth::Both(e0, e1) => e0.spec_should_terminate() || e1.spec_should_terminate(),
        }
    }

    fn should_terminate(&self) -> (r: bool) {
        match self {
            EitherBoth::First(e) => e.should_terminate(),
            EitherBoth::Last(e) => e.should_terminate(),
            EitherBoth::Both(e0, e1) => {
                let a = e0.should_terminate();
                a || e1.should_terminate()
            },
        }
    }
}

/// A fatal error ends parsing, a miss does not; a pair of errors ends it
/// exactly when either of them would, and a single one when it would.
pub proof fn law_termination<E, T0: ParseError, T1: ParseError>(
    fatal: Fatal<E>,
    miss: Miss<E>,
    e0: T0,
    e1: T1,
)
    ensures
        fatal.spec_should_terminate(),
        !miss.spec_should_terminate(),
        EitherBoth::<T0, T1>::First(e0).spec_should_terminate() == e0.spec_should_terminate(),
        EitherBoth::<T0, T1>::Last(e1).spec_should_terminate() == e1.spec_should_terminate(),
        EitherBoth::<T0, T1>::Both(e0, e1).spec_should_terminate() == (e0.spec_should_terminate()
            || e1.spec_should_terminate()),
{
}

} // verus!
