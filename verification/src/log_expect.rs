//! Taking the value out of a `Result` or an `Option` that is known to hold one.

use vstd::prelude::*;

verus! {

/// A container that holds a value or stands for a failure.
///
/// `log_expect` hands the value out. A failure here would mean that the run's
/// bookkeeping is broken, so the caller has to show that there is none.
pub trait LogExpect<T>: Sized {
    /// Whether a value is there.
    spec fn holds_value(&self) -> bool;

    /// The value, where there is one.
    spec fn value(self) -> T;

    /// The value that `self` holds. `msg` says what the caller relied on.
    fn log_expect(self, msg: &str) -> (inner: T)
        requires
            self.holds_value(),
        ensures
            inner == self.value(),
    ;
}

impl<T, E> LogExpect<T> for Result<T, E> {
    open spec fn holds_value(&self) -> bool {
        self is Ok
    }

    open spec fn value(self) -> T {
        self->Ok_0
    }

    fn log_expect(self, msg: &str) -> (inner: T) {
        match self {
            Ok(inner) => inner,
            Err(_) => vstd::pervasive::unreached(),
        }
    }
}

impl<T> LogExpect<T> for Option<T> {
    open spec fn holds_value(&self) -> bool {
        self is Some
    }

    open spec fn value(self) -> T {
        self->Some_0
    }

    fn log_expect(self, msg: &str) -> (inner: T) {
        match self {
            Some(inner) => inner,
            None => vstd::pervasive::unreached(),
        }
    }
}

} // verus!
