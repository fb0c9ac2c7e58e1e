//! The `Provider` trait abstracts over different ways of producing values:
//! repeating a stored object, or running a stored closure.
use vstd::prelude::*;

verus! {

/// A source of values.  `may_create` and `created` describe when a value
/// can be produced and what holds of every produced value.
pub trait Provider<T> {
    /// When `create` may be called.
    spec fn may_create(&self) -> bool;

    /// What holds of a produced value.
    spec fn created(&self, value: T) -> bool;

    /// Produces a value.
    fn create(&self) -> (r: T)
        requires
            self.may_create(),
        ensures
            self.created(r),
    ;
}

/// Provides values by running a stored closure.
pub struct ClosureProvider<F> {
    closure: F,
}

impl<T, F: Fn() -> T> ClosureProvider<F> {
    /// Wraps a closure as a provider.
    pub fn from(closure: F) -> (r: ClosureProvider<F>)
        ensures
            r.may_create() <==> closure.requires(()),
            forall|value: T| r.created(value) <==> closure.ensures((), value),
    {
        ClosureProvider { closure }
    }
}

impl<T, F: Fn() -> T> Provider<T> for ClosureProvider<F> {
    closed spec fn may_create(&self) -> bool {
        self.closure.requires(())
    }

    closed spec fn created(&self, value: T) -> bool {
        self.closure.ensures((), value)
    }

    fn create(&self) -> (r: T) {
        (self.closure)()
    }
}

/// Provides copies of a stored object.
pub struct ObjectProvider<T> {
    object: T,
}

impl<T: Copy> ObjectProvider<T> {
    /// Wraps an object as a provider.
    pub fn from(object: T) -> (r: ObjectProvider<T>)
        ensures
            r.may_create(),
            forall|value: T| r.created(value) <==> value == object,
    {
        ObjectProvider { object }
    }
}

impl<T: Copy> Provider<T> for ObjectProvider<T> {
    closed spec fn may_create(&self) -> bool {
        true
    }

    closed spec fn created(&self, value: T) -> bool {
        value == self.object
    }

    fn create(&self) -> (r: T) {
        self.object
    }
}

} // verus!
