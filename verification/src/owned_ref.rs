use vstd::prelude::*;

verus! {

/// A value that is either borrowed or held directly; `concrete` resolves
/// either form to an owned value.
pub enum OwnedRef<'a, T> {
    Reference(&'a T),
    Concrete(T),
}

impl<'a, T> View for OwnedRef<'a, T> {
    type V = T;

    open spec fn view(&self) -> T {
        match self {
            OwnedRef::Reference(reference) => **reference,
            OwnedRef::Concrete(object) => *object,
        }
    }
}

impl<'a, T: Copy> OwnedRef<'a, T> {
    /// The held value, owned.
    pub fn concrete(self) -> (r: T)
        ensures
            r == self@,
    {
        match self {
            OwnedRef::Reference(reference) => *reference,
            OwnedRef::Concrete(object) => object,
        }
    }
}

} // verus!
