use vstd::prelude::*;

verus! {

/// A value that is either borrowed or held directly; `concrete` resolves
/// either form to an owned value.
pub enum OwningRef<'a, T> {
    Reference(&'a T),
    Concrete(T),
}

impl<'a, T> View for OwningRef<'a, T> {
    type V = T;

    open spec fn view(&self) -> T {
        match self {
            OwningRef::Reference(reference) => **reference,
            OwningRef::Concrete(object) => *object,
        }
    }
}

impl<'a, T: Copy> OwningRef<'a, T> {
    /// The held value, owned.
    pub fn concrete(self) -> (r: T)
        ensures
            r == self@,
    {
        match self {
            OwningRef::Reference(reference) => *reference,
            OwningRef::Concrete(object) => object,
        }
    }
}

} // verus!
