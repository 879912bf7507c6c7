//! A value derived from backing data, kept together with that data behind
//! a shared pointer.

use std::sync::Arc;
use vstd::prelude::*;

verus! {

/// Backing data of type `B`, shared, with a value of type `R` that a
/// builder made of it.
pub struct IRef<B, R> {
    backing_value: Arc<B>,
    reference: R,
}

impl<B, R> View for IRef<B, R> {
    type V = R;

    /// The value made of the backing data.
    closed spec fn view(&self) -> R {
        self.reference
    }
}

impl<B, R> IRef<B, R> {
    /// The backing data.
    pub closed spec fn backing(self) -> B {
        *self.backing_value
    }

    /// Puts `backing` behind a shared pointer and has `builder` make the
    /// value from it.
    pub fn new(backing: B, builder: impl Fn(&B) -> R) -> (iref: Self)
        requires
            builder.requires((&backing,)),
        ensures
            iref.backing() == backing,
            builder.ensures((&backing,), iref@),
    {
        let b = Arc::new(backing);
        let r = builder(&*b);
        IRef { backing_value: b, reference: r }
    }

    /// As `new`, or the error with which the builder failed.
    pub fn try_new<E>(backing: B, builder: impl Fn(&B) -> Result<R, E>) -> (out: Result<Self, E>)
        requires
            builder.requires((&backing,)),
        ensures
            match out {
                Ok(iref) => iref.backing() == backing && builder.ensures((&backing,), Ok(iref@)),
                Err(e) => builder.ensures((&backing,), Err(e)),
            },
    {
        let b = Arc::new(backing);
        match builder(&*b) {
            Ok(r) => Ok(IRef { backing_value: b, reference: r }),
            Err(e) => Err(e),
        }
    }

    /// The value made of the backing data.
    pub fn get(&self) -> (reference: &R)
        ensures
            *reference == self@,
    {
        &self.reference
    }
}

} // verus!
