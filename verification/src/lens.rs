//! Backing data and an image derived from it, kept together.
//!
//! The image holds no reference into the data: it is what a function made
//! of the data when asked once, such as a position or a range in it. The
//! data is never changed while the lens lives, so the image stays true of
//! it, and several lenses may share the same data.

use std::rc::Rc;
use std::sync::Arc;
use vstd::prelude::*;

verus! {

/// Backing data of type `T` with an image of type `I` derived from it.
pub struct Lens<T, I> {
    data: T,
    image: I,
}

impl<T, I> View for Lens<T, I> {
    type V = I;

    /// The image.
    closed spec fn view(&self) -> I {
        self.image
    }
}

impl<T, I> Lens<T, I> {
    /// The backing data.
    pub closed spec fn data(self) -> T {
        self.data
    }

    /// The image.
    pub fn image(&self) -> (image: &I)
        ensures
            *image == self@,
    {
        &self.image
    }

    /// The image, to be changed in place; the backing data stays.
    pub fn image_mut(&mut self) -> (image: &mut I)
        ensures
            *image == old(self)@,
            final(self)@ == *final(image),
            final(self).data() == old(self).data(),
    {
        &mut self.image
    }

    /// The backing data.
    pub fn backing(&self) -> (data: &T)
        ensures
            *data == self.data(),
    {
        &self.data
    }
}

/// Lenses that own their data alone, in a box.
impl<T, I> Lens<Box<T>, I> {
    /// Boxes `data` and derives the image from it.
    pub fn new(data: T, lens_fn: impl Fn(&T) -> I) -> (lens: Self)
        requires
            lens_fn.requires((&data,)),
        ensures
            *lens.data() == data,
            lens_fn.ensures((&data,), lens@),
    {
        let boxed = Box::new(data);
        let image = lens_fn(&*boxed);
        Lens { data: boxed, image }
    }

    /// Boxes `data` and derives the image from it, or returns the error
    /// with which the derivation failed.
    pub fn try_new<E>(data: T, lens_fn: impl Fn(&T) -> Result<I, E>) -> (out: Result<Self, E>)
        requires
            lens_fn.requires((&data,)),
        ensures
            match out {
                Ok(lens) => *lens.data() == data && lens_fn.ensures((&data,), Ok(lens@)),
                Err(e) => lens_fn.ensures((&data,), Err(e)),
            },
    {
        let lens: Lens<Box<T>, Result<I, E>> = Lens::new(data, lens_fn);
        match lens.image {
            Ok(image) => Ok(Lens { data: lens.data, image }),
            Err(e) => Err(e),
        }
    }
}

/// A pointer that shares what it points to with its clones.
pub trait ReferenceCounted: Sized + Clone {
    /// What the pointer points to.
    type Inner;

    /// What the pointer points to.
    spec fn inner(&self) -> Self::Inner;

    /// A pointer to `v`.
    fn new(v: Self::Inner) -> (rc: Self)
        ensures
            rc.inner() == v,
    ;

    /// What the pointer points to.
    fn get(&self) -> (inner: &Self::Inner)
        ensures
            *inner == self.inner(),
    ;

    /// One more pointer to the same value.
    fn share(&self) -> (rc: Self)
        ensures
            rc.inner() == self.inner(),
    ;
}

/// `Rc::clone` makes another pointer to the same allocation: what the
/// new pointer points to is what the given one points to.
#[verifier::external_body]
fn rc_clone<T>(rc: &Rc<T>) -> (shared: Rc<T>)
    ensures
        *shared == **rc,
{
    Rc::clone(rc)
}

/// `Arc::clone` makes another pointer to the same allocation: what the
/// new pointer points to is what the given one points to.
#[verifier::external_body]
fn arc_clone<T>(arc: &Arc<T>) -> (shared: Arc<T>)
    ensures
        *shared == **arc,
{
    Arc::clone(arc)
}

impl<T> ReferenceCounted for Rc<T> {
    type Inner = T;

    open spec fn inner(&self) -> T {
        **self
    }

    fn new(v: T) -> (rc: Self) {
        Rc::new(v)
    }

    fn get(&self) -> (inner: &T) {
        &**self
    }

    fn share(&self) -> (rc: Self) {
        rc_clone(self)
    }
}

impl<T> ReferenceCounted for Arc<T> {
    type Inner = T;

    open spec fn inner(&self) -> T {
        **self
    }

    fn new(v: T) -> (arc: Self) {
        Arc::new(v)
    }

    fn get(&self) -> (inner: &T) {
        &**self
    }

    fn share(&self) -> (arc: Self) {
        arc_clone(self)
    }
}

/// Lenses on shared data.
impl<T: ReferenceCounted, I> Lens<T, I> {
    /// Derives the image from what `data` points to and keeps the pointer.
    pub fn new_rc(data: T, lens_fn: impl Fn(&T::Inner) -> I) -> (lens: Self)
        requires
            lens_fn.requires((&data.inner(),)),
        ensures
            lens.data() == data,
            lens_fn.ensures((&data.inner(),), lens@),
    {
        let image = lens_fn(data.get());
        Lens { data, image }
    }

    /// As `new_rc`, or the error with which the derivation failed.
    pub fn try_new_rc<E>(data: T, lens_fn: impl Fn(&T::Inner) -> Result<I, E>) -> (out: Result<
        Self,
        E,
    >)
        requires
            lens_fn.requires((&data.inner(),)),
        ensures
            match out {
                Ok(lens) => lens.data() == data && lens_fn.ensures((&data.inner(),), Ok(lens@)),
                Err(e) => lens_fn.ensures((&data.inner(),), Err(e)),
            },
    {
        let lens: Lens<T, Result<I, E>> = Lens::new_rc(data, lens_fn);
        match lens.image {
            Ok(image) => Ok(Lens { data: lens.data, image }),
            Err(e) => Err(e),
        }
    }

    /// A lens on the same data with an image derived anew from the data.
    pub fn reimage<R>(&self, lens_fn: impl Fn(&T::Inner) -> R) -> (lens: Lens<T, R>)
        requires
            lens_fn.requires((&self.data().inner(),)),
        ensures
            lens.data().inner() == self.data().inner(),
            lens_fn.ensures((&self.data().inner(),), lens@),
    {
        Lens::new_rc(self.data.share(), lens_fn)
    }

    /// A lens on the same data with an image derived from this image.
    pub fn clone_map<U>(&self, map: impl Fn(&I) -> U) -> (lens: Lens<T, U>)
        requires
            map.requires((&self@,)),
        ensures
            lens.data().inner() == self.data().inner(),
            map.ensures((&self@,), lens@),
    {
        let data = self.data.share();
        Lens { data, image: map(&self.image) }
    }
}

} // verus!
