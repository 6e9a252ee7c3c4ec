//! A value that is either owned or borrowed.
use core::ops::Deref;
use vstd::prelude::*;

verus! {

/// No-std compatible alternative to `std::Cow`
pub enum Cow<'a, T> {
    /// An owned instance of `T`
    Owned(T),
    /// A borrowed instance of `T`
    Borrowed(&'a T),
}

impl<'a, T> Cow<'a, T> {
    /// The value, owned or borrowed.
    pub open spec fn value(&self) -> T {
        match self {
            Cow::Owned(t) => *t,
            Cow::Borrowed(t) => **t,
        }
    }
}

impl<'a, T: Clone> Cow<'a, T> {
    /// A mutable reference to the value, which is made owned first: a
    /// borrowed value is cloned. (This is what `DerefMut` gives.)
    pub fn deref_mut(&mut self) -> (r: &mut T)
        ensures
            match *old(self) {
                Cow::Owned(t) => *r == t,
                Cow::Borrowed(t) => vstd::pervasive::cloned(*t, *r),
            },
            *final(self) == Cow::<'a, T>::Owned(*final(r)),
    {
        if let Cow::Borrowed(t) = self {
            let owned = (*t).clone();
            *self = Cow::Owned(owned);
        }
        match self {
            Cow::Owned(t) => t,
            Cow::Borrowed(_) => vstd::pervasive::unreached(),
        }
    }
}

impl<'a, T> Deref for Cow<'a, T> {
    type Target = T;

    fn deref(&self) -> (r: &T)
        ensures
            *r == self.value(),
    {
        match self {
            Cow::Borrowed(t) => t,
            Cow::Owned(t) => &t,
        }
    }
}

} // verus!
