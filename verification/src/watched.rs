use vstd::prelude::*;

verus! {

/// A value that remembers whether it has been modified since it was last read.
pub struct Watched<T> {
    value: T,
    is_dirty: bool,
}

impl<T> Watched<T> {
    /// The wrapped value.
    pub closed spec fn value(&self) -> T {
        self.value
    }

    /// Whether the value has been modified (or never read) since the last read.
    pub closed spec fn is_dirty(&self) -> bool {
        self.is_dirty
    }

    /// A freshly wrapped value, which counts as modified.
    pub closed spec fn spec_new(value: T) -> Self {
        Watched { value, is_dirty: true }
    }

    pub proof fn lemma_spec_new(value: T)
        ensures
            Self::spec_new(value).value() == value,
            Self::spec_new(value).is_dirty(),
    {
    }

    /// Wraps a value; a fresh value counts as modified.
    pub fn new(value: T) -> (r: Self)
        ensures
            r == Self::spec_new(value),
            r.value() == value,
            r.is_dirty(),
    {
        Watched { value, is_dirty: true }
    }

    pub fn invalidate(&mut self)
        ensures
            final(self).value() == old(self).value(),
            final(self).is_dirty(),
    {
        self.is_dirty = true;
    }

    pub fn take(self) -> (r: T)
        ensures
            r == self.value(),
    {
        self.value
    }

    pub fn read(&mut self) -> (r: &T)
        ensures
            *r == old(self).value(),
            final(self).value() == old(self).value(),
            !final(self).is_dirty(),
    {
        self.is_dirty = false;
        &self.value
    }


    pub fn read_if_dirty(&mut self) -> (r: Option<&T>)
        ensures
            final(self).value() == old(self).value(),
            !final(self).is_dirty(),
            old(self).is_dirty() ==> r == Some(&old(self).value()),
            !old(self).is_dirty() ==> r is None,
    {
        if self.is_dirty {
            self.is_dirty = false;
            Some(&self.value)
        } else {
            None
        }
    }

    pub fn read_if_with_is_dirty(&mut self, f: impl FnMut(bool) -> bool) -> (r: Option<&T>)
        requires
            call_requires(f, (old(self).is_dirty(),)),
        ensures
            final(self).value() == old(self).value(),
            r is Some ==> *r->0 == old(self).value() && !final(self).is_dirty(),
            r is None ==> final(self).is_dirty() == old(self).is_dirty(),
            call_ensures(f, (old(self).is_dirty(),), r is Some),
    {
        let mut f = f;
        if f(self.is_dirty) {
            self.is_dirty = false;
            Some(&self.value)
        } else {
            None
        }
    }

    pub fn as_ref(&self) -> (r: &T)
        ensures
            *r == self.value(),
    {
        &self.value
    }

    /// Grants mutable access to the value, which marks it as modified.
    pub fn as_mut(&mut self) -> (r: &mut T)
        ensures
            *r == old(self).value(),
            final(self).value() == *final(r),
            final(self).is_dirty(),
    {
        self.is_dirty = true;
        &mut self.value
    }
}

impl<T: Default> Default for Watched<T> {
    fn default() -> (r: Self)
        ensures
            r.is_dirty(),
    {
        Watched { value: T::default(), is_dirty: true }
    }
}

impl<T> From<T> for Watched<T> {
    /// Wraps a value; a fresh value counts as modified.
    fn from(value: T) -> (r: Self) {
        Watched { value, is_dirty: true }
    }
}

impl<T> vstd::std_specs::convert::FromSpecImpl<T> for Watched<T> {
    open spec fn obeys_from_spec() -> bool {
        true
    }

    open spec fn from_spec(v: T) -> Self {
        Self::spec_new(v)
    }
}

impl<T> core::ops::Deref for Watched<T> {
    type Target = T;

    fn deref(&self) -> (r: &T)
        ensures
            *r == self.value(),
    {
        &self.value
    }
}

} // verus!
