use vstd::prelude::*;

verus! {

/// The smaller of two `usize` numbers.
pub fn min_of_usize(a: usize, b: usize) -> (r: usize)
    ensures
        r == (if a > b { b } else { a }),
{
    if a > b {
        b
    } else {
        a
    }
}

/// A call that marks the unlikely path of a branch.
fn cold() {
}

/// A hint that `b` is likely true; returns `b`.
#[inline]
pub fn likely(b: bool) -> (r: bool)
    ensures
        r == b,
{
    if !b {
        cold();
    }
    b
}

/// A hint that `b` is likely false; returns `b`.
#[inline]
pub fn unlikely(b: bool) -> (r: bool)
    ensures
        r == b,
{
    if b {
        cold();
    }
    b
}

/// An uninitialized value that is initialized later, exactly once: the first
/// initialization sets it, and later ones leave it as it is.
pub struct InitializeOnce<T> {
    value: Option<T>,
}

impl<T> InitializeOnce<T> {
    /// The value, once initialized.
    pub closed spec fn value_spec(&self) -> Option<T> {
        self.value
    }

    /// An uninitialized value.
    pub fn new() -> (r: Self)
        ensures
            r.value_spec() is None,
    {
        InitializeOnce { value: None }
    }

    /// Initialize the value with what `init_fn` returns, unless it is already
    /// initialized; in that case `init_fn` is not called and nothing changes.
    pub fn initialize_once<F: Fn() -> T>(&mut self, init_fn: F)
        requires
            old(self).value_spec() is None ==> call_requires(init_fn, ()),
        ensures
            old(self).value_spec() is Some ==> final(self).value_spec() == old(self).value_spec(),
            old(self).value_spec() is None ==> (final(self).value_spec() matches Some(v)
                && call_ensures(init_fn, (), v)),
    {
        if self.value.is_none() {
            let v = init_fn();
            self.value = Some(v);
        }
    }

    /// A mutable reference to the value, which must be initialized.
    pub fn get_mut(&mut self) -> (r: &mut T)
        requires
            old(self).value_spec() is Some,
        ensures
            *r == old(self).value_spec().unwrap(),
            final(self).value_spec() == Some(*final(r)),
    {
        self.value.as_mut().unwrap()
    }

    /// Get the value. This should only be used after `initialize_once`.
    pub fn get_ref(&self) -> (r: &T)
        requires
            self.value_spec() is Some,
        ensures
            Some(*r) == self.value_spec(),
    {
        self.value.as_ref().unwrap()
    }
}

/// Initializing twice keeps the first value: the value after any number of later
/// initializations is the one set by the first.
pub proof fn lemma_initialize_once_keeps_first<T>(
    v0: InitializeOnce<T>,
    v1: InitializeOnce<T>,
    v2: InitializeOnce<T>,
)
    requires
        v0.value_spec() is Some ==> v1.value_spec() == v0.value_spec(),
        v1.value_spec() is Some ==> v2.value_spec() == v1.value_spec(),
        v1.value_spec() is Some,
    ensures
        v2.value_spec() == v1.value_spec(),
{
}

} // verus!
