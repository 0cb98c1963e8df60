use vstd::prelude::*;

verus! {

/// A cell that is set once: the first `init` stores its value, every later
/// one hands its value back.
pub struct OnceInit<T> {
    value: Option<T>,
}

impl<T> OnceInit<T> {
    pub closed spec fn value(&self) -> Option<T> {
        self.value
    }

    pub fn new() -> (r: Self)
        ensures
            r.value() is None,
    {
        Self { value: None }
    }

    /// The stored value, once there is one.
    pub fn get(&self) -> (r: Option<&T>)
        ensures
            r is Some <==> self.value() is Some,
            r matches Some(x) ==> *x == self.value()->0,
    {
        self.value.as_ref()
    }

    /// Runs `f` if no value is stored yet, and gives its result.
    pub fn if_uninitialized<U, F: FnOnce() -> U>(&self, f: F) -> (r: Option<U>)
        requires
            self.value() is None ==> call_requires(f, ()),
        ensures
            r is Some <==> self.value() is None,
            r matches Some(u) ==> call_ensures(f, (), u),
    {
        if self.value.is_some() {
            return None;
        }
        Some(f())
    }

    /// Stores `value` and then runs `f` if no value is stored yet; otherwise
    /// hands `value` back and leaves the cell as it is.
    pub fn init<F: FnOnce()>(&mut self, value: T, f: F) -> (r: Result<(), T>)
        requires
            old(self).value() is None ==> call_requires(f, ()),
        ensures
            old(self).value() is None ==> r is Ok && final(self).value() == Some(value)
                && call_ensures(f, (), ()),
            old(self).value() is Some ==> r == Err::<(), T>(value) && final(self).value() == old(
                self,
            ).value(),
    {
        if self.value.is_some() {
            return Err(value);
        }
        self.value = Some(value);
        f();
        Ok(())
    }
}

} // verus!
