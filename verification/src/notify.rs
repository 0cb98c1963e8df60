use slab::Slab;
use std::task::Waker;
use vstd::prelude::*;

verus! {

#[verifier::external_type_specification]
#[verifier::external_body]
#[verifier::reject_recursive_types(T)]
pub struct ExSlab<T>(Slab<T>);

#[verifier::external_type_specification]
#[verifier::external_body]
pub struct ExWaker(Waker);

/// The keys under which a slab of wakers holds a waker.
pub uninterp spec fn waker_keys(slab: Slab<Waker>) -> Set<usize>;

/// `Slab::new`: a slab that holds nothing.
#[verifier::external_body]
fn slab_new() -> (r: Slab<Waker>)
    ensures
        waker_keys(r) == Set::<usize>::empty(),
{
    Slab::new()
}

/// `Slab::insert`: stores the waker under a key that held nothing and
/// returns that key.
#[verifier::external_body]
fn slab_insert(slab: &mut Slab<Waker>, waker: Waker) -> (key: usize)
    ensures
        !waker_keys(*old(slab)).contains(key),
        waker_keys(*final(slab)) == waker_keys(*old(slab)).insert(key),
{
    slab.insert(waker)
}

/// `Slab::get_mut`: the waker stored under `key`, if there is one; the keys
/// stay as they are whatever is done with it.
#[verifier::external_body]
fn slab_get_mut(slab: &mut Slab<Waker>, key: usize) -> (r: Option<&mut Waker>)
    ensures
        r is Some <==> waker_keys(*old(slab)).contains(key),
        waker_keys(*final(slab)) == waker_keys(*old(slab)),
{
    slab.get_mut(key)
}

/// `Slab::remove`: takes the waker out from under `key`, which must hold one
/// (the call panics otherwise).
#[verifier::external_body]
fn slab_remove(slab: &mut Slab<Waker>, key: usize) -> (r: Waker)
    requires
        waker_keys(*old(slab)).contains(key),
    ensures
        waker_keys(*final(slab)) == waker_keys(*old(slab)).remove(key),
{
    slab.remove(key)
}

/// `Slab::try_remove`: takes the waker out from under `key` if it holds one.
#[verifier::external_body]
fn slab_try_remove(slab: &mut Slab<Waker>, key: usize) -> (r: Option<Waker>)
    ensures
        r is Some <==> waker_keys(*old(slab)).contains(key),
        waker_keys(*final(slab)) == waker_keys(*old(slab)).remove(key),
{
    slab.try_remove(key)
}

/// `Slab::into_iter`: every stored waker with its key, in increasing key
/// order (the iterator walks the entries by index and yields the occupied
/// ones).
#[verifier::external_body]
fn slab_into_entries(slab: Slab<Waker>) -> (r: Vec<(usize, Waker)>)
    ensures
        forall|i: int, j: int| 0 <= i < j < r@.len() ==> r@[i].0 < r@[j].0,
        forall|k: usize| waker_keys(slab).contains(k) <==> exists|i: int| 0 <= i < r@.len() && r@[i].0 == k,
{
    slab.into_iter().collect()
}

/// `Waker::wake`: wakes the task the waker belongs to.
#[verifier::external_body]
fn wake(waker: Waker) {
    waker.wake()
}

/// `Waker::clone`: another waker for the same task.
#[verifier::external_body]
fn clone_waker(waker: &Waker) -> (r: Waker) {
    waker.clone()
}

/// `Waker::clone_from`: makes `target` wake the task of `source`.
#[verifier::external_body]
fn set_waker(target: &mut Waker, source: &Waker) {
    target.clone_from(source)
}

/// A signal that waiters wait for: every `send` moves the version on and
/// wakes all registered wakers.
pub struct Signal {
    version: usize,
    wakers: Slab<Waker>,
}

/// A wait for the next `send` of a signal after the wait was created.
#[derive(Debug, Clone, Copy, PartialEq, Eq)]
pub struct Wait {
    key: Option<usize>,
    version: usize,
}

/// The version after a `send`: one more, wrapping around as the atomic
/// counter does.
pub open spec fn next_version(v: usize) -> usize {
    if v == usize::MAX {
        0
    } else {
        (v + 1) as usize
    }
}

impl Signal {
    pub closed spec fn version(&self) -> usize {
        self.version
    }

    /// The keys of the wakers registered for the next `send`.
    pub closed spec fn registered(&self) -> Set<usize> {
        waker_keys(self.wakers)
    }

    pub fn new() -> (r: Self)
        ensures
            r.version() == 0,
            r.registered() == Set::<usize>::empty(),
    {
        Self { version: 0, wakers: slab_new() }
    }

    /// The current version.
    pub fn current_version(&self) -> (r: usize)
        ensures
            r == self.version(),
    {
        self.version
    }

    /// Moves the version on and wakes every registered waker; `woken` lists
    /// the key of each waker woken, in the order they were woken.
    pub fn send(&mut self) -> (woken: Ghost<Seq<usize>>)
        ensures
            final(self).version() == next_version(old(self).version()),
            final(self).registered() == Set::<usize>::empty(),
            woken@.no_duplicates(),
            woken@.to_set() == old(self).registered(),
    {
        self.version = self.version.wrapping_add(1);
        let mut taken = slab_new();
        std::mem::swap(&mut taken, &mut self.wakers);
        let entries = slab_into_entries(taken);
        let ghost ev = entries@;
        let ghost mut woken: Seq<usize> = Seq::empty();
        for e in it: entries
            invariant
                it.seq() == ev,
                woken == ev.take(it.index() as int).map_values(|e: (usize, Waker)| e.0),
                waker_keys(self.wakers) == Set::<usize>::empty(),
                self.version == next_version(old(self).version()),
        {
            let (k, w) = e;
            proof {
                assert(ev.take(it.index() + 1) == ev.take(it.index() as int).push(ev[it.index() as int]));
                woken = woken.push(k);
            }
            wake(w);
        }
        proof {
            let keys = ev.map_values(|e: (usize, Waker)| e.0);
            assert(ev.take(ev.len() as int) == ev);
            assert(woken == keys);
            assert forall|i: int, j: int| 0 <= i < keys.len() && 0 <= j < keys.len() && i != j implies keys[i] != keys[j] by {
                if i < j { assert(ev[i].0 < ev[j].0); } else { assert(ev[j].0 < ev[i].0); }
            }
            assert forall|k: usize| #[trigger] keys.to_set().contains(k) <==> old(self).registered().contains(k) by {
                if keys.to_set().contains(k) {
                    let i = choose|i: int| 0 <= i < keys.len() && keys[i] == k;
                    assert(ev[i].0 == k);
                }
                if old(self).registered().contains(k) {
                    let i = choose|i: int| 0 <= i < ev.len() && ev[i].0 == k;
                    assert(keys[i] == k);
                }
            }
            assert(keys.to_set() =~= old(self).registered());
        }
        Ghost(woken)
    }
}

impl Wait {
    pub closed spec fn version(&self) -> usize {
        self.version
    }

    /// The key of the waker this wait registered, if any.
    pub closed spec fn key(&self) -> Option<usize> {
        self.key
    }

    /// A wait for the next `send` of `signal`.
    pub fn new(signal: &Signal) -> (r: Self)
        ensures
            r.version() == signal.version(),
            r.key() is None,
    {
        Self { key: None, version: signal.current_version() }
    }

    /// Whether the signal was sent since the wait was created; if not, the
    /// waker is registered to be woken by the next send, in place of the one
    /// registered by an earlier poll where that is still there.
    pub fn poll(&mut self, signal: &mut Signal, waker: &Waker) -> (ready: bool)
        ensures
            ready == (old(self).version() != old(signal).version()),
            final(self).version() == old(self).version(),
            final(signal).version() == old(signal).version(),
            ready ==> *final(self) == *old(self) && final(signal).registered() == old(
                signal,
            ).registered(),
            !ready ==> {
                &&& final(self).key() matches Some(k) && final(signal).registered()
                    == old(signal).registered().insert(k)
                &&& (old(self).key() matches Some(k0) && old(signal).registered().contains(k0))
                    ==> final(self).key() == old(self).key()
            },
    {
        if self.version != signal.current_version() {
            return true;
        }
        let old_key = self.key;
        self.key = None;
        let key = match old_key {
            Some(key) => match slab_get_mut(&mut signal.wakers, key) {
                Some(w) => {
                    set_waker(w, waker);
                    key
                },
                None => slab_insert(&mut signal.wakers, clone_waker(waker)),
            },
            None => slab_insert(&mut signal.wakers, clone_waker(waker)),
        };
        proof {
            if let Some(k) = old_key {
                if old(signal).registered().contains(k) {
                    assert(old(signal).registered().insert(k) == old(signal).registered());
                }
            }
        }
        if self.version != signal.current_version() {
            let _ = slab_remove(&mut signal.wakers, key);
            true
        } else {
            self.key = Some(key);
            false
        }
    }

    /// What dropping the wait does: the waker it registered is taken out
    /// again, unless the signal was sent meanwhile.
    pub fn release(&mut self, signal: &mut Signal)
        ensures
            final(self).key() is None,
            final(self).version() == old(self).version(),
            final(signal).version() == old(signal).version(),
            final(signal).registered() == match old(self).key() {
                Some(k) => if old(self).version() == old(signal).version() {
                    old(signal).registered().remove(k)
                } else {
                    old(signal).registered()
                },
                None => old(signal).registered(),
            },
    {
        let key = match self.key {
            Some(k) => k,
            None => {
                return ;
            },
        };
        self.key = None;
        if self.version != signal.current_version() {
            return ;
        }
        let _ = slab_try_remove(&mut signal.wakers, key);
    }
}

/// A wait created before a `send` is ready at its first poll after that
/// send: `send` moves the version to `next_version`, which never equals the
/// version the wait saw, and `poll` is ready exactly when the versions differ.
pub proof fn law_send_releases_waits(wait: Wait, before: Signal, after: Signal)
    requires
        wait.version() == before.version(),
        after.version() == next_version(before.version()),
    ensures
        wait.version() != after.version(),
{
}

} // verus!
