use vstd::prelude::*;

verus! {

/// Slot storage whose identifiers are never reused: an identifier taken by
/// `remove` stays absent for ever, so a stale identifier can never reach a
/// newer entity.
pub struct Arena<T> {
    slots: Vec<Option<T>>,
}

impl<T> View for Arena<T> {
    type V = Seq<Option<T>>;

    closed spec fn view(&self) -> Seq<Option<T>> {
        self.slots@
    }
}

impl<T> Arena<T> {
    pub open spec fn has(&self, k: u64) -> bool {
        k < self@.len() && self@[k as int] is Some
    }

    pub open spec fn at(&self, k: u64) -> T {
        self@[k as int]->Some_0
    }

    pub fn new() -> (r: Arena<T>)
        ensures
            r@ == Seq::<Option<T>>::empty(),
    {
        Arena { slots: Vec::new() }
    }

    /// Number of identifiers handed out so far.
    pub fn capacity(&self) -> (r: usize)
        ensures
            r == self@.len(),
    {
        self.slots.len()
    }

    /// The identifier that the next `insert` hands out.
    pub fn next_key(&self) -> (r: u64)
        ensures
            r == self@.len(),
    {
        self.slots.len() as u64
    }

    pub fn insert(&mut self, v: T) -> (k: u64)
        ensures
            k == old(self)@.len(),
            final(self)@ == old(self)@.push(Some(v)),
    {
        let k = self.slots.len() as u64;
        self.slots.push(Some(v));
        k
    }

    pub fn get(&self, k: u64) -> (r: Option<&T>)
        ensures
            r is Some <==> self.has(k),
            self.has(k) ==> *r->Some_0 == self.at(k),
    {
        if k < self.slots.len() as u64 {
            self.slots[k as usize].as_ref()
        } else {
            None
        }
    }

    pub fn contains(&self, k: u64) -> (r: bool)
        ensures
            r == self.has(k),
    {
        k < self.slots.len() as u64 && self.slots[k as usize].is_some()
    }

    /// Takes the entity out; its identifier becomes absent.
    pub fn remove(&mut self, k: u64) -> (r: Option<T>)
        ensures
            r is Some <==> old(self).has(k),
            old(self).has(k) ==> r->Some_0 == old(self).at(k) && final(self)@ == old(self)@.update(
                k as int,
                None,
            ),
            !old(self).has(k) ==> final(self)@ == old(self)@,
    {
        if k < self.slots.len() as u64 {
            self.slots[k as usize].take()
        } else {
            None
        }
    }

    /// Puts a value back under an identifier that was handed out before.
    pub fn set(&mut self, k: u64, v: T)
        requires
            k < old(self)@.len(),
        ensures
            final(self)@ == old(self)@.update(k as int, Some(v)),
    {
        let n = self.slots.len();
        assert(k < n);
        self.slots.set(k as usize, Some(v));
    }

    /// Removes every entity; identifiers already handed out stay absent.
    pub fn clear(&mut self)
        ensures
            final(self)@.len() == old(self)@.len(),
            forall|k: u64| !(#[trigger] final(self).has(k)),
    {
        let n = self.slots.len();
        let mut i: usize = 0;
        while i < n
            invariant
                n == self@.len(),
                n == old(self)@.len(),
                i <= n,
                forall|j: int| 0 <= j < i ==> self@[j] is None,
            decreases n - i,
        {
            self.slots.set(i, None);
            i += 1;
        }
    }

    pub fn is_empty(&self) -> (r: bool)
        ensures
            r == (forall|k: u64| !(#[trigger] self.has(k))),
    {
        let n = self.slots.len();
        let mut i: usize = 0;
        while i < n
            invariant
                n == self@.len(),
                i <= n,
                forall|j: int| 0 <= j < i ==> self@[j] is None,
            decreases n - i,
        {
            if self.slots[i].is_some() {
                assert(self.has(i as u64));
                return false;
            }
            i += 1;
        }
        proof {
            assert forall|k: u64| !(#[trigger] self.has(k)) by {
                if k < n {
                    assert(self@[k as int] is None);
                }
            }
        }
        true
    }
}

} // verus!
