use vstd::prelude::*;
use vstd::std_specs::iter::IteratorSpec;

verus! {

/// The contents after pushing `value` onto contents `s` in storage of
/// capacity `cap`, and whether the push succeeded.
pub open spec fn pushed<T>(s: Seq<T>, cap: nat, value: T) -> (Seq<T>, bool) {
    if s.len() < cap {
        (s.push(value), true)
    } else {
        (s, false)
    }
}

/// The contents after a pop from contents `s`, and the element returned.
pub open spec fn popped<T>(s: Seq<T>) -> (Seq<T>, Option<T>) {
    if s.len() == 0 {
        (s, None)
    } else {
        (s.drop_last(), Some(s.last()))
    }
}

/// The contents after truncating contents `s` to at most `n` elements.
pub open spec fn truncated<T>(s: Seq<T>, n: nat) -> Seq<T> {
    if n < s.len() {
        s.subrange(0, n as int)
    } else {
        s
    }
}

/// The contents after pushing each of `xs` in order onto contents `s` in
/// storage of capacity `cap`, and how many of those pushes failed.
pub open spec fn pushed_each<T>(s: Seq<T>, cap: nat, xs: Seq<T>) -> (Seq<T>, nat)
    decreases xs.len(),
{
    if xs.len() == 0 {
        (s, 0)
    } else {
        let (t, failures) = pushed_each(s, cap, xs.drop_last());
        let (u, ok) = pushed(t, cap, xs.last());
        (u, if ok { failures } else { failures + 1 })
    }
}

/// Pushing up to `cap` values onto an empty vector of capacity `cap` never
/// fails and leaves exactly those values, in order, so the length is the
/// number of pushes; once full, the next push fails and changes nothing.
pub proof fn lemma_push_until_full<T>(cap: nat, xs: Seq<T>, next: T)
    requires
        xs.len() <= cap,
    ensures
        pushed_each(Seq::<T>::empty(), cap, xs) == (xs, 0nat),
        xs.len() == cap ==> pushed(xs, cap, next) == (xs, false),
    decreases xs.len(),
{
    if xs.len() > 0 {
        lemma_push_until_full(cap, xs.drop_last(), next);
        assert(xs.drop_last().push(xs.last()) =~= xs);
    }
}

/// A pop undoes the push just before it and returns the pushed value, so
/// pushes and pops interleave in last-in, first-out order; a pop of nothing
/// returns nothing.
pub proof fn lemma_pop_undoes_push<T>(s: Seq<T>, cap: nat, x: T)
    requires
        s.len() < cap,
    ensures
        popped(pushed(s, cap, x).0) == (s, Some(x)),
        popped(Seq::<T>::empty()) == (Seq::<T>::empty(), None::<T>),
{
    assert(s.push(x).drop_last() =~= s);
}

/// After pushing `xs` (at most `cap` of them) onto an empty vector, a pop
/// returns the last value pushed and shortens the vector by one.
pub proof fn lemma_pop_after_pushes<T>(cap: nat, xs: Seq<T>)
    requires
        0 < xs.len() <= cap,
    ensures
        popped(pushed_each(Seq::<T>::empty(), cap, xs).0) == (xs.drop_last(), Some(xs.last())),
{
    lemma_push_until_full(cap, xs, xs.last());
}

/// Truncation never lengthens, and truncating to the length or beyond
/// changes nothing.
pub proof fn lemma_truncate_never_grows<T>(s: Seq<T>, k: nat)
    ensures
        truncated(s, k).len() <= s.len(),
        k >= s.len() ==> truncated(s, k) == s,
{
}

/// Reading a slot gives the value that `set` last wrote there; the other
/// slots keep their values.
pub proof fn lemma_read_after_set<T>(s: Seq<T>, i: int, v: T)
    requires
        0 <= i < s.len(),
    ensures
        s.update(i, v)[i] == v,
        forall|j: int| 0 <= j < s.len() && j != i ==> #[trigger] s.update(i, v)[j] == s[j],
{
}

/// Reading the slot that a successful push filled gives the pushed value;
/// the earlier slots keep their values.
pub proof fn lemma_read_after_push<T>(s: Seq<T>, cap: nat, x: T)
    requires
        s.len() < cap,
    ensures
        pushed(s, cap, x).0[s.len() as int] == x,
        forall|j: int| 0 <= j < s.len() ==> #[trigger] pushed(s, cap, x).0[j] == s[j],
{
}

/// A fixed-capacity vector that lives entirely in storage lent by the caller.
///
/// The logical contents are the first `len` slots of the storage; the slots
/// past `len` hold stale values that the vector never hands out.
pub struct StackVec<'a, T> {
    storage: &'a mut [T],
    len: usize,
}

impl<'a, T> StackVec<'a, T> {
    /// The number of slots of the backing storage.
    pub closed spec fn spec_capacity(&self) -> nat {
        self.storage@.len()
    }

    /// The logical contents: the first `len` slots of the storage.
    pub closed spec fn view(&self) -> Seq<T> {
        self.storage@.subrange(0, self.len as int)
    }

    /// The length stays within the storage.
    pub closed spec fn well_formed(&self) -> bool {
        self.len <= self.storage@.len()
    }

    /// A well-formed vector holds no more elements than its capacity.
    pub proof fn lemma_len_le_capacity(&self)
        requires
            self.well_formed(),
        ensures
            self@.len() <= self.spec_capacity(),
    {
    }

    /// Binds an empty vector to `storage`.
    pub fn new(storage: &'a mut [T]) -> (r: StackVec<'a, T>)
        ensures
            r.well_formed(),
            r@ == Seq::<T>::empty(),
            r.spec_capacity() == old(storage)@.len(),
    {
        StackVec { storage, len: 0 }
    }

    /// Binds a vector to `storage` whose first `len` slots count as already
    /// pushed.
    pub fn with_len(storage: &'a mut [T], len: usize) -> (r: StackVec<'a, T>)
        requires
            len <= old(storage)@.len(),
        ensures
            r.well_formed(),
            r@ == old(storage)@.subrange(0, len as int),
            r.spec_capacity() == old(storage)@.len(),
    {
        StackVec { storage, len }
    }

    /// The number of slots of the backing storage.
    pub fn capacity(&self) -> (r: usize)
        ensures
            r == self.spec_capacity(),
    {
        self.storage.len()
    }

    /// The number of elements in the vector.
    pub fn len(&self) -> (r: usize)
        requires
            self.well_formed(),
        ensures
            r == self@.len(),
    {
        self.len
    }

    /// Whether the vector holds no element.
    pub fn is_empty(&self) -> (r: bool)
        requires
            self.well_formed(),
        ensures
            r == (self@.len() == 0),
    {
        self.len == 0
    }

    /// Whether every slot of the storage is in use.
    pub fn is_full(&self) -> (r: bool)
        requires
            self.well_formed(),
        ensures
            r == (self@.len() == self.spec_capacity()),
    {
        self.len == self.storage.len()
    }

    /// Appends `value` when a slot is free; otherwise leaves the vector as it
    /// was and returns `Err(())`.
    pub fn push(&mut self, value: T) -> (r: Result<(), ()>)
        requires
            old(self).well_formed(),
        ensures
            final(self).well_formed(),
            final(self).spec_capacity() == old(self).spec_capacity(),
            (final(self)@, r is Ok) == pushed(old(self)@, old(self).spec_capacity(), value),
    {
        if self.len < self.storage.len() {
            let i = self.len;
            self.storage[i] = value;
            self.len = i + 1;
            proof {
                assert(self@ =~= old(self)@.push(value));
            }
            Ok(())
        } else {
            Err(())
        }
    }

    /// Shortens the vector to at most `n` elements; never lengthens it.
    pub fn truncate(&mut self, n: usize)
        requires
            old(self).well_formed(),
        ensures
            final(self).well_formed(),
            final(self).spec_capacity() == old(self).spec_capacity(),
            final(self)@ == truncated(old(self)@, n as nat),
    {
        if n < self.len {
            self.len = n;
            proof {
                assert(self@ =~= old(self)@.subrange(0, n as int));
            }
        }
    }

    /// The first `len` slots, clipped to the storage.
    fn live(&self) -> (r: &[T])
        ensures
            self.well_formed() ==> r@ == self@,
    {
        let whole: &[T] = &*self.storage;
        let n = if self.len <= whole.len() {
            self.len
        } else {
            whole.len()
        };
        &whole[0..n]
    }

    /// The elements as a slice, exactly the first `len` slots.
    pub fn as_slice(&self) -> (r: &[T])
        requires
            self.well_formed(),
        ensures
            r@ == self@,
    {
        self.live()
    }

    /// The elements as a mutable slice, exactly the first `len` slots; writes
    /// through it land in the vector. A slice cannot change its length through
    /// a mutable borrow, so the premise of the last clause always holds.
    pub fn as_mut_slice(&mut self) -> (r: &mut [T])
        requires
            old(self).well_formed(),
        ensures
            r@ == old(self)@,
            final(r)@.len() == r@.len() ==> {
                &&& final(self).well_formed()
                &&& final(self).spec_capacity() == old(self).spec_capacity()
                &&& final(self)@ == final(r)@
            },
    {
        let len = self.len;
        let (front, _) = self.storage.split_at_mut(len);
        front
    }

    /// A reference to the element at index `i`.
    pub fn get(&self, i: usize) -> (r: &T)
        requires
            self.well_formed(),
            i < self@.len(),
        ensures
            *r == self@[i as int],
    {
        &self.live()[i]
    }

    /// Overwrites the element at index `i` with `value`.
    pub fn set(&mut self, i: usize, value: T)
        requires
            old(self).well_formed(),
            i < old(self)@.len(),
        ensures
            final(self).well_formed(),
            final(self).spec_capacity() == old(self).spec_capacity(),
            final(self)@ == old(self)@.update(i as int, value),
    {
        let len = self.len;
        let (front, _) = self.storage.split_at_mut(len);
        front[i] = value;
        proof {
            assert(self@ =~= old(self)@.update(i as int, value));
        }
    }

    /// An iterator over the elements in index order.
    pub fn iter(&self) -> (r: core::slice::Iter<'_, T>)
        requires
            self.well_formed(),
        ensures
            r.remaining() == self@.as_ref(),
    {
        self.as_slice().iter()
    }
}

impl<'a, T: Copy> StackVec<'a, T> {
    /// Removes and returns the last element, or `None` when the vector is
    /// empty.
    pub fn pop(&mut self) -> (r: Option<T>)
        requires
            old(self).well_formed(),
        ensures
            final(self).well_formed(),
            final(self).spec_capacity() == old(self).spec_capacity(),
            (final(self)@, r) == popped(old(self)@),
    {
        if self.len == 0 {
            None
        } else {
            let i = self.len - 1;
            self.len = i;
            proof {
                assert(self@ =~= old(self)@.drop_last());
            }
            Some(self.storage[i])
        }
    }
}

} // verus!

verus! {

impl<'a, T> core::ops::Index<usize> for StackVec<'a, T> {
    type Output = T;

    fn index(&self, i: usize) -> &T {
        self.get(i)
    }
}

impl<'a, T> vstd::std_specs::core::IndexSpecImpl<usize> for StackVec<'a, T> {
    open spec fn index_req(&self, i: &usize) -> bool {
        self.well_formed() && *i < self@.len()
    }
}

impl<'a, 'b, T> core::iter::IntoIterator for &'b StackVec<'a, T> {
    type Item = &'b T;
    type IntoIter = core::slice::Iter<'b, T>;

    fn into_iter(self) -> core::slice::Iter<'b, T> {
        self.live().iter()
    }
}

impl<'a, T> core::iter::IntoIterator for StackVec<'a, T> {
    type Item = &'a T;
    type IntoIter = core::slice::Iter<'a, T>;

    fn into_iter(self) -> core::slice::Iter<'a, T> {
        let whole: &'a [T] = self.storage;
        let len = if self.len <= whole.len() {
            self.len
        } else {
            whole.len()
        };
        whole[0..len].iter()
    }
}

} // verus!
