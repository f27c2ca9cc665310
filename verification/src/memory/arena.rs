//! Bump allocation for per-frame temporary data, and a fixed-capacity
//! vector stored inline.

use vstd::prelude::*;
use vstd::layout::{size_of, align_of, layout_for_type_is_valid};
use core::marker::PhantomData;
use vstd::std_specs::iter::IteratorSpec;

verus! {

/// Smallest multiple of `align` that is at least `offset`.
pub open spec fn align_up(offset: int, align: int) -> int {
    if offset % align == 0 {
        offset
    } else {
        offset + (align - offset % align)
    }
}

/// A bump allocator for per-frame temporary data.
///
/// Allocation only advances an offset into a fixed buffer; `reset` rewinds
/// it for the next frame. The high water mark records the largest offset
/// ever reached.
pub struct FrameArena {
    /// The underlying buffer
    buffer: Vec<u8>,
    /// Current allocation offset
    offset: usize,
    /// High water mark for monitoring
    high_water_mark: usize,
}

impl FrameArena {
    /// Offset and high water mark never exceed the capacity, and the high
    /// water mark is at least the offset.
    #[verifier::type_invariant]
    closed spec fn wf(&self) -> bool {
        &&& self.offset <= self.buffer@.len()
        &&& self.high_water_mark <= self.buffer@.len()
        &&& self.offset <= self.high_water_mark
    }

    /// Bytes currently allocated.
    pub closed spec fn spec_used(&self) -> nat {
        self.offset as nat
    }

    /// Total size of the arena in bytes.
    pub closed spec fn spec_capacity(&self) -> nat {
        self.buffer@.len()
    }

    /// Largest number of bytes ever allocated at once.
    pub closed spec fn spec_high_water_mark(&self) -> nat {
        self.high_water_mark as nat
    }

    /// Bytes used never exceed the high water mark, which never exceeds the capacity.
    pub open spec fn consistent(&self) -> bool {
        self.spec_used() <= self.spec_high_water_mark() <= self.spec_capacity()
    }

    /// Create a new arena with the given capacity in bytes.
    pub fn new(capacity: usize) -> (a: Self)
        ensures
            a.spec_capacity() == capacity,
            a.spec_used() == 0,
            a.spec_high_water_mark() == 0,
            a.consistent(),
    {
        let buffer = vec![0u8; capacity];
        FrameArena { buffer, offset: 0, high_water_mark: 0 }
    }

    /// Allocate space for `count` items of type T.
    ///
    /// The allocation starts at the current offset rounded up to the
    /// alignment of T. Returns None, leaving the arena unchanged, when the
    /// allocation would not fit; otherwise advances the offset past it and
    /// raises the high water mark to the new offset if it is larger.
    pub fn allocate<T: Copy + Default>(&mut self, count: usize) -> (r: Option<ArenaVec<T>>)
        requires
            count * size_of::<T>() <= usize::MAX,
        ensures
            final(self).consistent(),
            ({
                let start = align_up(old(self).spec_used() as int, align_of::<T>() as int);
                let end = start + count * size_of::<T>();
                if end > old(self).spec_capacity() {
                    &&& r is None
                    &&& final(self).spec_used() == old(self).spec_used()
                    &&& final(self).spec_capacity() == old(self).spec_capacity()
                    &&& final(self).spec_high_water_mark() == old(self).spec_high_water_mark()
                } else {
                    &&& r matches Some(v) && v.spec_start() == start && v.spec_len() == 0
                        && v.spec_capacity() == count
                    &&& final(self).spec_used() == end
                    &&& final(self).spec_capacity() == old(self).spec_capacity()
                    &&& final(self).consistent()
                    &&& final(self).spec_high_water_mark() == (if end > old(
                        self,
                    ).spec_high_water_mark() {
                        end
                    } else {
                        old(self).spec_high_water_mark() as int
                    })
                }
            }),
    {
        proof {
            use_type_invariant(&*self);
        }
        layout_for_type_is_valid::<T>();
        let size = count * core::mem::size_of::<T>();
        let align = core::mem::align_of::<T>();
        let rem = self.offset % align;
        let cap = self.buffer.len();
        // The aligned start fits whenever the allocation does; compare
        // without overflowing.
        let pad: usize = if rem == 0 { 0 } else { align - rem };
        if pad > cap - self.offset || size > cap - self.offset - pad {
            return None;
        }
        let start = self.offset + pad;
        let end = start + size;
        if end > self.high_water_mark {
            self.high_water_mark = end;
        }
        self.offset = end;
        Some(ArenaVec { start, len: 0, capacity: count, _marker: PhantomData })
    }

    /// Reset the arena for the next frame; the high water mark is kept.
    pub fn reset(&mut self)
        ensures
            final(self).spec_used() == 0,
            final(self).spec_capacity() == old(self).spec_capacity(),
            final(self).spec_high_water_mark() == old(self).spec_high_water_mark(),
            final(self).consistent(),
    {
        proof {
            use_type_invariant(&*self);
        }
        self.offset = 0;
    }

    /// Get the current allocation offset (bytes used).
    pub fn used(&self) -> (u: usize)
        ensures
            u == self.spec_used(),
            self.consistent(),
    {
        proof {
            use_type_invariant(self);
        }
        self.offset
    }

    /// Get the total capacity in bytes.
    pub fn capacity(&self) -> (c: usize)
        ensures
            c == self.spec_capacity(),
    {
        self.buffer.len()
    }

    /// Get the high water mark (maximum bytes used).
    pub fn high_water_mark(&self) -> (h: usize)
        ensures
            h == self.spec_high_water_mark(),
    {
        self.high_water_mark
    }

    /// Get the remaining space in bytes.
    pub fn remaining(&self) -> (r: usize)
        ensures
            r == self.spec_capacity() - self.spec_used(),
    {
        proof {
            use_type_invariant(self);
        }
        self.buffer.len() - self.offset
    }
}

impl Default for FrameArena {
    /// An arena of 256 KiB.
    fn default() -> (a: Self)
        ensures
            a.spec_capacity() == 256 * 1024,
            a.spec_used() == 0,
            a.spec_high_water_mark() == 0,
    {
        Self::new(256 * 1024)
    }
}

/// A vector-like handle to space allocated in a frame arena.
pub struct ArenaVec<T> {
    /// Start offset in the arena buffer
    start: usize,
    /// Current number of elements
    len: usize,
    /// Maximum capacity
    capacity: usize,
    /// Type marker
    _marker: PhantomData<T>,
}

impl<T: Copy> ArenaVec<T> {
    /// Offset of the allocation in the arena.
    pub closed spec fn spec_start(&self) -> nat {
        self.start as nat
    }

    /// Number of elements.
    pub closed spec fn spec_len(&self) -> nat {
        self.len as nat
    }

    /// Maximum number of elements.
    pub closed spec fn spec_capacity(&self) -> nat {
        self.capacity as nat
    }

    /// Get the length.
    pub fn len(&self) -> (l: usize)
        ensures
            l == self.spec_len(),
    {
        self.len
    }

    /// Check if empty.
    pub fn is_empty(&self) -> (b: bool)
        ensures
            b == (self.spec_len() == 0),
    {
        self.len == 0
    }

    /// Get the capacity.
    pub fn capacity(&self) -> (c: usize)
        ensures
            c == self.spec_capacity(),
    {
        self.capacity
    }

    /// Check if full.
    pub fn is_full(&self) -> (b: bool)
        ensures
            b == (self.spec_len() >= self.spec_capacity()),
    {
        self.len >= self.capacity
    }

    /// Clear the vector (reset length, keep capacity).
    pub fn clear(&mut self)
        ensures
            final(self).spec_len() == 0,
            final(self).spec_capacity() == old(self).spec_capacity(),
            final(self).spec_start() == old(self).spec_start(),
    {
        self.len = 0;
    }
}

/// A fixed-capacity vector stored inline, holding at most `N` items.
#[derive(Debug)]
pub struct FixedVec<T, const N: usize> {
    data: [T; N],
    len: usize,
}

/// Mutable view of the first `n` slots of an array: `&mut data[..n]` from std
/// (range indexing of an array). Trusted: the returned slice holds the first
/// `n` items, and after the borrow the array holds what the slice was left
/// holding followed by its untouched remaining slots.
#[verifier::external_body]
fn prefix_mut<T, const N: usize>(data: &mut [T; N], n: usize) -> (r: &mut [T])
    requires
        n <= N,
    ensures
        r@ == old(data)@.take(n as int),
        final(data)@ == final(r)@ + old(data)@.skip(n as int),
    no_unwind
{
    &mut data[..n]
}

/// The mutable slice iterator of std, carried through opaquely.
#[verifier::external_type_specification]
#[verifier::external_body]
#[verifier::reject_recursive_types(T)]
pub struct ExSliceIterMut<'a, T: 'a>(core::slice::IterMut<'a, T>);

/// Mutable iterator over a slice: `<[T]>::iter_mut` from std. Trusted: the
/// iterator yields a mutable reference to each element of the slice, from
/// first to last, each reading the element's value at the call. What a
/// caller writes through those references back into the slice is left
/// unsaid.
#[verifier::external_body]
fn slice_iter_mut<'a, T>(s: &'a mut [T]) -> (it: core::slice::IterMut<'a, T>)
    ensures
        it.remaining().len() == old(s)@.len(),
        forall|i: int| 0 <= i < old(s)@.len() ==> *#[trigger] it.remaining()[i] == old(s)@[i],
    no_unwind
{
    s.iter_mut()
}

/// Mutable reference to slot `i` of an array.
fn slot_mut<T, const N: usize>(data: &mut [T; N], i: usize) -> (r: &mut T)
    requires
        i < N,
    ensures
        *r == old(data)@[i as int],
        final(data)@ == old(data)@.update(i as int, *final(r)),
    no_unwind
{
    &mut data[i]
}

impl<T, const N: usize> FixedVec<T, N> {
    /// The length never exceeds the capacity.
    #[verifier::type_invariant]
    closed spec fn wf(&self) -> bool {
        self.len <= N
    }
}

impl<T: Copy + Default, const N: usize> FixedVec<T, N> {

    /// The items held, in order.
    pub closed spec fn items(&self) -> Seq<T> {
        self.data@.take(self.len as int)
    }

    /// All `N` slots, including those past the length.
    pub closed spec fn slots(&self) -> Seq<T> {
        self.data@
    }

    /// Create a new empty FixedVec.
    pub fn new() -> (v: Self)
        ensures
            v.items().len() == 0,
    {
        let d = T::default();
        FixedVec { data: [d; N], len: 0 }
    }

    /// Push an item if there is space; returns whether it was pushed.
    pub fn push(&mut self, item: T) -> (pushed: bool)
        ensures
            pushed == (old(self).items().len() < N),
            pushed ==> final(self).items() == old(self).items().push(item),
            pushed ==> final(self).slots() == old(self).slots().update(
                old(self).items().len() as int,
                item,
            ),
            !pushed ==> final(self).items() == old(self).items(),
            !pushed ==> final(self).slots() == old(self).slots(),
    {
        proof {
            use_type_invariant(&*self);
        }
        if self.len < N {
            let ghost before = self.data@;
            self.data[self.len] = item;
            proof {
                assert(self.data@.take(self.len + 1) =~= before.take(self.len as int).push(item));
            }
            self.len = self.len + 1;
            true
        } else {
            false
        }
    }

    /// Remove and return the last item, if any.
    pub fn pop(&mut self) -> (r: Option<T>)
        ensures
            old(self).items().len() == 0 ==> r is None && final(self).items() == old(self).items(),
            old(self).items().len() > 0 ==> r == Some(old(self).items().last())
                && final(self).items() == old(self).items().drop_last(),
            final(self).slots() == old(self).slots(),
    {
        proof {
            use_type_invariant(&*self);
        }
        if self.len > 0 {
            self.len = self.len - 1;
            proof {
                assert(self.data@.take(self.len as int) =~= self.data@.take(self.len + 1).drop_last());
            }
            Some(self.data[self.len])
        } else {
            None
        }
    }

    /// Get the length.
    pub fn len(&self) -> (l: usize)
        ensures
            l == self.items().len(),
            l <= N,
    {
        proof {
            use_type_invariant(self);
        }
        self.len
    }

    /// Check if empty.
    pub fn is_empty(&self) -> (b: bool)
        ensures
            b == (self.items().len() == 0),
    {
        proof {
            use_type_invariant(self);
        }
        self.len == 0
    }

    /// Check if full.
    pub fn is_full(&self) -> (b: bool)
        ensures
            b == (self.items().len() >= N),
    {
        proof {
            use_type_invariant(self);
        }
        self.len >= N
    }

    /// Get the capacity `N`.
    pub fn capacity(&self) -> (c: usize)
        ensures
            c == N,
    {
        N
    }

    /// Clear the vector; the slots keep their contents.
    pub fn clear(&mut self)
        ensures
            final(self).items().len() == 0,
            final(self).slots() == old(self).slots(),
    {
        self.len = 0;
    }

    /// The items held, as a slice.
    pub fn as_slice(&self) -> (s: &[T])
        ensures
            s@ == self.items(),
            forall|i: int| 0 <= i < s@.len() ==> s@[i] == self.slots()[i],
    {
        proof {
            use_type_invariant(self);
        }
        &self.data.as_slice()[0..self.len]
    }

    /// The items held, as a mutable slice.
    pub fn as_mut_slice(&mut self) -> (s: &mut [T])
        ensures
            s@ == old(self).items(),
            final(self).items() == final(s)@,
            final(self).slots().subrange(old(self).items().len() as int, N as int) == old(
                self,
            ).slots().subrange(old(self).items().len() as int, N as int),
    {
        proof {
            use_type_invariant(&*self);
        }
        let n = self.len;
        prefix_mut(&mut self.data, n)
    }

    /// Get an item by index, if the index is below the length.
    pub fn get(&self, index: usize) -> (r: Option<&T>)
        ensures
            index < self.items().len() ==> r == Some(&self.items()[index as int]),
            index >= self.items().len() ==> r is None,
    {
        proof {
            use_type_invariant(self);
        }
        if index < self.len {
            Some(&self.data[index])
        } else {
            None
        }
    }

    /// Get a mutable reference to an item, if the index is below the length.
    pub fn get_mut(&mut self, index: usize) -> (r: Option<&mut T>)
        ensures
            index < old(self).items().len() ==> (r matches Some(x) && *x == old(self).items()[index as int]
                && final(self).items() == old(self).items().update(index as int, *final(x))),
            index >= old(self).items().len() ==> r is None && final(self).items() == old(self).items(),
    {
        proof {
            use_type_invariant(&*self);
        }
        if index < self.len {
            Some(slot_mut(&mut self.data, index))
        } else {
            None
        }
    }

    /// Iterate mutably over the items: a mutable reference to each item, in
    /// order. The number of items and the slots past them stay as they are;
    /// the values written through the iterator are not stated.
    pub fn iter_mut(&mut self) -> (it: core::slice::IterMut<'_, T>)
        ensures
            it.remaining().len() == old(self).items().len(),
            forall|i: int|
                0 <= i < old(self).items().len() ==> *#[trigger] it.remaining()[i] == old(
                    self,
                ).items()[i],
            final(self).items().len() == old(self).items().len(),
            final(self).slots().subrange(old(self).items().len() as int, N as int) == old(
                self,
            ).slots().subrange(old(self).items().len() as int, N as int),
    {
        proof {
            use_type_invariant(&*self);
        }
        let n = self.len;
        slice_iter_mut(prefix_mut(&mut self.data, n))
    }

    /// Iterate over the items.
    pub fn iter(&self) -> (it: core::slice::Iter<'_, T>)
        ensures
            it.remaining() == self.items().as_ref(),
    {
        self.as_slice().iter()
    }
}

impl<T: Copy + Default, const N: usize> Clone for FixedVec<T, N> {
    /// A copy holding the same slots and items.
    fn clone(&self) -> (c: Self)
        ensures
            c.items() == self.items(),
            c.slots() == self.slots(),
    {
        proof {
            use_type_invariant(self);
        }
        FixedVec { data: self.data, len: self.len }
    }
}

impl<T: Copy + Default, const N: usize> Default for FixedVec<T, N> {
    /// An empty FixedVec.
    fn default() -> (v: Self)
        ensures
            v.items().len() == 0,
    {
        Self::new()
    }
}

impl<T: Copy + Default, const N: usize> core::ops::Index<usize> for FixedVec<T, N> {
    type Output = T;

    /// Read slot `index` (any index below the capacity `N`).
    fn index(&self, index: usize) -> (r: &T)
        ensures
            *r == self.slots()[index as int],
    {
        &self.data[index]
    }
}

impl<T: Copy + Default, const N: usize> core::ops::IndexMut<usize> for FixedVec<T, N> {
    /// Mutable reference to slot `index` (any index below the capacity `N`).
    fn index_mut(&mut self, index: usize) -> (r: &mut T)
        requires
            index < N,
        ensures
            *r == old(self).slots()[index as int],
            final(self).slots() == old(self).slots().update(index as int, *final(r)),
            final(self).items() == final(self).slots().take(old(self).items().len() as int),
    {
        proof {
            use_type_invariant(&*self);
        }
        slot_mut(&mut self.data, index)
    }
}

impl<T: Copy + Default, const N: usize> vstd::std_specs::core::IndexSpecImpl<usize> for FixedVec<T, N> {
    open spec fn index_req(&self, index: &usize) -> bool {
        *index < N
    }
}

/// Pushing onto a vector that has room and then popping gives back the
/// pushed item and leaves the items as they were before the push.
pub proof fn lemma_push_then_pop<T: Copy + Default, const N: usize>(
    before: FixedVec<T, N>,
    pushed: FixedVec<T, N>,
    popped: FixedVec<T, N>,
    x: T,
    r: Option<T>,
)
    requires
        before.items().len() < N,
        pushed.items() == before.items().push(x),
        pushed.items().len() > 0 ==> r == Some(pushed.items().last()) && popped.items()
            == pushed.items().drop_last(),
    ensures
        r == Some(x),
        popped.items() == before.items(),
{
    assert(before.items().push(x).drop_last() =~= before.items());
}

/// Rounding up to an alignment gives a multiple of it that is at least the
/// offset and less than one alignment above it.
pub proof fn lemma_align_up(offset: int, align: int)
    requires
        offset >= 0,
        align > 0,
    ensures
        offset <= align_up(offset, align) < offset + align,
        align_up(offset, align) % align == 0,
{
    let r = offset % align;
    assert(0 <= r < align);
    if r != 0 {
        assert((offset + (align - r)) % align == 0) by {
            vstd::arithmetic::div_mod::lemma_fundamental_div_mod(offset, align);
            vstd::arithmetic::div_mod::lemma_mod_multiples_basic(offset / align + 1, align);
            assert(offset + (align - r) == (offset / align + 1) * align) by (nonlinear_arith)
                requires
                    offset == align * (offset / align) + r,
            ;
        }
    }
}

/// Allocations made one after the other, with no reset in between, never
/// overlap: the later one starts past the end of the earlier one, at a
/// multiple of its own type's alignment.
pub proof fn lemma_allocations_disjoint<T: Copy, U: Copy>(
    between: FrameArena,
    first: ArenaVec<T>,
    second: ArenaVec<U>,
)
    requires
        align_of::<U>() > 0,
        between.spec_used() == first.spec_start() + first.spec_capacity() * size_of::<T>(),
        second.spec_start() == align_up(between.spec_used() as int, align_of::<U>() as int),
    ensures
        second.spec_start() >= first.spec_start() + first.spec_capacity() * size_of::<T>(),
        second.spec_start() % align_of::<U>() == 0,
{
    lemma_align_up(between.spec_used() as int, align_of::<U>() as int);
}

} // verus!
