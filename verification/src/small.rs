//! The fixed-capacity vectors of `tinyvec` that the editor keeps short
//! sequences in, and the calls it makes on them.
use crate::input::Input;
use tinyvec::{ArrayVec, TinyVec};
use vstd::prelude::*;

verus! {

#[verifier::external_type_specification]
#[verifier::external_body]
#[verifier::reject_recursive_types(A)]
pub struct ExArrayVec<A>(ArrayVec<A>);

/// The characters held by an `ArrayVec<[char; 16]>`, in order.
pub uninterp spec fn chars16(v: ArrayVec<[char; 16]>) -> Seq<char>;

/// `ArrayVec::new`: an empty vector.
#[verifier::external_body]
pub(crate) fn chars16_new() -> (v: ArrayVec<[char; 16]>)
    ensures
        chars16(v) == Seq::<char>::empty(),
{
    ArrayVec::new()
}

/// `ArrayVec::push`: appends `c`; it panics when the vector is full, which
/// the `requires` rules out.
#[verifier::external_body]
pub(crate) fn chars16_push(v: &mut ArrayVec<[char; 16]>, c: char)
    requires
        chars16(*old(v)).len() < 16,
    ensures
        chars16(*final(v)) == chars16(*old(v)).push(c),
{
    v.push(c)
}

/// `ArrayVec::as_slice`: the held characters as a slice.
#[verifier::external_body]
pub(crate) fn chars16_as_slice(v: &ArrayVec<[char; 16]>) -> (r: &[char])
    ensures
        r@ == chars16(*v),
{
    v.as_slice()
}

/// `ArrayVec::len`: the number of held characters.
#[verifier::external_body]
pub(crate) fn chars16_len(v: &ArrayVec<[char; 16]>) -> (r: usize)
    ensures
        r == chars16(*v).len(),
{
    v.len()
}

/// The bytes held by an `ArrayVec<[u8; 6]>`, in order.
pub uninterp spec fn bytes6(v: ArrayVec<[u8; 6]>) -> Seq<u8>;

/// `ArrayVec::new`: an empty vector.
#[verifier::external_body]
pub(crate) fn bytes6_new() -> (v: ArrayVec<[u8; 6]>)
    ensures
        bytes6(v) == Seq::<u8>::empty(),
{
    ArrayVec::new()
}

/// `ArrayVec::push`: appends `b`; it panics when the vector is full, which
/// the `requires` rules out.
#[verifier::external_body]
pub(crate) fn bytes6_push(v: &mut ArrayVec<[u8; 6]>, b: u8)
    requires
        bytes6(*old(v)).len() < 6,
    ensures
        bytes6(*final(v)) == bytes6(*old(v)).push(b),
{
    v.push(b)
}

/// `ArrayVec::try_push`: appends `b` and gives back `None` when there is
/// room, else leaves the vector as it is and gives `b` back.
#[verifier::external_body]
pub(crate) fn bytes6_try_push(v: &mut ArrayVec<[u8; 6]>, b: u8) -> (r: Option<u8>)
    ensures
        bytes6(*old(v)).len() < 6 ==> r is None && bytes6(*final(v)) == bytes6(*old(v)).push(b),
        bytes6(*old(v)).len() >= 6 ==> r == Some(b) && bytes6(*final(v)) == bytes6(*old(v)),
{
    v.try_push(b)
}

/// `ArrayVec::len`: the number of held bytes.
#[verifier::external_body]
pub(crate) fn bytes6_len(v: &ArrayVec<[u8; 6]>) -> (r: usize)
    ensures
        r == bytes6(*v).len(),
{
    v.len()
}

/// `ArrayVec::capacity`: how many bytes the vector can hold.
#[verifier::external_body]
pub(crate) fn bytes6_capacity(v: &ArrayVec<[u8; 6]>) -> (r: usize)
    ensures
        r == 6,
{
    v.capacity()
}

/// `ArrayVec::remove`: takes out the byte at `index`, shifting the rest
/// down; it panics on an index out of bounds, which the `requires` rules out.
#[verifier::external_body]
pub(crate) fn bytes6_remove(v: &mut ArrayVec<[u8; 6]>, index: usize) -> (r: u8)
    requires
        index < bytes6(*old(v)).len(),
    ensures
        r == bytes6(*old(v))[index as int],
        bytes6(*final(v)) == bytes6(*old(v)).remove(index as int),
{
    v.remove(index)
}

/// `ArrayVec::as_slice`: the held bytes as a slice.
#[verifier::external_body]
pub(crate) fn bytes6_as_slice(v: &ArrayVec<[u8; 6]>) -> (r: &[u8])
    ensures
        r@ == bytes6(*v),
{
    v.as_slice()
}

/// The bytes held by an `ArrayVec<[u8; 4]>`, in order.
pub uninterp spec fn bytes4(v: ArrayVec<[u8; 4]>) -> Seq<u8>;

/// `ArrayVec::new`: an empty vector.
#[verifier::external_body]
pub(crate) fn bytes4_new() -> (v: ArrayVec<[u8; 4]>)
    ensures
        bytes4(v) == Seq::<u8>::empty(),
{
    ArrayVec::new()
}

/// `ArrayVec::clear`: empties the vector.
#[verifier::external_body]
pub(crate) fn bytes4_clear(v: &mut ArrayVec<[u8; 4]>)
    ensures
        bytes4(*final(v)) == Seq::<u8>::empty(),
{
    v.clear()
}

/// `ArrayVec::push`: appends `b`; it panics when the vector is full, which
/// the `requires` rules out.
#[verifier::external_body]
pub(crate) fn bytes4_push(v: &mut ArrayVec<[u8; 4]>, b: u8)
    requires
        bytes4(*old(v)).len() < 4,
    ensures
        bytes4(*final(v)) == bytes4(*old(v)).push(b),
{
    v.push(b)
}

/// `ArrayVec::len`: the number of held bytes.
#[verifier::external_body]
pub(crate) fn bytes4_len(v: &ArrayVec<[u8; 4]>) -> (r: usize)
    ensures
        r == bytes4(*v).len(),
{
    v.len()
}

/// `ArrayVec::as_slice`: the held bytes as a slice.
#[verifier::external_body]
pub(crate) fn bytes4_as_slice(v: &ArrayVec<[u8; 4]>) -> (r: &[u8])
    ensures
        r@ == bytes4(*v),
{
    v.as_slice()
}

/// The keys typed so far towards a mapping, held in a
/// `TinyVec<[Input; 4]>` (inline up to four keys, on the heap beyond).
#[verifier::external_body]
pub struct InputQueue {
    inner: TinyVec<[Input; 4]>,
}

/// The keys held by an `InputQueue`, in order.
pub uninterp spec fn queued(q: InputQueue) -> Seq<Input>;

/// `TinyVec::new`: an empty queue.
#[verifier::external_body]
pub(crate) fn queue_new() -> (q: InputQueue)
    ensures
        queued(q) == Seq::<Input>::empty(),
{
    InputQueue { inner: TinyVec::new() }
}

/// `TinyVec::push`: appends a key (moving to the heap when the inline
/// array is full).
#[verifier::external_body]
pub(crate) fn queue_push(q: &mut InputQueue, i: Input)
    ensures
        queued(*final(q)) == queued(*old(q)).push(i),
{
    q.inner.push(i)
}

/// `TinyVec::clear`: empties the queue.
#[verifier::external_body]
pub(crate) fn queue_clear(q: &mut InputQueue)
    ensures
        queued(*final(q)) == Seq::<Input>::empty(),
{
    q.inner.clear()
}

/// `TinyVec::as_slice`: the held keys as a slice.
#[verifier::external_body]
pub(crate) fn queue_as_slice(q: &InputQueue) -> (r: &[Input])
    ensures
        r@ == queued(*q),
{
    q.inner.as_slice()
}

} // verus!
