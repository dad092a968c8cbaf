//! The two inline byte buffers of a packet: the peek window read from the
//! start of a frame and the head that is written out in front of its tail.
//! Both are `ArrayVec`s; what is said of them here is taken on trust.

use arrayvec::ArrayVec;
use arrayvec::CapacityError;
use vstd::prelude::*;

verus! {

/// `arrayvec::ArrayVec`, a vector that lies in an array of fixed capacity.
/// Nothing of what is inside it is known but through the functions below.
#[verifier::external_type_specification]
#[verifier::external_body]
#[verifier::reject_recursive_types(T)]
pub struct ExArrayVec<T, const CAP: usize>(ArrayVec<T, CAP>);

/// `arrayvec::CapacityError`, the error of an `ArrayVec` that is full.
#[verifier::external_type_specification]
#[verifier::external_body]
#[verifier::reject_recursive_types(T)]
pub struct ExCapacityError<T>(CapacityError<T>);

/// Capacity of the peek window.
pub const PEEK_CAPACITY: usize = 64;

/// Capacity of an outgoing head.
pub const HEAD_CAPACITY: usize = 128;

/// The bytes that a peek window holds, first to last.
pub uninterp spec fn peek_bytes(buf: ArrayVec<u8, 64>) -> Seq<u8>;

/// The bytes that an outgoing head holds, first to last.
pub uninterp spec fn head_bytes(buf: ArrayVec<u8, 128>) -> Seq<u8>;

/// `ArrayVec::from` on a full array: the window holds the array's 64 bytes.
#[verifier::external_body]
pub(crate) fn peek_from_array(head: [u8; 64]) -> (buf: ArrayVec<u8, 64>)
    ensures
        peek_bytes(buf) == head@,
{
    ArrayVec::from(head)
}

/// `ArrayVec::truncate`: keeps the first `n` bytes, or all of them where the
/// window holds no more than `n`.
#[verifier::external_body]
pub(crate) fn peek_truncate(buf: &mut ArrayVec<u8, 64>, n: usize)
    ensures
        peek_bytes(*final(buf)) == if n < peek_bytes(*old(buf)).len() {
            peek_bytes(*old(buf)).take(n as int)
        } else {
            peek_bytes(*old(buf))
        },
{
    buf.truncate(n)
}

/// `ArrayVec::as_slice`: the window's bytes, never more than its capacity.
#[verifier::external_body]
pub(crate) fn peek_as_slice(buf: &ArrayVec<u8, 64>) -> (s: &[u8])
    ensures
        s@ == peek_bytes(*buf),
        s@.len() <= PEEK_CAPACITY,
{
    buf.as_slice()
}

/// `ArrayVec::as_mut_slice`: the window's bytes, open to writing in place;
/// the window's length stays.
#[verifier::external_body]
pub(crate) fn peek_as_mut_slice(buf: &mut ArrayVec<u8, 64>) -> (s: &mut [u8])
    ensures
        s@ == peek_bytes(*old(buf)),
        peek_bytes(*final(buf)) == final(s)@,
{
    buf.as_mut_slice()
}

/// `Clone::clone` of a window: the copy holds the same bytes.
#[verifier::external_body]
pub(crate) fn peek_clone(buf: &ArrayVec<u8, 64>) -> (copy: ArrayVec<u8, 64>)
    ensures
        peek_bytes(copy) == peek_bytes(*buf),
{
    buf.clone()
}

/// `ArrayVec::new`: an empty head.
#[verifier::external_body]
pub(crate) fn head_new() -> (buf: ArrayVec<u8, 128>)
    ensures
        head_bytes(buf) == Seq::<u8>::empty(),
{
    ArrayVec::new()
}

/// `ArrayVec::try_extend_from_slice`: appends `other` where it fits in what
/// is left of the capacity, and otherwise fails and changes nothing.
#[verifier::external_body]
pub(crate) fn head_try_extend(buf: &mut ArrayVec<u8, 128>, other: &[u8]) -> (r: Result<
    (),
    CapacityError,
>)
    ensures
        r is Ok <==> head_bytes(*old(buf)).len() + other@.len() <= HEAD_CAPACITY,
        r is Ok ==> head_bytes(*final(buf)) == head_bytes(*old(buf)) + other@,
        r is Err ==> head_bytes(*final(buf)) == head_bytes(*old(buf)),
{
    buf.try_extend_from_slice(other)
}

/// `ArrayVec::as_slice`: the head's bytes, never more than its capacity.
#[verifier::external_body]
pub(crate) fn head_as_slice(buf: &ArrayVec<u8, 128>) -> (s: &[u8])
    ensures
        s@ == head_bytes(*buf),
        s@.len() <= HEAD_CAPACITY,
{
    buf.as_slice()
}

} // verus!
