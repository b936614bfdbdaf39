use vstd::prelude::*;

verus! {

#[verifier::external_type_specification]
#[verifier::external_body]
pub struct ExBump<const MIN_ALIGN: usize>(bumpalo::Bump<MIN_ALIGN>);

/// A growable byte string that lives in a bump arena.
///
/// It holds a `bumpalo::collections::Vec<u8>`; what it contains is named by
/// [`arena_bytes`], and each operation below states its effect on that.
#[verifier::external_body]
#[derive(Debug, PartialEq, Eq, PartialOrd, Ord)]
pub struct BumpBytes<'bump> {
    inner: bumpalo::collections::Vec<'bump, u8>,
}

/// The bytes that an arena byte string holds, first to last.
pub uninterp spec fn arena_bytes(b: &BumpBytes) -> Seq<u8>;

impl<'bump> View for BumpBytes<'bump> {
    type V = Seq<u8>;

    open spec fn view(&self) -> Seq<u8> {
        arena_bytes(self)
    }
}

/// `bumpalo::Bump::new`: a fresh arena. Nothing is claimed of it.
#[verifier::external_body]
pub(crate) fn arena_create() -> (arena: bumpalo::Bump) {
    bumpalo::Bump::new()
}

/// `bumpalo::collections::Vec::new_in`: the new vector holds nothing.
#[verifier::external_body]
fn arena_new<'a>(arena: &'a bumpalo::Bump) -> (b: BumpBytes<'a>)
    ensures
        arena_bytes(&b) == Seq::<u8>::empty(),
{
    BumpBytes { inner: bumpalo::collections::Vec::new_in(arena) }
}

/// `bumpalo::collections::Vec::push`: appends one byte at the end.
#[verifier::external_body]
fn arena_push(b: &mut BumpBytes, byte: u8)
    ensures
        arena_bytes(final(b)) == arena_bytes(old(b)).push(byte),
{
    b.inner.push(byte)
}

/// `bumpalo::collections::Vec::extend_from_slice`: appends the slice's bytes
/// in order.
#[verifier::external_body]
fn arena_extend(b: &mut BumpBytes, other: &[u8])
    ensures
        arena_bytes(final(b)) == arena_bytes(old(b)) + other@,
{
    b.inner.extend_from_slice(other)
}

/// `bumpalo::collections::Vec::as_slice`: the whole contents as a slice.
#[verifier::external_body]
fn arena_slice<'a>(b: &'a BumpBytes) -> (s: &'a [u8])
    ensures
        s@ == arena_bytes(b),
{
    b.inner.as_slice()
}

/// `bumpalo::collections::Vec::len`: the number of bytes held.
#[verifier::external_body]
fn arena_len(b: &BumpBytes) -> (n: usize)
    ensures
        n == arena_bytes(b).len(),
{
    b.inner.len()
}

impl<'bump> BumpBytes<'bump> {
    /// An empty byte string in `arena`.
    pub fn new_in(arena: &'bump bumpalo::Bump) -> (b: Self)
        ensures
            b@ == Seq::<u8>::empty(),
    {
        arena_new(arena)
    }

    /// Appends one byte.
    pub fn push(&mut self, byte: u8)
        ensures
            final(self)@ == old(self)@.push(byte),
    {
        arena_push(self, byte)
    }

    /// Appends all bytes of `other`, in order.
    pub fn extend_from_slice(&mut self, other: &[u8])
        ensures
            final(self)@ == old(self)@ + other@,
    {
        arena_extend(self, other)
    }

    /// The contents as a slice.
    pub fn as_slice(&self) -> (s: &[u8])
        ensures
            s@ == self@,
    {
        arena_slice(self)
    }

    /// The number of bytes held.
    pub fn len(&self) -> (n: usize)
        ensures
            n == self@.len(),
    {
        arena_len(self)
    }
}

} // verus!
