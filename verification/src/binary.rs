//! Exclusive and shared binary buffers.
//!
//! An [`OwnedBinary`] is the one handle to a writable buffer: it cannot be
//! copied, and handing it over to a scope consumes it. A [`Binary`] is an
//! immutable view of bytes that belongs to a scope.

use vstd::prelude::*;
use crate::error::Error;
use crate::term::{copy_bytes, Env, Term, TermData};

verus! {

/// What a shared binary is: the scope it belongs to, its bytes, and whether
/// the runtime made the bytes by flattening a list.
pub struct BinaryView<'a> {
    pub env: Env<'a>,
    pub bytes: Seq<u8>,
    pub flattened: bool,
}

/// The shared binary that a buffer of `bytes` becomes in the scope `env`.
pub open spec fn handed_over<'a>(bytes: Seq<u8>, env: Env<'a>) -> BinaryView<'a> {
    BinaryView { env, bytes, flattened: false }
}

/// The bytes of an exclusive copy of a shared binary.
pub open spec fn copied_out(shared: BinaryView<'_>) -> Seq<u8> {
    shared.bytes
}

/// Whether `length` bytes from `offset` on lie inside a binary of `len` bytes.
pub open spec fn in_bounds(len: nat, offset: nat, length: nat) -> bool {
    offset + length <= usize::MAX && offset + length <= len
}

/// The view of `length` bytes from `offset` on of a shared binary.
pub open spec fn sub_view<'a>(shared: BinaryView<'a>, offset: nat, length: nat) -> BinaryView<'a> {
    BinaryView {
        env: shared.env,
        bytes: shared.bytes.subrange(offset as int, (offset + length) as int),
        flattened: false,
    }
}

/// Whether `after` has `size` bytes and agrees with `before` on every index
/// that both have.
pub open spec fn resized(before: Seq<u8>, after: Seq<u8>, size: nat) -> bool {
    &&& after.len() == size
    &&& forall|i: int| 0 <= i < before.len() && i < size ==> #[trigger] after[i] == before[i]
}

/// What inspecting `term` as a binary yields: a view of its bytes where it
/// is a binary, nothing otherwise.
pub open spec fn inspected<'a>(term: Term<'a>) -> Option<BinaryView<'a>> {
    match term.data {
        TermData::Binary(bytes) => Some(
            BinaryView { env: term.env, bytes: bytes@, flattened: false },
        ),
        _ => None,
    }
}

/// What inspecting `term` as a list of bytes yields: a view of its bytes
/// where it is a binary, of its flattened bytes where it is such a list,
/// nothing otherwise.
pub open spec fn inspected_flat<'a>(term: Term<'a>) -> Option<BinaryView<'a>> {
    match term.data {
        TermData::Binary(bytes) => Some(
            BinaryView { env: term.env, bytes: bytes@, flattened: false },
        ),
        TermData::IoList(bytes) => Some(
            BinaryView { env: term.env, bytes: bytes@, flattened: true },
        ),
        _ => None,
    }
}

/// Whether `term` is the term of the shared binary `shared`, bound to `env`.
pub open spec fn is_term_of<'a, 'b>(term: Term<'b>, shared: BinaryView<'a>, env: Env<'b>) -> bool {
    inspected_flat(term) == Some(
        BinaryView { env, bytes: shared.bytes, flattened: shared.flattened },
    )
}

/// A writable buffer with a single owner.
#[derive(Debug)]
pub struct OwnedBinary {
    data: Vec<u8>,
}

impl View for OwnedBinary {
    type V = Seq<u8>;

    closed spec fn view(&self) -> Seq<u8> {
        self.data@
    }
}

impl OwnedBinary {
    /// Takes `inner` as the buffer's bytes.
    pub fn from_raw(inner: Vec<u8>) -> (owned: OwnedBinary)
        ensures
            owned@ == inner@,
    {
        OwnedBinary { data: inner }
    }

    /// The buffer that an allocation request for `size` bytes gives:
    /// `data` grown or cut to `size` bytes where room was `reserved`, none
    /// where it was not. Bytes past those of `data` have no promised value.
    pub fn from_reservation(reserved: bool, data: Vec<u8>, size: usize) -> (owned: Option<OwnedBinary>)
        ensures
            reserved == owned.is_some(),
            owned matches Some(b) ==> resized(data@, b@, size as nat),
    {
        if reserved {
            let mut data = data;
            let ghost before = data@;
            data.resize(size, 0u8);
            assert(resized(before, data@, size as nat)) by {
                if size > before.len() {
                    assert forall|i: int| 0 <= i < before.len() implies data@[i] == before[i] by {
                        assert(data@.subrange(0, before.len() as int)[i] == before[i]);
                    }
                }
            }
            Some(OwnedBinary { data })
        } else {
            None
        }
    }

    /// Allocates a buffer of `size` bytes, or returns `None` where the
    /// allocator cannot give them. The bytes have no promised value. A
    /// buffer of no bytes asks nothing of the allocator, so it is always
    /// given; for any other size the allocator decides.
    pub fn new(size: usize) -> (owned: Option<OwnedBinary>)
        ensures
            owned matches Some(b) ==> b@.len() == size,
            size == 0 ==> owned is Some,
    {
        let mut data: Vec<u8> = Vec::new();
        let reserved = size == 0 || data.try_reserve(size).is_ok();
        OwnedBinary::from_reservation(reserved, data, size)
    }

    /// Copies the bytes of `src` into a new buffer, or returns `None` where
    /// the allocator cannot give it. The copy of a binary of no bytes asks
    /// nothing of the allocator, so it is always given.
    pub fn from_unowned(src: &Binary<'_>) -> (owned: Option<OwnedBinary>)
        ensures
            owned matches Some(b) ==> b@ == copied_out(src@),
            src@.bytes.len() == 0 ==> owned is Some,
    {
        OwnedBinary::filled(OwnedBinary::new(src.len()), src)
    }

    /// What a copy of `src` gives once the allocator has answered: the
    /// `fresh` buffer with the bytes of `src` written over its first bytes,
    /// as many as both have, or none where there is no fresh buffer.
    pub fn filled(fresh: Option<OwnedBinary>, src: &Binary<'_>) -> (owned: Option<OwnedBinary>)
        ensures
            match fresh {
                Some(buffer) => owned matches Some(b) && b@.len() == buffer@.len() && (
                buffer@.len() == src@.bytes.len() ==> b@ == copied_out(src@)),
                None => owned is None,
            },
    {
        match fresh {
            Some(mut b) => {
                let _written: usize = b.fill_from(src.as_slice());
                assert(b@.len() == src@.bytes.len() ==> b@ =~= src@.bytes);
                Some(b)
            },
            None => None,
        }
    }

    /// Writes `src` over the first bytes of the buffer: as many as both have.
    pub fn fill_from(&mut self, src: &[u8]) -> (written: usize)
        ensures
            final(self)@.len() == old(self)@.len(),
            written == if src@.len() <= old(self)@.len() {
                src@.len()
            } else {
                old(self)@.len()
            },
            forall|i: int| 0 <= i < written ==> #[trigger] final(self)@[i] == src@[i],
            forall|i: int|
                written <= i < old(self)@.len() ==> #[trigger] final(self)@[i] == old(self)@[i],
    {
        let n: usize = if src.len() <= self.data.len() {
            src.len()
        } else {
            self.data.len()
        };
        let mut i: usize = 0;
        while i < n
            invariant
                i <= n,
                n <= src@.len(),
                n <= self.data@.len(),
                self.data@.len() == old(self).data@.len(),
                forall|j: int| 0 <= j < i ==> #[trigger] self.data@[j] == src@[j],
                forall|j: int|
                    i <= j < self.data@.len() ==> #[trigger] self.data@[j] == old(self).data@[j],
            decreases n - i,
        {
            let byte: u8 = src[i];
            self.data.set(i, byte);
            i += 1;
        }
        n
    }

    /// The number of bytes in the buffer.
    pub fn len(&self) -> (n: usize)
        ensures
            n == self@.len(),
    {
        self.data.len()
    }

    /// Resizes the buffer in place to `size` bytes. On `true` the buffer has
    /// `size` bytes and keeps those it had below `size`; on `false` it is as
    /// it was. Shrinking always succeeds; growing succeeds where the
    /// allocator gives the room.
    #[must_use]
    pub fn realloc(&mut self, size: usize) -> (ok: bool)
        ensures
            ok ==> resized(old(self)@, final(self)@, size as nat),
            !ok ==> final(self)@ == old(self)@,
            size <= old(self)@.len() ==> ok,
    {
        let len: usize = self.data.len();
        let reserved = size <= len || self.data.try_reserve(size - len).is_ok();
        self.realloc_reserved(reserved, size)
    }

    /// What a resize in place does once the allocator has answered: the
    /// buffer is cut to `size` bytes where it has as many, grown to `size`
    /// bytes where room was `reserved`, and left as it was otherwise.
    pub fn realloc_reserved(&mut self, reserved: bool, size: usize) -> (ok: bool)
        ensures
            ok == (reserved || size <= old(self)@.len()),
            ok ==> resized(old(self)@, final(self)@, size as nat),
            !ok ==> final(self)@ == old(self)@,
    {
        if size <= self.data.len() {
            self.data.truncate(size);
            true
        } else if reserved {
            let ghost before = self.data@;
            self.data.resize(size, 0u8);
            assert forall|i: int| 0 <= i < before.len() implies self.data@[i] == before[i] by {
                assert(self.data@.subrange(0, before.len() as int)[i] == before[i]);
            }
            true
        } else {
            false
        }
    }

    /// Resizes the buffer to `size` bytes, in place where that succeeds and
    /// otherwise by copying into a fresh buffer that takes this one's place.
    /// Fails only where the fresh allocation fails too: the buffer is then
    /// as it was, and the error is `FatalAllocationFailure`.
    pub fn realloc_or_copy(&mut self, size: usize) -> (done: Result<(), Error>)
        ensures
            done is Ok ==> resized(old(self)@, final(self)@, size as nat),
            done is Err ==> final(self)@ == old(self)@,
            done is Err ==> done == Err::<(), Error>(Error::FatalAllocationFailure),
            size <= old(self)@.len() ==> done is Ok,
    {
        if self.realloc(size) {
            return Ok(());
        }
        self.replace_with(OwnedBinary::new(size))
    }

    /// The copying fallback of a resize, once the allocator has answered.
    /// With a `fresh` buffer, the bytes that both buffers have are copied
    /// into it and it takes this buffer's place. Without one the buffer is
    /// left as it was and the error is `FatalAllocationFailure`.
    pub fn replace_with(&mut self, fresh: Option<OwnedBinary>) -> (done: Result<(), Error>)
        ensures
            match fresh {
                Some(buffer) => done is Ok && resized(old(self)@, final(self)@, buffer@.len()),
                None => done == Err::<(), Error>(Error::FatalAllocationFailure) && final(self)@
                    == old(self)@,
            },
    {
        match fresh {
            Some(mut new) => {
                let _written: usize = new.fill_from(self.data.as_slice());
                std::mem::swap(&mut self.data, &mut new.data);
                Ok(())
            },
            None => Err(Error::FatalAllocationFailure),
        }
    }

    /// The bytes of the buffer.
    pub fn as_slice(&self) -> (bytes: &[u8])
        ensures
            bytes@ == self@,
    {
        self.data.as_slice()
    }

    /// The bytes of the buffer, for writing. The length cannot change.
    pub fn as_mut_slice(&mut self) -> (bytes: &mut [u8])
        ensures
            bytes@ == old(self)@,
            final(bytes)@ == final(self)@,
    {
        self.data.as_mut_slice()
    }

    /// Hands the buffer over to the scope `env`: the buffer is consumed and
    /// its bytes become a shared binary of that scope.
    pub fn release<'a>(self, env: Env<'a>) -> (shared: Binary<'a>)
        ensures
            shared@ == handed_over(self@, env),
    {
        Binary::from_owned(self, env)
    }
}

impl std::ops::Deref for OwnedBinary {
    type Target = [u8];

    /// The bytes of the buffer.
    fn deref(&self) -> (bytes: &[u8])
        ensures
            bytes@ == self@,
    {
        self.as_slice()
    }
}

impl std::ops::DerefMut for OwnedBinary {
    /// The bytes of the buffer, for writing.
    fn deref_mut(&mut self) -> (bytes: &mut [u8])
        ensures
            bytes@ == old(self)@,
            final(bytes)@ == final(self)@,
    {
        self.as_mut_slice()
    }
}

/// An immutable view of bytes that belongs to a scope.
#[derive(Debug)]
pub struct Binary<'a> {
    env: Env<'a>,
    inner: Vec<u8>,
    flattened: bool,
}

impl<'a> View for Binary<'a> {
    type V = BinaryView<'a>;

    closed spec fn view(&self) -> BinaryView<'a> {
        BinaryView { env: self.env, bytes: self.inner@, flattened: self.flattened }
    }
}

impl<'a> Clone for Binary<'a> {
    /// Another view of the same bytes in the same scope.
    fn clone(&self) -> (copy: Binary<'a>)
        ensures
            copy@ == self@,
    {
        Binary {
            env: self.env,
            inner: copy_bytes(self.inner.as_slice()),
            flattened: self.flattened,
        }
    }
}

impl<'a> std::ops::Deref for Binary<'a> {
    type Target = [u8];

    /// The bytes.
    fn deref(&self) -> (bytes: &[u8])
        ensures
            bytes@ == self@.bytes,
    {
        self.as_slice()
    }
}

impl<'a> Binary<'a> {
    /// Consumes `owned` and makes its bytes a shared binary of the scope
    /// `env`. After this only the scope holds the bytes.
    pub fn from_owned(owned: OwnedBinary, env: Env<'a>) -> (shared: Binary<'a>)
        ensures
            shared@ == handed_over(owned@, env),
    {
        Binary { env, inner: owned.data, flattened: false }
    }

    /// Copies the bytes into a new exclusive buffer, or returns `None` where
    /// the allocator cannot give it. The copy of a binary of no bytes asks
    /// nothing of the allocator, so it is always given.
    pub fn to_owned(&self) -> (owned: Option<OwnedBinary>)
        ensures
            owned matches Some(b) ==> b@ == copied_out(self@),
            self@.bytes.len() == 0 ==> owned is Some,
    {
        OwnedBinary::from_unowned(self)
    }

    /// Views `term` as a binary. Fails with `TypeMismatch` unless the term
    /// is a binary value.
    pub fn from_term(term: Term<'a>) -> (shared: Result<Binary<'a>, Error>)
        ensures
            match inspected(term) {
                Some(v) => (shared matches Ok(b) && b@ == v),
                None => shared == Err::<Binary<'a>, Error>(Error::TypeMismatch),
            },
    {
        match term.data {
            TermData::Binary(bytes) => Ok(Binary { env: term.env, inner: bytes, flattened: false }),
            _ => Err(Error::TypeMismatch),
        }
    }

    /// Views `term` as a binary where it is one, or as the bytes it flattens
    /// to where it is a list of bytes and binaries. Fails with `TypeMismatch`
    /// on any other term.
    pub fn from_iolist(term: Term<'a>) -> (shared: Result<Binary<'a>, Error>)
        ensures
            match inspected_flat(term) {
                Some(v) => (shared matches Ok(b) && b@ == v),
                None => shared == Err::<Binary<'a>, Error>(Error::TypeMismatch),
            },
    {
        match term.data {
            TermData::Binary(bytes) => Ok(Binary { env: term.env, inner: bytes, flattened: false }),
            TermData::IoList(bytes) => Ok(Binary { env: term.env, inner: bytes, flattened: true }),
            _ => Err(Error::TypeMismatch),
        }
    }

    /// The term of this binary, bound to the scope `env`.
    pub fn to_term<'b>(&self, env: Env<'b>) -> (term: Term<'b>)
        ensures
            is_term_of(term, self@, env),
    {
        let bytes = copy_bytes(self.inner.as_slice());
        if self.flattened {
            Term { env, data: TermData::IoList(bytes) }
        } else {
            Term { env, data: TermData::Binary(bytes) }
        }
    }

    /// The scope that the binary belongs to.
    pub fn get_env(&self) -> (env: Env<'a>)
        ensures
            env == self@.env,
    {
        self.env
    }

    /// The number of bytes.
    pub fn len(&self) -> (n: usize)
        ensures
            n == self@.bytes.len(),
    {
        self.inner.len()
    }

    /// The bytes.
    pub fn as_slice(&self) -> (bytes: &[u8])
        ensures
            bytes@ == self@.bytes,
    {
        self.inner.as_slice()
    }

    /// A view of the `length` bytes from `offset` on, in the same scope.
    /// Fails with `BoundsViolation` where `offset + length` overflows or
    /// passes the end of the binary.
    pub fn make_subbinary(&self, offset: usize, length: usize) -> (sub: Result<
        Binary<'a>,
        Error,
    >)
        ensures
            in_bounds(self@.bytes.len(), offset as nat, length as nat) ==> (sub matches Ok(b) && b@
                == sub_view(self@, offset as nat, length as nat)),
            !in_bounds(self@.bytes.len(), offset as nat, length as nat) ==> sub == Err::<Binary<'a>, Error>(Error::BoundsViolation),
    {
        let end: usize = match length.checked_add(offset) {
            Some(end) => end,
            None => {
                return Err(Error::BoundsViolation);
            },
        };
        if end > self.inner.len() {
            return Err(Error::BoundsViolation);
        }
        let term = sub_binary_term(self.env, self.inner.as_slice(), offset, end);
        Binary::from_term(term)
    }

    /// Views `term` as a binary, as `from_term` does.
    pub fn decode(term: Term<'a>) -> (shared: Result<Binary<'a>, Error>)
        ensures
            match inspected(term) {
                Some(v) => (shared matches Ok(b) && b@ == v),
                None => shared == Err::<Binary<'a>, Error>(Error::TypeMismatch),
            },
    {
        Binary::from_term(term)
    }

    /// The term of this binary, as `to_term` gives it.
    pub fn encode<'b>(&self, env: Env<'b>) -> (term: Term<'b>)
        ensures
            is_term_of(term, self@, env),
    {
        self.to_term(env)
    }
}

/// The binary term of scope `env` that holds the bytes of `bytes` from
/// `start` up to `end`.
pub fn sub_binary_term<'a>(env: Env<'a>, bytes: &[u8], start: usize, end: usize) -> (term: Term<
    'a,
>)
    requires
        start <= end <= bytes@.len(),
    ensures
        inspected(term) == Some(
            BinaryView { env, bytes: bytes@.subrange(start as int, end as int), flattened: false },
        ),
{
    let mut out: Vec<u8> = Vec::new();
    let mut i: usize = start;
    while i < end
        invariant
            start <= i <= end <= bytes@.len(),
            out@ == bytes@.subrange(start as int, i as int),
        decreases end - i,
    {
        out.push(bytes[i]);
        i += 1;
        assert(out@ =~= bytes@.subrange(start as int, i as int));
    }
    Term { env, data: TermData::Binary(out) }
}

impl<'a> Term<'a> {
    /// Views the term as a binary. Fails with `TypeMismatch` unless the term
    /// is a binary value.
    pub fn into_binary(self) -> (shared: Result<Binary<'a>, Error>)
        ensures
            match inspected(self) {
                Some(v) => (shared matches Ok(b) && b@ == v),
                None => shared == Err::<Binary<'a>, Error>(Error::TypeMismatch),
            },
    {
        Binary::from_term(self)
    }
}

/// Round trip: a buffer handed over to a scope and copied back out has the
/// bytes that it had.
pub proof fn lemma_round_trip(bytes: Seq<u8>, env: Env<'_>)
    ensures
        copied_out(handed_over(bytes, env)) == bytes,
{
}

/// Containment: a sub-binary inside the bounds has `length` bytes, and its
/// byte at `i` is the byte at `offset + i` of the binary it was made from.
pub proof fn lemma_sub_binary_bytes(shared: BinaryView<'_>, offset: nat, length: nat)
    requires
        in_bounds(shared.bytes.len(), offset, length),
    ensures
        sub_view(shared, offset, length).bytes.len() == length,
        sub_view(shared, offset, length).env == shared.env,
        forall|i: int|
            0 <= i < length ==> #[trigger] sub_view(shared, offset, length).bytes[i]
                == shared.bytes[offset + i],
{
}

/// Rejection: a range is outside the bounds exactly when its end passes the
/// length of the binary or the largest machine word. So is every range of
/// one byte that starts at the end, and every range of the largest length,
/// unless it starts at zero in a binary of that very length.
pub proof fn lemma_out_of_bounds(len: nat, offset: nat, length: nat)
    ensures
        !in_bounds(len, offset, length) <==> (offset + length > len || offset + length
            > usize::MAX),
        !in_bounds(len, len, 1),
        offset > 0 || len < usize::MAX ==> !in_bounds(len, offset, usize::MAX as nat),
{
}

/// Resize fidelity: a resized buffer keeps every byte it had when it grows,
/// and the first `size` bytes when it shrinks.
pub proof fn lemma_resized_keeps(before: Seq<u8>, after: Seq<u8>, size: nat)
    requires
        resized(before, after, size),
    ensures
        size >= before.len() ==> after.subrange(0, before.len() as int) == before,
        size < before.len() ==> after == before.subrange(0, size as int),
{
    if size >= before.len() {
        assert(after.subrange(0, before.len() as int) =~= before);
    } else {
        assert(after =~= before.subrange(0, size as int));
    }
}

} // verus!
