//! A pool of reusable byte buffers (`bytes::BytesMut`).
//!
//! A buffer is taken from the pool, or freshly allocated when the pool is
//! empty; a buffer handed back is cleared and kept if it is large enough and
//! the pool holds fewer than [`MAX_POOLED_BUFFERS`].
use vstd::prelude::*;

verus! {

/// The most buffers a pool keeps; further returned buffers are dropped.
pub const MAX_POOLED_BUFFERS: usize = 100;

#[verifier::external_type_specification]
#[verifier::external_body]
pub struct ExBytesMut(bytes::BytesMut);

/// The bytes a `BytesMut` holds.
pub uninterp spec fn buffer_bytes(b: bytes::BytesMut) -> Seq<u8>;

/// `BytesMut::with_capacity`.
///
/// Trusted: the new buffer holds no bytes. Its capacity depends on the
/// allocator and is not stated.
#[verifier::external_body]
fn new_buffer(capacity: usize) -> (b: bytes::BytesMut)
    requires
        capacity <= isize::MAX,
    ensures
        buffer_bytes(b) == Seq::<u8>::empty(),
{
    bytes::BytesMut::with_capacity(capacity)
}

/// `BytesMut::capacity`.
///
/// Trusted, with nothing stated: the capacity depends on the allocator.
#[verifier::external_body]
fn buffer_capacity(b: &bytes::BytesMut) -> usize {
    b.capacity()
}

/// `BytesMut::clear`.
///
/// Trusted: afterwards the buffer holds no bytes.
#[verifier::external_body]
fn clear_buffer(b: &mut bytes::BytesMut)
    ensures
        buffer_bytes(*final(b)) == Seq::<u8>::empty(),
{
    b.clear()
}

/// A pool of buffers of at least `buffer_size` bytes of capacity. Every
/// buffer it keeps is empty, and `buffer_size` is a capacity that can be
/// allocated.
pub struct MemoryPool {
    buffers: Vec<bytes::BytesMut>,
    buffer_size: usize,
}

impl MemoryPool {
    #[verifier::type_invariant]
    spec fn pooled_buffers_are_empty(&self) -> bool {
        &&& self.buffer_size <= isize::MAX
        &&& forall|i: int| 0 <= i < self.buffers@.len() ==> #[trigger] buffer_bytes(self.buffers@[i]) == Seq::<u8>::empty()
    }

    /// How many buffers the pool holds.
    pub closed spec fn pooled(&self) -> nat {
        self.buffers@.len()
    }

    /// The capacity the pool's buffers are made with.
    pub closed spec fn size(&self) -> usize {
        self.buffer_size
    }

    /// A pool of buffers with capacity `buffer_size`, holding
    /// `initial_count` of them.
    pub fn new(buffer_size: usize, initial_count: usize) -> (p: Self)
        requires
            buffer_size <= isize::MAX,
        ensures
            p.pooled() == initial_count,
            p.size() == buffer_size,
    {
        let mut buffers: Vec<bytes::BytesMut> = Vec::new();
        let mut i: usize = 0;
        while i < initial_count
            invariant
                i <= initial_count,
                buffer_size <= isize::MAX,
                buffers@.len() == i,
                forall|j: int| 0 <= j < buffers@.len() ==> #[trigger] buffer_bytes(buffers@[j]) == Seq::<u8>::empty(),
            decreases initial_count - i,
        {
            buffers.push(new_buffer(buffer_size));
            i = i + 1;
        }
        MemoryPool { buffers, buffer_size }
    }

    /// The number of buffers the pool holds.
    pub fn len(&self) -> (n: usize)
        ensures
            n == self.pooled(),
    {
        self.buffers.len()
    }

    /// An empty buffer: the last pooled one, or a new one with the pool's
    /// capacity when the pool is empty.
    pub fn get_buffer(&mut self) -> (b: bytes::BytesMut)
        ensures
            buffer_bytes(b) == Seq::<u8>::empty(),
            final(self).size() == old(self).size(),
            old(self).pooled() > 0 ==> final(self).pooled() == old(self).pooled() - 1,
            old(self).pooled() == 0 ==> final(self).pooled() == 0,
    {
        proof {
            use_type_invariant(&*self);
        }
        let n = self.buffers.len();
        if n > 0 {
            let mut taken: Vec<bytes::BytesMut> = Vec::new();
            std::mem::swap(&mut taken, &mut self.buffers);
            let b = taken.pop().unwrap();
            assert(buffer_bytes(b) == Seq::<u8>::empty());
            self.buffers = taken;
            b
        } else {
            new_buffer(self.buffer_size)
        }
    }

    /// Hands back a buffer whose capacity is `capacity`: it is cleared and
    /// kept when its capacity is at least the pool's buffer size and the
    /// pool holds fewer than [`MAX_POOLED_BUFFERS`]; otherwise it is dropped.
    pub fn return_buffer_of_capacity(&mut self, buffer: bytes::BytesMut, capacity: usize)
        ensures
            final(self).size() == old(self).size(),
            final(self).pooled() == if capacity >= old(self).size() && old(self).pooled() < MAX_POOLED_BUFFERS {
                old(self).pooled() + 1
            } else {
                old(self).pooled()
            },
    {
        proof {
            use_type_invariant(&*self);
        }
        if capacity >= self.buffer_size {
            let mut buffer = buffer;
            clear_buffer(&mut buffer);
            if self.buffers.len() < MAX_POOLED_BUFFERS {
                let mut kept: Vec<bytes::BytesMut> = Vec::new();
                std::mem::swap(&mut kept, &mut self.buffers);
                kept.push(buffer);
                assert(forall|i: int| 0 <= i < kept@.len() ==> #[trigger] buffer_bytes(kept@[i]) == Seq::<u8>::empty());
                self.buffers = kept;
            }
        }
    }

    /// Hands back a buffer: it is cleared and kept when it is large enough
    /// and the pool is not full; otherwise it is dropped.
    pub fn return_buffer(&mut self, buffer: bytes::BytesMut)
        ensures
            final(self).size() == old(self).size(),
            final(self).pooled() == old(self).pooled()
                || (old(self).pooled() < MAX_POOLED_BUFFERS && final(self).pooled() == old(self).pooled() + 1),
    {
        let capacity = buffer_capacity(&buffer);
        self.return_buffer_of_capacity(buffer, capacity);
    }
}

} // verus!
