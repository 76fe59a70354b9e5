//! Statistics of the operations a load test runs.
//!
//! Each operation records its size, the bytes moved so far, whether it is a
//! write, and once it is done its duration; reads also record the latency
//! of their first byte. Times are in microseconds.
use vstd::prelude::*;

verus! {

/// The statistics of one operation.
#[derive(Debug, Clone, Copy)]
pub struct OperationStats {
    /// The size of the value written or expected.
    pub data_size: u64,
    /// Bytes moved so far.
    pub bytes: usize,
    /// Whether the operation is a write.
    pub is_put: bool,
    /// Whether the operation is done.
    pub finished: bool,
    /// Its duration, once done, in microseconds.
    pub duration: u64,
    /// For a read, the latency of its first byte in microseconds.
    pub first_byte_latency: u64,
}

/// A fresh operation of `data_size` bytes.
pub open spec fn fresh_operation(data_size: u64, is_put: bool) -> OperationStats {
    OperationStats { data_size, bytes: 0, is_put, finished: false, duration: 0, first_byte_latency: 0 }
}

/// The operations of `s` that are not done, in order.
pub open spec fn unfinished(s: Seq<OperationStats>) -> Seq<OperationStats>
    decreases s.len(),
{
    if s.len() == 0 {
        s
    } else if s.last().finished {
        unfinished(s.drop_last())
    } else {
        unfinished(s.drop_last()).push(s.last())
    }
}

impl OperationStats {
    /// Records the latency of the first byte.
    pub fn on_first_byte(&mut self, latency_micros: u64)
        ensures
            *final(self) == (OperationStats { first_byte_latency: latency_micros, ..*old(self) }),
    {
        self.first_byte_latency = latency_micros;
    }

    /// Adds `bytes` to the bytes moved, wrapping around as the counter does.
    pub fn on_bytes(&mut self, bytes: usize)
        ensures
            *final(self) == (OperationStats { bytes: old(self).bytes.wrapping_add(bytes), ..*old(self) }),
    {
        self.bytes = self.bytes.wrapping_add(bytes);
    }

    /// Marks the operation done after `duration_micros`.
    pub fn finish(&mut self, duration_micros: u64)
        ensures
            *final(self) == (OperationStats { duration: duration_micros, finished: true, ..*old(self) }),
    {
        self.duration = duration_micros;
        self.finished = true;
    }
}

/// The operations that are still open, in the order they began.
#[derive(Debug, Clone)]
pub struct OpenOperationStats {
    ops: Vec<OperationStats>,
}

impl OpenOperationStats {
    /// The open operations.
    pub closed spec fn operations(&self) -> Seq<OperationStats> {
        self.ops@
    }

    /// No open operation.
    pub fn new() -> (o: OpenOperationStats)
        ensures
            o.operations() == Seq::<OperationStats>::empty(),
    {
        OpenOperationStats { ops: Vec::new() }
    }

    /// Opens a write of `data_size` bytes; returns its position.
    pub fn new_put(&mut self, data_size: u64) -> (id: usize)
        requires
            old(self).operations().len() < usize::MAX,
        ensures
            id == old(self).operations().len(),
            final(self).operations() == old(self).operations().push(fresh_operation(data_size, true)),
    {
        let put_stats = OperationStats {
            data_size,
            bytes: 0,
            is_put: true,
            finished: false,
            duration: 0,
            first_byte_latency: 0,
        };
        let id = self.ops.len();
        self.push(put_stats);
        id
    }

    /// Opens a read of `data_size` bytes; returns its position.
    pub fn new_get(&mut self, data_size: u64) -> (id: usize)
        requires
            old(self).operations().len() < usize::MAX,
        ensures
            id == old(self).operations().len(),
            final(self).operations() == old(self).operations().push(fresh_operation(data_size, false)),
    {
        let get_stats = OperationStats {
            data_size,
            bytes: 0,
            is_put: false,
            finished: false,
            duration: 0,
            first_byte_latency: 0,
        };
        let id = self.ops.len();
        self.push(get_stats);
        id
    }

    /// Adds an operation at the end.
    pub fn push(&mut self, op_stats: OperationStats)
        ensures
            final(self).operations() == old(self).operations().push(op_stats),
    {
        self.ops.push(op_stats);
    }

    /// The number of open operations.
    pub fn len(&self) -> (n: usize)
        ensures
            n == self.operations().len(),
    {
        self.ops.len()
    }

    /// The operation at `id`.
    pub fn get(&self, id: usize) -> (op: OperationStats)
        requires
            id < self.operations().len(),
        ensures
            op == self.operations()[id as int],
    {
        self.ops[id]
    }

    /// Replaces the operation at `id`, as after updating it.
    pub fn set(&mut self, id: usize, op: OperationStats)
        requires
            id < old(self).operations().len(),
        ensures
            final(self).operations() == old(self).operations().update(id as int, op),
    {
        self.ops.set(id, op);
    }

    /// Closes an interval: returns every operation, and keeps open only those
    /// not done.
    pub fn take_interval(&mut self) -> (all: Vec<OperationStats>)
        ensures
            all@ == old(self).operations(),
            final(self).operations() == unfinished(old(self).operations()),
    {
        let mut all: Vec<OperationStats> = Vec::new();
        core::mem::swap(&mut all, &mut self.ops);
        let mut i: usize = 0;
        while i < all.len()
            invariant
                i <= all@.len(),
                all@ == old(self).operations(),
                self.ops@ == unfinished(all@.subrange(0, i as int)),
            decreases all@.len() - i,
        {
            proof {
                assert(all@.subrange(0, i + 1).drop_last() =~= all@.subrange(0, i as int));
                assert(all@.subrange(0, i + 1).last() == all@[i as int]);
            }
            if !all[i].finished {
                self.ops.push(all[i]);
            }
            i = i + 1;
        }
        proof {
            assert(all@.subrange(0, all@.len() as int) =~= all@);
        }
        all
    }
}

/// Updating an operation changes none of the others.
pub proof fn lemma_update_keeps_others(s: Seq<OperationStats>, id: int, op: OperationStats, other: int)
    requires
        0 <= id < s.len(),
        0 <= other < s.len(),
        other != id,
    ensures
        s.update(id, op)[other] == s[other],
{
}

/// Closing an interval keeps no finished operation, and keeps every
/// unfinished one.
pub proof fn lemma_interval_keeps_unfinished(s: Seq<OperationStats>)
    ensures
        forall|i: int| 0 <= i < unfinished(s).len() ==> !(#[trigger] unfinished(s)[i]).finished,
        forall|i: int| 0 <= i < s.len() && !s[i].finished ==> unfinished(s).contains(#[trigger] s[i]),
    decreases s.len(),
{
    if s.len() > 0 {
        lemma_interval_keeps_unfinished(s.drop_last());
        let u = unfinished(s.drop_last());
        assert forall|i: int| 0 <= i < unfinished(s).len() implies !(#[trigger] unfinished(s)[i]).finished by {
            if i < u.len() {
                assert(unfinished(s)[i] == u[i]);
            }
        }
        assert forall|i: int| 0 <= i < s.len() && !s[i].finished implies unfinished(s).contains(#[trigger] s[i]) by {
            if i < s.len() - 1 {
                assert(s[i] == s.drop_last()[i]);
                assert(u.contains(s.drop_last()[i]));
                let k = choose|k: int| 0 <= k < u.len() && u[k] == s.drop_last()[i];
                assert(unfinished(s)[k] == u[k]);
            } else {
                assert(unfinished(s)[u.len() as int] == s.last());
            }
        }
    }
}

} // verus!
