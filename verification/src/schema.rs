//! Fixed-layout binary event record shared by the capture agent (producer)
//! and the userspace consumer.

use vstd::prelude::*;

verus! {

/// Byte capacity of one argument slot.
pub const ARG_SIZE: usize = 64;

/// Number of argument slots in one event.
pub const ARG_COUNT: usize = 20;

/// Byte capacity of one environment slot.
pub const ENV_SIZE: usize = 100;

/// Number of environment slots in one event.
pub const ENV_COUNT: usize = 20;

/// Byte capacity of the command-name buffer.
pub const COMM_SIZE: usize = 16;

/// Total size in bytes of one serialized event frame on the wire:
/// timestamp (8) + uid, gid, pid, ppid (4 each) + comm + args + envs.
pub const EVENT_BYTES: usize = 8 + 4 + 4 + 4 + 4 + COMM_SIZE + ARG_COUNT * ARG_SIZE + ENV_COUNT
    * ENV_SIZE;

/// A sequence of `n` zero bytes.
pub open spec fn zero_bytes(n: int) -> Seq<u8> {
    Seq::new(n as nat, |i: int| 0u8)
}

/// `count` byte strings of exactly `size` bytes each.
pub open spec fn slots_wf(slots: Seq<Seq<u8>>, count: int, size: int) -> bool {
    &&& slots.len() == count
    &&& forall|i: int| 0 <= i < count ==> #[trigger] slots[i].len() == size
}

/// One observed execution, in the exact fixed layout that travels on the
/// wire.  String fields are valid only up to the first null byte or the
/// buffer end; a truncated field may have no terminator at all.
#[derive(Debug, Clone)]
pub struct Event {
    /// Monotonic nanoseconds since boot, producer clock.
    pub timestamp: u64,
    pub uid: u32,
    pub gid: u32,
    pub pid: u32,
    pub ppid: u32,
    /// Process name, exactly `COMM_SIZE` bytes.
    pub comm: Vec<u8>,
    /// Argument slots: exactly `ARG_COUNT` buffers of `ARG_SIZE` bytes.
    pub args: Vec<Vec<u8>>,
    /// Environment slots: exactly `ENV_COUNT` buffers of `ENV_SIZE` bytes.
    pub envs: Vec<Vec<u8>>,
}

impl Event {
    /// Every event carries a positive pid and full-capacity, fixed-size
    /// buffers, so that the record size is identical across all events.
    pub open spec fn well_formed(self) -> bool {
        &&& self.pid > 0
        &&& self.comm@.len() == COMM_SIZE
        &&& slots_wf(self.args.deep_view(), ARG_COUNT as int, ARG_SIZE as int)
        &&& slots_wf(self.envs.deep_view(), ENV_COUNT as int, ENV_SIZE as int)
    }
}

/// A zero-filled byte buffer of length `size`.
pub fn zeroed_buffer(size: usize) -> (r: Vec<u8>)
    ensures
        r@ == zero_bytes(size as int),
{
    let r: Vec<u8> = vec![0u8; size];
    assert(r@ =~= zero_bytes(size as int));
    r
}

/// The deep view of a vector of byte buffers indexes to the view of each
/// buffer.
pub proof fn lemma_deep_view_of_slots(v: Vec<Vec<u8>>)
    ensures
        v.deep_view().len() == v@.len(),
        forall|i: int| 0 <= i < v@.len() ==> #[trigger] v.deep_view()[i] == v@[i]@,
{
    assert forall|i: int| 0 <= i < v@.len() implies #[trigger] v.deep_view()[i] == v@[i]@ by {
        assert(v.deep_view()[i] =~= v@[i]@);
    }
}

} // verus!
