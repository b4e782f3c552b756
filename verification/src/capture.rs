//! The capture agent: observes one `execve`-family syscall entry and
//! populates one event before the traced image is replaced.
//!
//! Identity fields (pid, parent pid, uid, gid, timestamp, process name) come
//! from kernel-resident state and cannot fail from invalid user pointers.
//! The argument and environment vectors live in the traced process's address
//! space, which is untrusted: every read is a bounds-checked copy whose
//! outcome is modeled here by [`UserRead`].  Extraction runs in bounded time
//! with fixed-size scratch storage only: one early-exit loop per vector,
//! bounded by the compile-time slot counts.
//!
//! Policy for a mid-sequence unreadable pointer: extraction continues with
//! the later indices and leaves the unreadable slot empty, favoring partial
//! data — a failed single-string read degrades the event, it never abandons
//! it.

use vstd::prelude::*;
use crate::schema::{
    slots_wf, zero_bytes, zeroed_buffer, Event, ARG_COUNT, ARG_SIZE, COMM_SIZE, ENV_COUNT,
    ENV_SIZE, EVENT_BYTES,
};
use crate::codec::{fit, fit_bytes, frame_of, encode_event};
use crate::transport::Transport;
use vstd::bytes::{spec_u32_to_le_bytes, spec_u64_to_le_bytes};
use vstd::slice::slice_to_vec;

verus! {

/// Tracepoint data at `execve` entry: the common header followed by the
/// syscall-specific fields.  Pointers into the traced process's address
/// space are carried as raw addresses.
pub struct SysEnterExecve {
    // Tracepoint header fields.
    pub common_type: u16,
    pub common_flags: u8,
    pub common_preempt_count: u8,
    pub common_pid: i32,
    // Additional syscall-specific field.
    pub __syscall_nr: i32,
    // Execve-specific fields: addresses of the filename, argv and envp.
    pub filename: u64,
    pub argv: u64,
    pub envp: u64,
}

/// Identity of the current task, read from already-trusted kernel-resident
/// state at syscall entry.  These reads cannot fail from invalid user
/// pointers.
pub struct TaskContext {
    pub pid: u32,
    pub ppid: u32,
    pub uid: u32,
    pub gid: u32,
    /// Monotonic nanoseconds since boot.
    pub timestamp: u64,
    /// Process name, exactly `COMM_SIZE` bytes.
    pub comm: Vec<u8>,
}

impl TaskContext {
    pub open spec fn well_formed(self) -> bool {
        &&& self.pid > 0
        &&& self.comm@.len() == COMM_SIZE
    }
}

/// Outcome of reading one slot of argv or envp: the pointer was null (end
/// of the vector), the pointer or the string under it was unreadable, or
/// the null-terminated string was copied out.
pub enum UserRead {
    /// The pointer slot read back null: the vector ends here.
    Terminator,
    /// The pointer slot, or the string it references, could not be read.
    Unreadable,
    /// The string the pointer references, without its terminator.
    Text(Vec<u8>),
}

impl UserRead {
    pub fn is_terminator(&self) -> (b: bool)
        ensures
            b == (self is Terminator),
    {
        matches!(self, UserRead::Terminator)
    }
}

/// Index at which extraction stops: the first terminator among the first
/// `count` reads, or `count` if there is none.
pub open spec fn scan_stop(reads: Seq<UserRead>, count: int) -> int
    decreases count,
{
    if count <= 0 || reads.len() == 0 {
        0
    } else if reads[0] is Terminator {
        0
    } else {
        1 + scan_stop(reads.drop_first(), count - 1)
    }
}

/// `scan_stop` is the unique index below `count` with no terminator before
/// it that is either a terminator or `count` itself.
pub proof fn lemma_scan_stop_is(reads: Seq<UserRead>, count: int, i: int)
    requires
        0 <= i <= count <= reads.len(),
        forall|j: int| 0 <= j < i ==> !((#[trigger] reads[j]) is Terminator),
        i < count ==> reads[i] is Terminator,
    ensures
        scan_stop(reads, count) == i,
    decreases count,
{
    if count == 0 {
    } else if i == 0 {
    } else {
        assert(!(reads[0] is Terminator));
        let t = reads.drop_first();
        assert forall|j: int| 0 <= j < i - 1 implies !((#[trigger] t[j]) is Terminator) by {
            assert(t[j] == reads[j + 1]);
        }
        assert(i - 1 < count - 1 ==> t[i - 1] == reads[i]);
        lemma_scan_stop_is(t, count - 1, i - 1);
    }
}

/// The bytes captured into slot `i`: the fitted string for a readable slot
/// before the stop index, an empty (all-zero) slot for an unreadable one,
/// and zeros from the stop index on.
pub open spec fn captured_slot(reads: Seq<UserRead>, count: int, size: int, i: int) -> Seq<u8> {
    if 0 <= i < scan_stop(reads, count) {
        match reads[i] {
            UserRead::Text(b) => fit(b@, size),
            _ => zero_bytes(size),
        }
    } else {
        zero_bytes(size)
    }
}

/// All `count` slots captured from a read sequence.
pub open spec fn captured_slots(reads: Seq<UserRead>, count: int, size: int) -> Seq<Seq<u8>> {
    Seq::new(count as nat, |i: int| captured_slot(reads, count, size, i))
}

/// Copy up to `count` strings out of the traced process's memory, each into
/// a fixed slot of `size` bytes, truncating rather than failing when a
/// string is oversized.  A null pointer stops the scan; an unreadable entry
/// yields an empty slot and the scan continues.
pub fn capture_strings(reads: &Vec<UserRead>, count: usize, size: usize) -> (slots: Vec<Vec<u8>>)
    requires
        reads@.len() >= count,
    ensures
        slots.deep_view() == captured_slots(reads@, count as int, size as int),
        slots_wf(slots.deep_view(), count as int, size as int),
{
    let mut stop: usize = 0;
    while stop < count && !reads[stop].is_terminator()
        invariant
            stop <= count <= reads@.len(),
            forall|j: int| 0 <= j < stop ==> !((#[trigger] reads@[j]) is Terminator),
        decreases count - stop,
    {
        stop = stop + 1;
    }
    proof {
        lemma_scan_stop_is(reads@, count as int, stop as int);
    }
    let mut slots: Vec<Vec<u8>> = Vec::new();
    let mut i: usize = 0;
    while i < count
        invariant
            i <= count <= reads@.len(),
            scan_stop(reads@, count as int) == stop as int,
            slots@.len() == i,
            forall|k: int|
                0 <= k < i ==> #[trigger] slots@[k]@ == captured_slot(
                    reads@,
                    count as int,
                    size as int,
                    k,
                ),
        decreases count - i,
    {
        if i < stop {
            match &reads[i] {
                UserRead::Text(b) => {
                    slots.push(fit_bytes(b.as_slice(), size));
                },
                _ => {
                    slots.push(zeroed_buffer(size));
                },
            }
        } else {
            slots.push(zeroed_buffer(size));
        }
        i = i + 1;
    }
    proof {
        crate::schema::lemma_deep_view_of_slots(slots);
        assert(slots.deep_view() =~= captured_slots(reads@, count as int, size as int));
        assert forall|k: int| 0 <= k < count implies #[trigger] slots.deep_view()[k].len()
            == size as int by {
            crate::codec::lemma_fit_len(
                captured_slot(reads@, count as int, size as int, k),
                size as int,
            );
        }
    }
    slots
}

/// The frame that the capture agent publishes for a given task identity
/// and pair of read sequences.
pub open spec fn capture_frame(
    task: TaskContext,
    argv: Seq<UserRead>,
    envp: Seq<UserRead>,
) -> Seq<u8> {
    spec_u64_to_le_bytes(task.timestamp) + spec_u32_to_le_bytes(task.uid) + spec_u32_to_le_bytes(
        task.gid,
    ) + spec_u32_to_le_bytes(task.pid) + spec_u32_to_le_bytes(task.ppid) + task.comm@
        + crate::codec::concat_slots(captured_slots(argv, ARG_COUNT as int, ARG_SIZE as int))
        + crate::codec::concat_slots(captured_slots(envp, ENV_COUNT as int, ENV_SIZE as int))
}

/// Reserve one fixed-size transport slot, serialize the event into it and
/// publish; if none is free (the consumer lagging) the event is silently
/// dropped — no blocking, no retry, since this runs on the hot path of
/// every process creation.
pub fn submit(transport: &mut Transport, event: &Event)
    requires
        event.well_formed(),
        old(transport).well_formed(),
        old(transport).reserved_view() is None,
    ensures
        final(transport).well_formed(),
        final(transport).reserved_view() is None,
        final(transport).cap() == old(transport).cap(),
        old(transport).admits(EVENT_BYTES as int) ==> {
            &&& final(transport).frames_view() == old(transport).frames_view().push(
                frame_of(*event),
            )
            &&& final(transport).used_bytes() == old(transport).used_bytes() + EVENT_BYTES
        },
        !old(transport).admits(EVENT_BYTES as int) ==> *final(transport) == *old(transport),
{
    let frame = encode_event(event);
    if transport.reserve(EVENT_BYTES) {
        transport.write_reserved(&frame);
        transport.submit();
    }
}

/// Observe one `execve` entry: build the event from kernel-resident
/// identity and the bounded extraction of argv and envp, then publish it.
/// An unreadable tracepoint header aborts only this event's emission; the
/// agent itself never faults.
pub fn try_enter_execve(
    task: &TaskContext,
    header: Option<SysEnterExecve>,
    argv: &Vec<UserRead>,
    envp: &Vec<UserRead>,
    transport: &mut Transport,
) -> (r: Result<u32, i64>)
    requires
        task.well_formed(),
        argv@.len() >= ARG_COUNT,
        envp@.len() >= ENV_COUNT,
        old(transport).well_formed(),
        old(transport).reserved_view() is None,
    ensures
        final(transport).well_formed(),
        final(transport).reserved_view() is None,
        final(transport).cap() == old(transport).cap(),
        header is None ==> r == Err::<u32, i64>(-1i64) && *final(transport) == *old(transport),
        header is Some ==> {
            &&& r == Ok::<u32, i64>(0)
            &&& old(transport).admits(EVENT_BYTES as int) ==> final(transport).frames_view()
                == old(transport).frames_view().push(capture_frame(*task, argv@, envp@))
            &&& !old(transport).admits(EVENT_BYTES as int) ==> *final(transport) == *old(
                transport,
            )
        },
{
    // Read the tracepoint data; a corrupt header aborts this event only.
    let data = match header {
        Some(h) => h,
        None => {
            return Err(-1);
        },
    };
    let args = capture_strings(argv, ARG_COUNT, ARG_SIZE);
    let envs = capture_strings(envp, ENV_COUNT, ENV_SIZE);
    let event = Event {
        timestamp: task.timestamp,
        uid: task.uid,
        gid: task.gid,
        pid: task.pid,
        ppid: task.ppid,
        comm: slice_to_vec(task.comm.as_slice()),
        args,
        envs,
    };
    submit(transport, &event);
    proof {
        assert(frame_of(event) =~= capture_frame(*task, argv@, envp@));
    }
    Ok(0)
}

/// Tracepoint entry point: reports a zero status for an emitted or
/// silently dropped event and an all-ones status when the header was
/// unreadable.
pub fn sys_enter_execve(
    task: &TaskContext,
    header: Option<SysEnterExecve>,
    argv: &Vec<UserRead>,
    envp: &Vec<UserRead>,
    transport: &mut Transport,
) -> (r: u32)
    requires
        task.well_formed(),
        argv@.len() >= ARG_COUNT,
        envp@.len() >= ENV_COUNT,
        old(transport).well_formed(),
        old(transport).reserved_view() is None,
    ensures
        final(transport).well_formed(),
        final(transport).reserved_view() is None,
        final(transport).cap() == old(transport).cap(),
        r == (if header is Some {
            0u32
        } else {
            4294967295u32
        }),
        header is None ==> *final(transport) == *old(transport),
        header is Some ==> {
            &&& old(transport).admits(EVENT_BYTES as int) ==> final(transport).frames_view()
                == old(transport).frames_view().push(capture_frame(*task, argv@, envp@))
            &&& !old(transport).admits(EVENT_BYTES as int) ==> *final(transport) == *old(
                transport,
            )
        },
{
    match try_enter_execve(task, header, argv, envp, transport) {
        Ok(ret) => ret,
        Err(ret) => {
            proof {
                assert(ret == -1i64);
                assert((-1i64) as u32 == 4294967295u32) by (bit_vector);
            }
            #[verifier::truncate]
            (ret as u32)
        },
    }
}

/// The capture agent's trap handler.  The freestanding build of the agent
/// must name one, but the agent may never fault — a non-local fault would
/// take down the host — so every fallible memory access above is checked
/// and the handler is never reached.  The model keeps it as a no-op.
pub fn panic() {
}

// ---------------------------------------------------------------------------
// Laws of the extraction algorithm.
// ---------------------------------------------------------------------------

/// Capture law for a well-formed vector: `k` readable entries followed by a
/// terminator populate exactly the first `k` slots when `k < count`, and
/// exactly `count` slots when `k >= count` — extraction stops at the slot
/// count and never looks further.
pub proof fn lemma_capture_populates(reads: Seq<UserRead>, count: int, size: int, k: int)
    requires
        0 <= count <= reads.len(),
        size >= 0,
        0 <= k,
        forall|j: int| 0 <= j < k && j < count ==> (#[trigger] reads[j]) matches UserRead::Text(_),
        k < count ==> reads[k] is Terminator,
    ensures
        scan_stop(reads, count) == (if k < count {
            k
        } else {
            count
        }),
        forall|i: int|
            0 <= i < k && i < count ==> #[trigger] captured_slots(reads, count, size)[i] == fit(
                reads[i]->Text_0@,
                size,
            ),
        forall|i: int|
            k <= i < count ==> #[trigger] captured_slots(reads, count, size)[i] == zero_bytes(
                size,
            ),
{
    let stop: int = if k < count {
        k
    } else {
        count
    };
    lemma_scan_stop_is(reads, count, stop);
}

/// The extraction reads nothing past the `count`-th pointer: two memories
/// that agree on the first `count` reads capture identical slots.
pub proof fn lemma_capture_prefix_only(
    r1: Seq<UserRead>,
    r2: Seq<UserRead>,
    count: int,
    size: int,
)
    requires
        0 <= count <= r1.len(),
        count <= r2.len(),
        forall|i: int| 0 <= i < count ==> r1[i] == r2[i],
    ensures
        captured_slots(r1, count, size) == captured_slots(r2, count, size),
{
    lemma_scan_stop_agrees(r1, r2, count);
    assert(captured_slots(r1, count, size) =~= captured_slots(r2, count, size));
}

/// The stop index depends only on where the terminators sit among the
/// first `count` reads.
pub proof fn lemma_scan_stop_agrees(r1: Seq<UserRead>, r2: Seq<UserRead>, count: int)
    requires
        0 <= count <= r1.len(),
        count <= r2.len(),
        forall|i: int|
            0 <= i < count ==> ((#[trigger] r1[i]) is Terminator <==> (#[trigger] r2[i])
                is Terminator),
    ensures
        scan_stop(r1, count) == scan_stop(r2, count),
    decreases count,
{
    if count > 0 && !(r1[0] is Terminator) {
        let t1 = r1.drop_first();
        let t2 = r2.drop_first();
        assert forall|i: int| 0 <= i < count - 1 implies ((#[trigger] t1[i]) is Terminator
            <==> (#[trigger] t2[i]) is Terminator) by {
            assert(t1[i] == r1[i + 1]);
            assert(t2[i] == r2[i + 1]);
        }
        lemma_scan_stop_agrees(t1, t2, count - 1);
    }
}

/// Degraded-data law: an unreadable pointer at position `i` leaves slot `i`
/// empty, and — by the chosen continue policy — affects no other slot: a
/// memory that differs only at `i`, as long as neither read terminates the
/// vector there, captures the same remaining slots.  The event itself is
/// still emitted, which is the contract of `try_enter_execve`.
pub proof fn lemma_unreadable_degrades_one_slot(
    r1: Seq<UserRead>,
    r2: Seq<UserRead>,
    count: int,
    size: int,
    i: int,
)
    requires
        0 <= count <= r1.len(),
        count <= r2.len(),
        size >= 0,
        0 <= i < count,
        !(r1[i] is Terminator),
        !(r2[i] is Terminator),
        forall|j: int| 0 <= j < count && j != i ==> r1[j] == r2[j],
    ensures
        r1[i] is Unreadable ==> captured_slots(r1, count, size)[i] == zero_bytes(size),
        forall|j: int|
            0 <= j < count && j != i ==> #[trigger] captured_slots(r1, count, size)[j]
                == captured_slots(r2, count, size)[j],
{
    lemma_scan_stop_agrees(r1, r2, count);
}

} // verus!
