//! Serialization of events to fixed-size wire frames and the consumer-side
//! decoder.
//!
//! The wire record is host-endian with natural alignment only:
//! `timestamp:u64 | uid:u32 | gid:u32 | pid:u32 | ppid:u32 | comm | args | envs`,
//! where `comm`, each argument slot and each environment slot are
//! fixed-capacity byte buffers.  The decoder is a pure function from a raw
//! frame to a structured record; it rejects frames of the wrong length and
//! decodes string fields lossily, since captured memory is effectively
//! adversarial.

use vstd::prelude::*;
use vstd::bytes::{
    spec_u32_from_le_bytes, spec_u32_to_le_bytes, spec_u64_from_le_bytes, spec_u64_to_le_bytes,
    u32_from_le_bytes, u32_to_le_bytes, u64_from_le_bytes, u64_to_le_bytes,
    lemma_auto_spec_u32_to_from_le_bytes, lemma_auto_spec_u64_to_from_le_bytes,
};
use vstd::slice::{slice_subrange, slice_to_vec};
use vstd::utf8::{
    valid_utf8, decode_utf8, encode_utf8, encode_utf8_valid_utf8, encode_utf8_decode_utf8,
};
use crate::schema::{
    zero_bytes, slots_wf, Event, ARG_COUNT, ARG_SIZE, COMM_SIZE, ENV_COUNT, ENV_SIZE, EVENT_BYTES,
};

verus! {

// ---------------------------------------------------------------------------
// Byte-string helpers: null trimming and fixed-capacity fitting.
// ---------------------------------------------------------------------------

/// Index of the first null byte, or the length if there is none.  A string
/// field of a record is valid only up to the first null byte or the buffer
/// end.
pub open spec fn first_null(s: Seq<u8>) -> int
    decreases s.len(),
{
    if s.len() == 0 {
        0
    } else if s[0] == 0 {
        0
    } else {
        1 + first_null(s.drop_first())
    }
}

/// The prefix of `s` before its first null byte.
pub open spec fn null_trim(s: Seq<u8>) -> Seq<u8> {
    s.take(first_null(s))
}

/// `first_null` is the unique index with no nulls before it that is either
/// a null or the end of the buffer.
pub proof fn lemma_first_null_is(s: Seq<u8>, i: int)
    requires
        0 <= i <= s.len(),
        forall|j: int| 0 <= j < i ==> s[j] != 0,
        i < s.len() ==> s[i] == 0,
    ensures
        first_null(s) == i,
    decreases s.len(),
{
    if s.len() == 0 {
    } else if i == 0 {
    } else {
        assert(s[0] != 0);
        assert forall|j: int| 0 <= j < i - 1 implies s.drop_first()[j] != 0 by {
            assert(s.drop_first()[j] == s[j + 1]);
        }
        assert(i - 1 < s.drop_first().len() ==> s.drop_first()[i - 1] == s[i]);
        lemma_first_null_is(s.drop_first(), i - 1);
    }
}

/// `s` truncated or zero-padded to exactly `size` bytes: the slot written
/// for a string field.  Truncated, not padded, so an over-long field keeps
/// its first `size` bytes and has no terminator.
pub open spec fn fit(s: Seq<u8>, size: int) -> Seq<u8> {
    if s.len() >= size {
        s.take(size)
    } else {
        s + zero_bytes(size - s.len())
    }
}

pub proof fn lemma_fit_len(s: Seq<u8>, size: int)
    requires
        size >= 0,
    ensures
        fit(s, size).len() == size,
{
}

/// Trimming recovers exactly the bytes that were fitted, provided they held
/// no null byte and fit the capacity.
pub proof fn lemma_null_trim_fit(s: Seq<u8>, size: int)
    requires
        s.len() <= size,
        forall|i: int| 0 <= i < s.len() ==> s[i] != 0,
    ensures
        null_trim(fit(s, size)) == s,
{
    let f = fit(s, size);
    assert(f =~= s + zero_bytes(size - s.len()));
    assert forall|j: int| 0 <= j < s.len() implies f[j] != 0 by {
        assert(f[j] == s[j]);
    }
    lemma_first_null_is(f, s.len() as int);
    assert(null_trim(f) =~= s);
}

/// A zero-filled slot trims to the empty byte string.
pub proof fn lemma_null_trim_zeros(size: int)
    requires
        size >= 0,
    ensures
        null_trim(zero_bytes(size)) == Seq::<u8>::empty(),
{
    lemma_first_null_is(zero_bytes(size), 0);
    assert(null_trim(zero_bytes(size)) =~= Seq::<u8>::empty());
}

// ---------------------------------------------------------------------------
// Concatenation of fixed-size slots.
// ---------------------------------------------------------------------------

/// All slots laid out back to back.
pub open spec fn concat_slots(s: Seq<Seq<u8>>) -> Seq<u8>
    decreases s.len(),
{
    if s.len() == 0 {
        Seq::empty()
    } else {
        s[0] + concat_slots(s.drop_first())
    }
}

pub proof fn lemma_concat_take_succ(s: Seq<Seq<u8>>, i: int)
    requires
        0 <= i < s.len(),
    ensures
        concat_slots(s.take(i + 1)) == concat_slots(s.take(i)) + s[i],
    decreases i,
{
    if i == 0 {
        let t1 = s.take(1);
        assert(t1.len() == 1);
        assert(t1[0] == s[0]);
        assert(t1.drop_first() =~= Seq::<Seq<u8>>::empty());
        assert(concat_slots(Seq::<Seq<u8>>::empty()) == Seq::<u8>::empty());
        assert(concat_slots(t1) == t1[0] + concat_slots(t1.drop_first()));
        assert(s.take(0) =~= Seq::<Seq<u8>>::empty());
        assert(concat_slots(t1) =~= concat_slots(s.take(0)) + s[0]);
    } else {
        let t = s.drop_first();
        lemma_concat_take_succ(t, i - 1);
        assert(s.take(i + 1)[0] == s[0]);
        assert(s.take(i)[0] == s[0]);
        assert(s.take(i + 1).drop_first() =~= t.take(i));
        assert(s.take(i).drop_first() =~= t.take(i - 1));
        assert(t.take(i - 1 + 1) == t.take(i));
        assert(concat_slots(s.take(i + 1)) == s[0] + concat_slots(t.take(i)));
        assert(concat_slots(s.take(i)) == s[0] + concat_slots(t.take(i - 1)));
        assert(t[i - 1] == s[i]);
        assert((s[0] + concat_slots(t.take(i - 1))) + s[i] =~= s[0] + (concat_slots(
            t.take(i - 1),
        ) + s[i]));
    }
}

pub proof fn lemma_concat_len(s: Seq<Seq<u8>>, count: int, size: int)
    requires
        slots_wf(s, count, size),
        size >= 0,
        count >= 0,
    ensures
        concat_slots(s).len() == count * size,
    decreases count,
{
    if count == 0 {
    } else {
        let t = s.drop_first();
        assert forall|i: int| 0 <= i < count - 1 implies #[trigger] t[i].len() == size by {
            assert(t[i] == s[i + 1]);
        }
        lemma_concat_len(t, count - 1, size);
        assert(size + (count - 1) * size == count * size) by (nonlinear_arith);
    }
}

/// Slot `i` occupies bytes `i*size .. (i+1)*size` of the concatenation.
pub proof fn lemma_concat_slot_at(s: Seq<Seq<u8>>, count: int, size: int, i: int)
    requires
        slots_wf(s, count, size),
        size >= 0,
        0 <= i < count,
    ensures
        concat_slots(s).subrange(i * size, i * size + size) == s[i],
    decreases i,
{
    lemma_concat_len(s, count, size);
    if i == 0 {
        assert(s[0].len() == size);
        assert(i * size == 0) by (nonlinear_arith)
            requires
                i == 0,
        ;
        assert(concat_slots(s).subrange(0, size) =~= s[0]);
    } else {
        let t = s.drop_first();
        assert forall|k: int| 0 <= k < count - 1 implies #[trigger] t[k].len() == size by {
            assert(t[k] == s[k + 1]);
        }
        lemma_concat_slot_at(t, count - 1, size, i - 1);
        assert((i - 1) * size == i * size - size) by (nonlinear_arith);
        assert(i * size >= size) by (nonlinear_arith)
            requires
                i >= 1,
                size >= 0,
        ;
        lemma_concat_len(t, count - 1, size);
        assert(t[i - 1] == s[i]);
        assert(s[0].len() == size);
        assert(i * size + size <= count * size) by (nonlinear_arith)
            requires
                i + 1 <= count,
                size >= 0,
        ;
        assert(i * size - size <= (count - 1) * size) by (nonlinear_arith)
            requires
                i <= count,
                size >= 0,
        ;
        assert(concat_slots(s) == s[0] + concat_slots(t));
        assert(concat_slots(s).len() == count * size);
        assert(concat_slots(t).len() == (count - 1) * size);
        assert(concat_slots(t).subrange(i * size - size, i * size) == s[i]);
        assert(concat_slots(s).subrange(i * size, i * size + size) =~= concat_slots(t).subrange(
            i * size - size,
            i * size,
        ));
        assert(concat_slots(s).subrange(i * size, i * size + size) == s[i]);
    }
}

// ---------------------------------------------------------------------------
// Lossy text decoding (trusted).
// ---------------------------------------------------------------------------

/// What `String::from_utf8_lossy` returns on bytes that are not valid
/// UTF-8: a function of the bytes alone (ill-formed sequences are replaced
/// deterministically).
pub uninterp spec fn lossy_text_of(bytes: Seq<u8>) -> Seq<char>;

/// The text a byte string decodes to: its characters when it is valid
/// UTF-8, the lossy replacement otherwise.
pub open spec fn text_of(bytes: Seq<u8>) -> Seq<char> {
    if valid_utf8(bytes) {
        decode_utf8(bytes)
    } else {
        lossy_text_of(bytes)
    }
}

/// Relies on `String::from_utf8_lossy`: valid UTF-8 input decodes to
/// exactly its characters, and the result is a function of the bytes
/// alone.
#[verifier::external_body]
pub fn lossy_string(b: &[u8]) -> (r: String)
    ensures
        valid_utf8(b@) ==> r@ == decode_utf8(b@),
        !valid_utf8(b@) ==> r@ == lossy_text_of(b@),
        r@ == text_of(b@),
{
    String::from_utf8_lossy(b).into_owned()
}

// ---------------------------------------------------------------------------
// Executable byte-string helpers.
// ---------------------------------------------------------------------------

/// The bytes of `b` before its first null.
pub fn null_trim_bytes(b: &[u8]) -> (r: Vec<u8>)
    ensures
        r@ == null_trim(b@),
{
    let mut i: usize = 0;
    while i < b.len() && b[i] != 0
        invariant
            i <= b@.len(),
            forall|j: int| 0 <= j < i ==> b@[j] != 0,
        decreases b@.len() - i,
    {
        i = i + 1;
    }
    proof {
        lemma_first_null_is(b@, i as int);
    }
    slice_to_vec(slice_subrange(b, 0, i))
}

/// `b` truncated or zero-padded to exactly `size` bytes.
pub fn fit_bytes(b: &[u8], size: usize) -> (r: Vec<u8>)
    ensures
        r@ == fit(b@, size as int),
        r@.len() == size,
{
    if b.len() >= size {
        slice_to_vec(slice_subrange(b, 0, size))
    } else {
        let mut r = slice_to_vec(b);
        while r.len() < size
            invariant
                b@.len() <= r@.len() <= size,
                r@.subrange(0, b@.len() as int) == b@,
                forall|j: int| b@.len() <= j < r@.len() ==> r@[j] == 0,
            decreases size - r@.len(),
        {
            r.push(0u8);
            proof {
                assert(r@.subrange(0, b@.len() as int) =~= b@);
            }
        }
        proof {
            assert(r@ =~= b@ + zero_bytes(size - b@.len()));
        }
        r
    }
}

// ---------------------------------------------------------------------------
// Encoding.
// ---------------------------------------------------------------------------

/// The exact frame an event serializes to.
pub open spec fn frame_of(e: Event) -> Seq<u8> {
    spec_u64_to_le_bytes(e.timestamp) + spec_u32_to_le_bytes(e.uid) + spec_u32_to_le_bytes(e.gid)
        + spec_u32_to_le_bytes(e.pid) + spec_u32_to_le_bytes(e.ppid) + e.comm@ + concat_slots(
        e.args.deep_view(),
    ) + concat_slots(e.envs.deep_view())
}

/// Append every slot of `slots` to `out`, back to back.
fn append_slots(out: &mut Vec<u8>, slots: &Vec<Vec<u8>>)
    ensures
        final(out)@ == old(out)@ + concat_slots(slots.deep_view()),
{
    let ghost dv = slots.deep_view();
    proof {
        crate::schema::lemma_deep_view_of_slots(*slots);
    }
    let mut i: usize = 0;
    while i < slots.len()
        invariant
            i <= slots@.len(),
            dv == slots.deep_view(),
            dv.len() == slots@.len(),
            forall|k: int| 0 <= k < slots@.len() ==> #[trigger] dv[k] == slots@[k]@,
            out@ == old(out)@ + concat_slots(dv.take(i as int)),
        decreases slots@.len() - i,
    {
        proof {
            lemma_concat_take_succ(dv, i as int);
        }
        out.extend_from_slice(slots[i].as_slice());
        i = i + 1;
    }
    proof {
        assert(dv.take(slots@.len() as int) =~= dv);
    }
}

/// Serialize an event into one wire frame.
pub fn encode_event(e: &Event) -> (r: Vec<u8>)
    requires
        e.well_formed(),
    ensures
        r@ == frame_of(*e),
        r@.len() == EVENT_BYTES,
{
    proof {
        lemma_auto_spec_u64_to_from_le_bytes();
        lemma_auto_spec_u32_to_from_le_bytes();
        lemma_concat_len(e.args.deep_view(), ARG_COUNT as int, ARG_SIZE as int);
        lemma_concat_len(e.envs.deep_view(), ENV_COUNT as int, ENV_SIZE as int);
    }
    let mut out = u64_to_le_bytes(e.timestamp);
    let mut part = u32_to_le_bytes(e.uid);
    out.append(&mut part);
    let mut part = u32_to_le_bytes(e.gid);
    out.append(&mut part);
    let mut part = u32_to_le_bytes(e.pid);
    out.append(&mut part);
    let mut part = u32_to_le_bytes(e.ppid);
    out.append(&mut part);
    out.extend_from_slice(e.comm.as_slice());
    append_slots(&mut out, &e.args);
    append_slots(&mut out, &e.envs);
    out
}

// ---------------------------------------------------------------------------
// Decoding.
// ---------------------------------------------------------------------------

/// Consumer-side structured form of one observed execution: the wire
/// fields with strings materialized as text, plus an optional `username`
/// filled lazily by the enricher.
#[derive(Debug)]
pub struct DecodedProcessExecution {
    pub timestamp: u64,
    pub uid: u32,
    pub gid: u32,
    pub pid: u32,
    pub ppid: u32,
    pub comm: String,
    pub args: Vec<String>,
    pub envs: Vec<String>,
    pub username: Option<String>,
}

/// Why a raw frame was rejected.
#[derive(Clone, Copy, Debug, PartialEq, Eq, Structural)]
pub enum DecodeError {
    /// The frame does not have the exact fixed record size.
    BadLength,
}

/// The byte region of argument slot `i` in a frame.
pub open spec fn arg_region(f: Seq<u8>, i: int) -> Seq<u8> {
    f.subrange(24 + COMM_SIZE + i * ARG_SIZE, 24 + COMM_SIZE + i * ARG_SIZE + ARG_SIZE)
}

/// The byte region of environment slot `i` in a frame.
pub open spec fn env_region(f: Seq<u8>, i: int) -> Seq<u8> {
    f.subrange(
        24 + COMM_SIZE + ARG_COUNT * ARG_SIZE + i * ENV_SIZE,
        24 + COMM_SIZE + ARG_COUNT * ARG_SIZE + i * ENV_SIZE + ENV_SIZE,
    )
}

/// Decode one raw transport frame.  Succeeds exactly on frames of the
/// fixed record size; every string field is the lossy text of its slot up
/// to the first null byte.
pub fn decode_frame(frame: &[u8]) -> (r: Result<DecodedProcessExecution, DecodeError>)
    ensures
        r is Ok <==> frame@.len() == EVENT_BYTES,
        r matches Ok(d) ==> {
            &&& d.timestamp == spec_u64_from_le_bytes(frame@.subrange(0, 8))
            &&& d.uid == spec_u32_from_le_bytes(frame@.subrange(8, 12))
            &&& d.gid == spec_u32_from_le_bytes(frame@.subrange(12, 16))
            &&& d.pid == spec_u32_from_le_bytes(frame@.subrange(16, 20))
            &&& d.ppid == spec_u32_from_le_bytes(frame@.subrange(20, 24))
            &&& d.comm@ == text_of(null_trim(frame@.subrange(24, 24 + COMM_SIZE)))
            &&& d.args@.len() == ARG_COUNT
            &&& forall|i: int|
                0 <= i < ARG_COUNT ==> #[trigger] d.args@[i]@ == text_of(
                    null_trim(arg_region(frame@, i)),
                )
            &&& d.envs@.len() == ENV_COUNT
            &&& forall|i: int|
                0 <= i < ENV_COUNT ==> #[trigger] d.envs@[i]@ == text_of(
                    null_trim(env_region(frame@, i)),
                )
            &&& d.username is None
        },
{
    if frame.len() != EVENT_BYTES {
        return Err(DecodeError::BadLength);
    }
    let timestamp = u64_from_le_bytes(slice_subrange(frame, 0, 8));
    let uid = u32_from_le_bytes(slice_subrange(frame, 8, 12));
    let gid = u32_from_le_bytes(slice_subrange(frame, 12, 16));
    let pid = u32_from_le_bytes(slice_subrange(frame, 16, 20));
    let ppid = u32_from_le_bytes(slice_subrange(frame, 20, 24));
    let comm = lossy_string(null_trim_bytes(slice_subrange(frame, 24, 24 + COMM_SIZE)).as_slice());
    let mut args: Vec<String> = Vec::new();
    let mut i: usize = 0;
    while i < ARG_COUNT
        invariant
            i <= ARG_COUNT,
            args@.len() == i,
            frame@.len() == EVENT_BYTES,
            forall|k: int|
                0 <= k < i ==> #[trigger] args@[k]@ == text_of(null_trim(arg_region(frame@, k))),
        decreases ARG_COUNT - i,
    {
        let start = 24 + COMM_SIZE + i * ARG_SIZE;
        let slot = slice_subrange(frame, start, start + ARG_SIZE);
        args.push(lossy_string(null_trim_bytes(slot).as_slice()));
        i = i + 1;
    }
    let mut envs: Vec<String> = Vec::new();
    let mut i: usize = 0;
    while i < ENV_COUNT
        invariant
            i <= ENV_COUNT,
            envs@.len() == i,
            frame@.len() == EVENT_BYTES,
            forall|k: int|
                0 <= k < i ==> #[trigger] envs@[k]@ == text_of(null_trim(env_region(frame@, k))),
        decreases ENV_COUNT - i,
    {
        let start = 24 + COMM_SIZE + ARG_COUNT * ARG_SIZE + i * ENV_SIZE;
        let slot = slice_subrange(frame, start, start + ENV_SIZE);
        envs.push(lossy_string(null_trim_bytes(slot).as_slice()));
        i = i + 1;
    }
    Ok(
        DecodedProcessExecution {
            timestamp,
            uid,
            gid,
            pid,
            ppid,
            comm,
            args,
            envs,
            username: None,
        },
    )
}

// ---------------------------------------------------------------------------
// Raw event rendering.
// ---------------------------------------------------------------------------

/// Every slot rendered in order, each followed by one space.  A slot that
/// is not valid UTF-8 renders as its lossy text, never an error.
pub open spec fn rendered_slots(slots: Seq<Seq<u8>>) -> Seq<char>
    decreases slots.len(),
{
    if slots.len() == 0 {
        Seq::empty()
    } else {
        rendered_slots(slots.drop_last()) + text_of(slots.last()) + seq![' ']
    }
}

/// Append every slot of `slots` as text, each followed by one space.
fn append_rendered_slots(out: &mut String, slots: &Vec<Vec<u8>>)
    ensures
        final(out)@ == old(out)@ + rendered_slots(slots.deep_view()),
{
    let ghost dv = slots.deep_view();
    proof {
        crate::schema::lemma_deep_view_of_slots(*slots);
        assert(dv.take(0) =~= Seq::<Seq<u8>>::empty());
        assert(old(out)@ + rendered_slots(dv.take(0)) =~= old(out)@);
    }
    let mut i: usize = 0;
    while i < slots.len()
        invariant
            i <= slots@.len(),
            dv == slots.deep_view(),
            dv.len() == slots@.len(),
            forall|k: int| 0 <= k < slots@.len() ==> #[trigger] dv[k] == slots@[k]@,
            out@ == old(out)@ + rendered_slots(dv.take(i as int)),
        decreases slots@.len() - i,
    {
        let t = lossy_string(slots[i].as_slice());
        out.append(t.as_str());
        out.append(" ");
        proof {
            reveal_strlit(" ");
            assert(" "@ =~= seq![' ']);
            assert(dv.take(i as int + 1).drop_last() =~= dv.take(i as int));
            assert(dv.take(i as int + 1).last() == dv[i as int]);
            assert(out@ =~= old(out)@ + rendered_slots(dv.take(i as int + 1)));
        }
        i = i + 1;
    }
    proof {
        assert(dv.take(slots@.len() as int) =~= dv);
    }
}

impl Event {
    /// The raw event as one line of text: the command name and pid, then
    /// every argument and environment slot, space separated.  Captured
    /// memory is effectively adversarial, so string conversion is lossy:
    /// invalid byte sequences are replaced, never an error.
    pub fn render_text(&self) -> (r: String)
        ensures
            r@ == text_of(self.comm@) + " ("@ + crate::digits::dec_text(self.pid as int)
                + "): "@ + rendered_slots(self.args.deep_view()) + rendered_slots(
                self.envs.deep_view(),
            ),
    {
        let mut r = lossy_string(self.comm.as_slice());
        r.append(" (");
        let pid_text = crate::digits::fmt_u32(self.pid);
        r.append(pid_text.as_str());
        r.append("): ");
        append_rendered_slots(&mut r, &self.args);
        append_rendered_slots(&mut r, &self.envs);
        proof {
            assert(r@ =~= text_of(self.comm@) + " ("@ + crate::digits::dec_text(
                self.pid as int,
            ) + "): "@ + rendered_slots(self.args.deep_view()) + rendered_slots(
                self.envs.deep_view(),
            ));
        }
        r
    }
}

// ---------------------------------------------------------------------------
// Encoding a structured record back onto the wire.
// ---------------------------------------------------------------------------

/// The slot bytes written for text number `i` of a field list: its UTF-8
/// bytes fitted to the slot capacity, or a zero slot past the end of the
/// list.
pub open spec fn text_slot_bytes(texts: Seq<String>, i: int, size: int) -> Seq<u8> {
    if 0 <= i < texts.len() {
        fit(encode_utf8(texts[i]@), size)
    } else {
        zero_bytes(size)
    }
}

/// The full slot array for a list of texts.
pub open spec fn text_slots(texts: Seq<String>, count: int, size: int) -> Seq<Seq<u8>> {
    Seq::new(count as nat, |i: int| text_slot_bytes(texts, i, size))
}

/// Build the slot buffers for a list of texts.
fn text_slots_exec(texts: &Vec<String>, count: usize, size: usize) -> (r: Vec<Vec<u8>>)
    ensures
        r.deep_view() == text_slots(texts@, count as int, size as int),
        slots_wf(r.deep_view(), count as int, size as int),
{
    let mut r: Vec<Vec<u8>> = Vec::new();
    let mut i: usize = 0;
    while i < count
        invariant
            i <= count,
            r@.len() == i,
            forall|k: int|
                0 <= k < i ==> #[trigger] r@[k]@ == text_slot_bytes(texts@, k, size as int),
        decreases count - i,
    {
        if i < texts.len() {
            r.push(fit_bytes(texts[i].as_str().as_bytes(), size));
        } else {
            r.push(crate::schema::zeroed_buffer(size));
        }
        i = i + 1;
    }
    proof {
        crate::schema::lemma_deep_view_of_slots(r);
        assert(r.deep_view() =~= text_slots(texts@, count as int, size as int));
        assert forall|k: int| 0 <= k < count implies #[trigger] r.deep_view()[k].len()
            == size as int by {
            lemma_fit_len(encode_utf8(texts@[k]@), size as int);
        }
    }
    r
}

/// Truncate a structured record into the fixed-layout event it serializes
/// as: each text field becomes its UTF-8 bytes fitted to the slot
/// capacity; fields past the slot count are dropped.  The `username` is
/// not part of the wire record.
pub fn to_event(d: &DecodedProcessExecution) -> (e: Event)
    requires
        d.pid > 0,
    ensures
        e.well_formed(),
        e.timestamp == d.timestamp,
        e.uid == d.uid,
        e.gid == d.gid,
        e.pid == d.pid,
        e.ppid == d.ppid,
        e.comm@ == fit(encode_utf8(d.comm@), COMM_SIZE as int),
        e.args.deep_view() == text_slots(d.args@, ARG_COUNT as int, ARG_SIZE as int),
        e.envs.deep_view() == text_slots(d.envs@, ENV_COUNT as int, ENV_SIZE as int),
{
    Event {
        timestamp: d.timestamp,
        uid: d.uid,
        gid: d.gid,
        pid: d.pid,
        ppid: d.ppid,
        comm: fit_bytes(d.comm.as_str().as_bytes(), COMM_SIZE),
        args: text_slots_exec(&d.args, ARG_COUNT, ARG_SIZE),
        envs: text_slots_exec(&d.envs, ENV_COUNT, ENV_SIZE),
    }
}

/// The exact frame a structured record serializes to.
pub open spec fn frame_of_execution(d: DecodedProcessExecution) -> Seq<u8> {
    spec_u64_to_le_bytes(d.timestamp) + spec_u32_to_le_bytes(d.uid) + spec_u32_to_le_bytes(d.gid)
        + spec_u32_to_le_bytes(d.pid) + spec_u32_to_le_bytes(d.ppid) + fit(
        encode_utf8(d.comm@),
        COMM_SIZE as int,
    ) + concat_slots(text_slots(d.args@, ARG_COUNT as int, ARG_SIZE as int)) + concat_slots(
        text_slots(d.envs@, ENV_COUNT as int, ENV_SIZE as int),
    )
}

/// Serialize a structured record into one wire frame, truncating
/// over-capacity fields.
pub fn encode_execution(d: &DecodedProcessExecution) -> (r: Vec<u8>)
    requires
        d.pid > 0,
    ensures
        r@ == frame_of_execution(*d),
        r@.len() == EVENT_BYTES,
{
    let e = to_event(d);
    let r = encode_event(&e);
    proof {
        assert(frame_of(e) =~= frame_of_execution(*d));
    }
    r
}

// ---------------------------------------------------------------------------
// The round-trip law.
// ---------------------------------------------------------------------------

/// Text that fits a slot of `size` bytes: its UTF-8 bytes are at most the
/// capacity and hold no null byte.
pub open spec fn slot_fits(text: Seq<char>, size: int) -> bool {
    &&& encode_utf8(text).len() <= size
    &&& forall|i: int| 0 <= i < encode_utf8(text).len() ==> encode_utf8(text)[i] != 0
}

impl DecodedProcessExecution {
    /// An in-range record: positive pid, and every text field fits its
    /// fixed wire capacity with no embedded null byte.
    pub open spec fn wire_fits(self) -> bool {
        &&& self.pid > 0
        &&& slot_fits(self.comm@, COMM_SIZE as int)
        &&& self.args@.len() <= ARG_COUNT
        &&& forall|i: int|
            0 <= i < self.args@.len() ==> slot_fits(#[trigger] self.args@[i]@, ARG_SIZE as int)
        &&& self.envs@.len() <= ENV_COUNT
        &&& forall|i: int|
            0 <= i < self.envs@.len() ==> slot_fits(#[trigger] self.envs@[i]@, ENV_SIZE as int)
    }
}

/// One uniform slot region of a frame decodes back to the text it was
/// encoded from.
proof fn lemma_slot_region_round_trip(texts: Seq<String>, count: int, size: int, i: int)
    requires
        0 <= i < count,
        size > 0,
        texts.len() <= count,
        forall|k: int| 0 <= k < texts.len() ==> slot_fits(#[trigger] texts[k]@, size),
    ensures
        i < texts.len() ==> text_of(null_trim(text_slots(texts, count, size)[i])) == texts[i]@,
        i >= texts.len() ==> text_of(null_trim(text_slots(texts, count, size)[i])) == Seq::<
            char,
        >::empty(),
{
    let slot = text_slots(texts, count, size)[i];
    if i < texts.len() {
        let b = encode_utf8(texts[i]@);
        assert(slot == fit(b, size));
        lemma_null_trim_fit(b, size);
        encode_utf8_valid_utf8(texts[i]@);
        encode_utf8_decode_utf8(texts[i]@);
    } else {
        assert(slot == zero_bytes(size));
        lemma_null_trim_zeros(size);
        assert(valid_utf8(Seq::<u8>::empty()));
        assert(decode_utf8(Seq::<u8>::empty()) =~= Seq::<char>::empty());
    }
}

/// Decoder round-trip law: encoding an in-range record to the wire and
/// reading the frame back yields field equality, and slots past the
/// record's own argument and environment lists read back empty.  Together
/// with the contracts of `encode_execution` and `decode_frame`, this pins
/// the full encode-then-decode pipeline; truncation of over-capacity
/// fields is deterministic because both directions are functions of the
/// record alone.
pub proof fn lemma_codec_round_trip(d: DecodedProcessExecution)
    requires
        d.wire_fits(),
    ensures
        frame_of_execution(d).len() == EVENT_BYTES,
        spec_u64_from_le_bytes(frame_of_execution(d).subrange(0, 8)) == d.timestamp,
        spec_u32_from_le_bytes(frame_of_execution(d).subrange(8, 12)) == d.uid,
        spec_u32_from_le_bytes(frame_of_execution(d).subrange(12, 16)) == d.gid,
        spec_u32_from_le_bytes(frame_of_execution(d).subrange(16, 20)) == d.pid,
        spec_u32_from_le_bytes(frame_of_execution(d).subrange(20, 24)) == d.ppid,
        text_of(null_trim(frame_of_execution(d).subrange(24, 24 + COMM_SIZE))) == d.comm@,
        forall|i: int|
            0 <= i < d.args@.len() ==> text_of(
                null_trim(arg_region(frame_of_execution(d), i)),
            ) == #[trigger] d.args@[i]@,
        forall|i: int|
            d.args@.len() <= i < ARG_COUNT ==> text_of(
                null_trim(#[trigger] arg_region(frame_of_execution(d), i)),
            ) == Seq::<char>::empty(),
        forall|i: int|
            0 <= i < d.envs@.len() ==> text_of(
                null_trim(env_region(frame_of_execution(d), i)),
            ) == #[trigger] d.envs@[i]@,
        forall|i: int|
            d.envs@.len() <= i < ENV_COUNT ==> text_of(
                null_trim(#[trigger] env_region(frame_of_execution(d), i)),
            ) == Seq::<char>::empty(),
{
    lemma_auto_spec_u64_to_from_le_bytes();
    lemma_auto_spec_u32_to_from_le_bytes();
    let f = frame_of_execution(d);
    let a = spec_u64_to_le_bytes(d.timestamp);
    let b1 = spec_u32_to_le_bytes(d.uid);
    let b2 = spec_u32_to_le_bytes(d.gid);
    let b3 = spec_u32_to_le_bytes(d.pid);
    let b4 = spec_u32_to_le_bytes(d.ppid);
    let c = fit(encode_utf8(d.comm@), COMM_SIZE as int);
    let arg_slots = text_slots(d.args@, ARG_COUNT as int, ARG_SIZE as int);
    let env_slots = text_slots(d.envs@, ENV_COUNT as int, ENV_SIZE as int);
    let aa = concat_slots(arg_slots);
    let ee = concat_slots(env_slots);
    assert forall|k: int| 0 <= k < ARG_COUNT implies #[trigger] arg_slots[k].len()
        == ARG_SIZE as int by {
        lemma_fit_len(encode_utf8(d.args@[k]@), ARG_SIZE as int);
    }
    assert forall|k: int| 0 <= k < ENV_COUNT implies #[trigger] env_slots[k].len()
        == ENV_SIZE as int by {
        lemma_fit_len(encode_utf8(d.envs@[k]@), ENV_SIZE as int);
    }
    lemma_concat_len(arg_slots, ARG_COUNT as int, ARG_SIZE as int);
    lemma_concat_len(env_slots, ENV_COUNT as int, ENV_SIZE as int);
    lemma_fit_len(encode_utf8(d.comm@), COMM_SIZE as int);
    assert(f.len() == EVENT_BYTES);
    assert(f.subrange(0, 8) =~= a);
    assert(f.subrange(8, 12) =~= b1);
    assert(f.subrange(12, 16) =~= b2);
    assert(f.subrange(16, 20) =~= b3);
    assert(f.subrange(20, 24) =~= b4);
    assert(f.subrange(24, 24 + COMM_SIZE) =~= c);
    lemma_null_trim_fit(encode_utf8(d.comm@), COMM_SIZE as int);
    encode_utf8_valid_utf8(d.comm@);
    encode_utf8_decode_utf8(d.comm@);
    let arg_base = 24 + COMM_SIZE as int;
    let env_base = arg_base + ARG_COUNT as int * ARG_SIZE as int;
    assert forall|i: int| 0 <= i < ARG_COUNT implies #[trigger] arg_region(f, i)
        == arg_slots[i] by {
        lemma_concat_slot_at(arg_slots, ARG_COUNT as int, ARG_SIZE as int, i);
        assert(0 <= i * ARG_SIZE && i * ARG_SIZE + ARG_SIZE <= ARG_COUNT * ARG_SIZE)
            by (nonlinear_arith)
            requires
                0 <= i < ARG_COUNT as int,
        ;
        assert(arg_region(f, i) =~= aa.subrange(i * ARG_SIZE, i * ARG_SIZE + ARG_SIZE));
    }
    assert forall|i: int| 0 <= i < ENV_COUNT implies #[trigger] env_region(f, i)
        == env_slots[i] by {
        lemma_concat_slot_at(env_slots, ENV_COUNT as int, ENV_SIZE as int, i);
        assert(0 <= i * ENV_SIZE && i * ENV_SIZE + ENV_SIZE <= ENV_COUNT * ENV_SIZE)
            by (nonlinear_arith)
            requires
                0 <= i < ENV_COUNT as int,
        ;
        assert(env_region(f, i) =~= ee.subrange(i * ENV_SIZE, i * ENV_SIZE + ENV_SIZE));
    }
    assert forall|i: int| 0 <= i < ARG_COUNT implies (if i < d.args@.len() {
        text_of(null_trim(arg_region(f, i))) == d.args@[i]@
    } else {
        text_of(null_trim(arg_region(f, i))) == Seq::<char>::empty()
    }) by {
        lemma_slot_region_round_trip(d.args@, ARG_COUNT as int, ARG_SIZE as int, i);
    }
    assert forall|i: int| 0 <= i < ENV_COUNT implies (if i < d.envs@.len() {
        text_of(null_trim(env_region(f, i))) == d.envs@[i]@
    } else {
        text_of(null_trim(env_region(f, i))) == Seq::<char>::empty()
    }) by {
        lemma_slot_region_round_trip(d.envs@, ENV_COUNT as int, ENV_SIZE as int, i);
    }
}

} // verus!
