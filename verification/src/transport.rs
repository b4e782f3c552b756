//! Bounded lock-free byte transport between the privileged capture context
//! and the userspace consumer.
//!
//! The producer side never blocks: a reservation on a full transport fails
//! immediately and the event is dropped.  Published frames reach the
//! consumer exactly once, intact, in submission order.  This module models
//! the shared ring as one bounded queue with an explicit reserve / write /
//! submit publication protocol and a consumer `poll`.

use vstd::prelude::*;

verus! {

/// Total byte length of a sequence of frames.
pub open spec fn total_len(s: Seq<Seq<u8>>) -> int
    decreases s.len(),
{
    if s.len() == 0 {
        0
    } else {
        s[0].len() + total_len(s.drop_first())
    }
}

pub proof fn lemma_total_len_nonneg(s: Seq<Seq<u8>>)
    ensures
        total_len(s) >= 0,
    decreases s.len(),
{
    if s.len() > 0 {
        lemma_total_len_nonneg(s.drop_first());
    }
}

pub proof fn lemma_total_len_push(s: Seq<Seq<u8>>, x: Seq<u8>)
    ensures
        total_len(s.push(x)) == total_len(s) + x.len(),
    decreases s.len(),
{
    if s.len() == 0 {
        assert(s.push(x)[0] == x);
        assert(s.push(x).drop_first() =~= Seq::<Seq<u8>>::empty());
        assert(total_len(s.push(x)) == x.len() + total_len(Seq::<Seq<u8>>::empty()));
    } else {
        assert(s.push(x)[0] == s[0]);
        assert(s.push(x).drop_first() =~= s.drop_first().push(x));
        lemma_total_len_push(s.drop_first(), x);
        assert(total_len(s.push(x)) == s[0].len() + total_len(s.drop_first().push(x)));
    }
}

/// Bounded byte-oriented queue: a single producer reserves, writes and
/// publishes fixed-size frames; a single consumer polls them in order.
pub struct Transport {
    capacity: usize,
    used: usize,
    reserved: Option<Vec<u8>>,
    frames: Vec<Vec<u8>>,
}

impl Transport {
    /// Fixed total byte capacity the transport was created with.
    pub closed spec fn cap(self) -> int {
        self.capacity as int
    }

    /// Bytes held by published frames plus an open reservation.
    pub closed spec fn used_bytes(self) -> int {
        self.used as int
    }

    /// Published frames, oldest first.
    pub closed spec fn frames_view(self) -> Seq<Seq<u8>> {
        self.frames.deep_view()
    }

    /// The open reservation, if any.
    pub closed spec fn reserved_view(self) -> Option<Seq<u8>> {
        match self.reserved {
            Some(r) => Some(r@),
            None => None,
        }
    }

    pub open spec fn well_formed(self) -> bool {
        &&& self.used_bytes() == total_len(self.frames_view()) + (match self.reserved_view() {
            Some(r) => r.len() as int,
            None => 0,
        })
        &&& self.used_bytes() <= self.cap()
    }

    /// A reservation of `size` bytes is admitted exactly when it fits in
    /// the remaining capacity.
    pub open spec fn admits(self, size: int) -> bool {
        self.used_bytes() + size <= self.cap()
    }

    pub fn new(capacity: usize) -> (t: Transport)
        ensures
            t.well_formed(),
            t.cap() == capacity,
            t.used_bytes() == 0,
            t.frames_view() == Seq::<Seq<u8>>::empty(),
            t.reserved_view() is None,
    {
        let t = Transport { capacity, used: 0, reserved: None, frames: Vec::new() };
        assert(t.frames_view() =~= Seq::<Seq<u8>>::empty());
        t
    }

    /// Reserve a zero-filled writable region of `size` bytes, or report "no
    /// space".  Never blocks and never drops published frames: on failure
    /// the transport is unchanged.
    pub fn reserve(&mut self, size: usize) -> (ok: bool)
        requires
            old(self).well_formed(),
            old(self).reserved_view() is None,
        ensures
            final(self).well_formed(),
            ok == old(self).admits(size as int),
            final(self).cap() == old(self).cap(),
            final(self).frames_view() == old(self).frames_view(),
            ok ==> final(self).reserved_view() == Some(crate::schema::zero_bytes(size as int))
                && final(self).used_bytes() == old(self).used_bytes() + size,
            !ok ==> *final(self) == *old(self),
    {
        if size <= self.capacity - self.used {
            self.reserved = Some(crate::schema::zeroed_buffer(size));
            self.used = self.used + size;
            true
        } else {
            false
        }
    }

    /// Fill the open reservation with `data`.
    pub fn write_reserved(&mut self, data: &Vec<u8>)
        requires
            old(self).well_formed(),
            old(self).reserved_view() matches Some(r) && r.len() == data@.len(),
        ensures
            final(self).well_formed(),
            final(self).cap() == old(self).cap(),
            final(self).used_bytes() == old(self).used_bytes(),
            final(self).frames_view() == old(self).frames_view(),
            final(self).reserved_view() == Some(data@),
    {
        self.reserved = Some(data.clone());
    }

    /// Atomically publish the open reservation as the newest frame.
    pub fn submit(&mut self)
        requires
            old(self).well_formed(),
            old(self).reserved_view() is Some,
        ensures
            final(self).well_formed(),
            final(self).cap() == old(self).cap(),
            final(self).used_bytes() == old(self).used_bytes(),
            final(self).reserved_view() is None,
            final(self).frames_view() == old(self).frames_view().push(
                old(self).reserved_view()->Some_0,
            ),
    {
        let r = self.reserved.take().unwrap();
        proof {
            lemma_total_len_push(self.frames_view(), r@);
        }
        self.frames.push(r);
        proof {
            crate::schema::lemma_deep_view_of_slots(self.frames);
            assert(self.frames_view() =~= old(self).frames_view().push(r@));
        }
    }

    /// Return the next published frame in submission order, or `None` on an
    /// empty transport.
    pub fn poll(&mut self) -> (r: Option<Vec<u8>>)
        requires
            old(self).well_formed(),
        ensures
            final(self).well_formed(),
            final(self).cap() == old(self).cap(),
            final(self).reserved_view() == old(self).reserved_view(),
            match r {
                None => old(self).frames_view().len() == 0 && *final(self) == *old(self),
                Some(f) => {
                    &&& old(self).frames_view().len() > 0
                    &&& f@ == old(self).frames_view()[0]
                    &&& final(self).frames_view() == old(self).frames_view().drop_first()
                    &&& final(self).used_bytes() == old(self).used_bytes() - f@.len()
                },
            },
    {
        if self.frames.len() == 0 {
            proof {
                assert(self.frames_view().len() == 0);
            }
            None
        } else {
            let f = self.frames.remove(0);
            proof {
                lemma_total_len_nonneg(old(self).frames_view().drop_first());
                crate::schema::lemma_deep_view_of_slots(self.frames);
                crate::schema::lemma_deep_view_of_slots(old(self).frames);
                assert(self.frames_view() =~= old(self).frames_view().drop_first());
            }
            self.used = self.used - f.len();
            Some(f)
        }
    }
}

/// Backpressure relief law: a reservation that a full transport refused is
/// owed success once the consumer drains a frame at least as large, because
/// polling a frame frees exactly its byte length.  Together with the
/// contracts of `reserve` and `poll`, this rules out deadlock between a
/// non-blocking producer and a draining consumer.
pub proof fn lemma_drain_enables_reserve(t: Transport, size: int)
    requires
        t.well_formed(),
        t.frames_view().len() > 0,
        size <= t.frames_view()[0].len(),
    ensures
        t.used_bytes() - t.frames_view()[0].len() + size <= t.cap(),
{
}

} // verus!
