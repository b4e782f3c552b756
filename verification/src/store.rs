//! The live event store: a bounded, insertion-ordered buffer of the most
//! recent decoded executions, with FIFO eviction — a trailing window, not a
//! full history — and a selection cursor for the dashboard.

use vstd::prelude::*;
use crate::textline::ProcessExecution;

verus! {

/// Fixed capacity of the live window.
pub const STORE_CAPACITY: usize = 50;

/// What one push does to the stored sequence: append at the tail; at
/// capacity, evict the oldest entry first.
pub open spec fn push_model(s: Seq<ProcessExecution>, e: ProcessExecution) -> Seq<
    ProcessExecution,
> {
    if s.len() < STORE_CAPACITY {
        s.push(e)
    } else {
        s.drop_first().push(e)
    }
}

/// What a whole sequence of pushes does.
pub open spec fn push_all(s: Seq<ProcessExecution>, es: Seq<ProcessExecution>) -> Seq<
    ProcessExecution,
>
    decreases es.len(),
{
    if es.len() == 0 {
        s
    } else {
        push_all(push_model(s, es[0]), es.drop_first())
    }
}

/// Bounded, insertion-ordered buffer of recent executions.  Length never
/// exceeds the capacity; insertion is always at the tail.
pub struct LiveEventStore {
    items: Vec<ProcessExecution>,
    selected: Option<usize>,
}

impl LiveEventStore {
    /// The stored executions, oldest first.
    pub closed spec fn view(self) -> Seq<ProcessExecution> {
        self.items@
    }

    /// The selection cursor.
    pub closed spec fn sel(self) -> Option<int> {
        match self.selected {
            Some(i) => Some(i as int),
            None => None,
        }
    }

    /// The cursor is always valid when the store is non-empty; on an empty
    /// store it may only rest at the initial position.
    pub open spec fn well_formed(self) -> bool {
        &&& self.view().len() <= STORE_CAPACITY
        &&& match self.sel() {
            None => true,
            Some(i) => i < self.view().len() || i == 0,
        }
        &&& forall|i: int| 0 <= i < self.view().len() ==> (#[trigger] self.view()[i]).valid()
    }

    /// An empty store with the cursor at the initial position.
    pub fn new() -> (s: LiveEventStore)
        ensures
            s.well_formed(),
            s.view() == Seq::<ProcessExecution>::empty(),
            s.sel() == Some(0int),
    {
        let s = LiveEventStore { items: Vec::new(), selected: Some(0) };
        assert(s.view() =~= Seq::<ProcessExecution>::empty());
        s
    }

    pub fn len(&self) -> (n: usize)
        ensures
            n == self.view().len(),
    {
        self.items.len()
    }

    /// The entry at `i`, oldest first.
    pub fn get(&self, i: usize) -> (e: &ProcessExecution)
        requires
            i < self.view().len(),
        ensures
            *e == self.view()[i as int],
    {
        &self.items[i]
    }

    /// The selection cursor, if any.
    pub fn selection(&self) -> (r: Option<usize>)
        ensures
            r matches Some(i) ==> self.sel() == Some(i as int),
            r is None <==> self.sel() is None,
    {
        self.selected
    }

    /// Append at the tail; at capacity, evict the oldest entry first.
    /// Amortized constant time in the window size.
    pub fn push(&mut self, e: ProcessExecution)
        requires
            old(self).well_formed(),
            e.valid(),
        ensures
            final(self).well_formed(),
            final(self).view() == push_model(old(self).view(), e),
            final(self).view().len() <= STORE_CAPACITY,
            final(self).sel() == old(self).sel(),
    {
        if self.items.len() == STORE_CAPACITY {
            self.items.remove(0);
            proof {
                assert(self.items@ =~= old(self).view().drop_first());
            }
        }
        self.items.push(e);
    }

    /// Move the cursor to `index`, clamped into the live range; a no-op on
    /// an empty store.
    pub fn select(&mut self, index: usize)
        requires
            old(self).well_formed(),
        ensures
            final(self).well_formed(),
            final(self).view() == old(self).view(),
            old(self).view().len() == 0 ==> *final(self) == *old(self),
            old(self).view().len() > 0 ==> final(self).sel() == Some(
                if index < old(self).view().len() {
                    index as int
                } else {
                    old(self).view().len() - 1
                },
            ),
    {
        if self.items.len() == 0 {
            return ;
        }
        if index < self.items.len() {
            self.selected = Some(index);
        } else {
            self.selected = Some(self.items.len() - 1);
        }
    }

    /// The cursor position after one step forward: down the list, wrapping
    /// from the newest entry back to the oldest.
    pub open spec fn next_position(self) -> int {
        match self.sel() {
            Some(i) => if i >= self.view().len() - 1 {
                0
            } else {
                i + 1
            },
            None => 0,
        }
    }

    /// Step the cursor forward, wrapping at the end; a no-op on an empty
    /// store.
    pub fn selection_next(&mut self)
        requires
            old(self).well_formed(),
        ensures
            final(self).well_formed(),
            final(self).view() == old(self).view(),
            old(self).view().len() == 0 ==> *final(self) == *old(self),
            old(self).view().len() > 0 ==> final(self).sel() == Some(
                old(self).next_position(),
            ),
    {
        if self.items.len() == 0 {
            return ;
        }
        let i = match self.selected {
            Some(i) => {
                if i >= self.items.len() - 1 {
                    0
                } else {
                    i + 1
                }
            },
            None => 0,
        };
        self.selected = Some(i);
    }

    /// The cursor position after one step backward: up the list, wrapping
    /// from the oldest entry to the newest.
    pub open spec fn previous_position(self) -> int {
        match self.sel() {
            Some(i) => if i == 0 {
                self.view().len() - 1
            } else {
                i - 1
            },
            None => 0,
        }
    }

    /// Step the cursor backward, wrapping at the start; a no-op on an
    /// empty store.
    pub fn selection_previous(&mut self)
        requires
            old(self).well_formed(),
        ensures
            final(self).well_formed(),
            final(self).view() == old(self).view(),
            old(self).view().len() == 0 ==> *final(self) == *old(self),
            old(self).view().len() > 0 ==> final(self).sel() == Some(
                old(self).previous_position(),
            ),
    {
        if self.items.len() == 0 {
            return ;
        }
        let i = match self.selected {
            Some(i) => {
                if i == 0 {
                    self.items.len() - 1
                } else {
                    i - 1
                }
            },
            None => 0,
        };
        self.selected = Some(i);
    }
}

/// FIFO eviction law: any run of pushes leaves exactly the newest entries,
/// in their original relative order.  Starting from a store holding `s`,
/// pushing `es` leaves the last `STORE_CAPACITY` entries of `s + es` (all
/// of them when they fit), so the length never exceeds the capacity and,
/// once the window is full, each further push drops exactly the oldest
/// entry.
pub proof fn lemma_store_window(s: Seq<ProcessExecution>, es: Seq<ProcessExecution>)
    requires
        s.len() <= STORE_CAPACITY,
    ensures
        push_all(s, es) == (s + es).skip(
            if s.len() + es.len() <= STORE_CAPACITY {
                0
            } else {
                s.len() + es.len() - STORE_CAPACITY
            },
        ),
        push_all(s, es).len() <= STORE_CAPACITY,
    decreases es.len(),
{
    if es.len() == 0 {
        if s.len() + es.len() <= STORE_CAPACITY {
            assert((s + es).skip(0) =~= s);
        }
    } else {
        let e0 = es[0];
        let rest = es.drop_first();
        let s1 = push_model(s, e0);
        lemma_store_window(s1, rest);
        if s.len() < STORE_CAPACITY {
            assert(s1 + rest =~= s + es);
        } else {
            assert(s1 =~= s.drop_first().push(e0));
            assert(s1 + rest =~= (s + es).skip(1));
            let total = s.len() + es.len();
            assert(total >= STORE_CAPACITY + 1);
            let inner = if s1.len() + rest.len() <= STORE_CAPACITY {
                0
            } else {
                s1.len() + rest.len() - STORE_CAPACITY
            };
            assert((s + es).skip(1).skip(inner) =~= (s + es).skip(1 + inner));
            assert(1 + inner == total - STORE_CAPACITY);
        }
    }
}

} // verus!
