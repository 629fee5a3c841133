use vstd::prelude::*;
use crate::message::ParticipantId;

verus! {

/// The id that is handed out next by a source whose counter stands at `next`,
/// for a room whose highest id so far is `floor`: the smallest id that is at
/// least `next` and above `floor`. `None` once the id space is used up.
pub open spec fn fresh_id(next: u64, floor: u64) -> Option<ParticipantId> {
    let candidate: int = if floor >= next { floor + 1 } else { next as int };
    if candidate < u64::MAX {
        Some(candidate as u64)
    } else {
        None
    }
}

/// The process-wide source of participant ids.
pub struct ParticipantIds {
    next: u64,
}

impl ParticipantIds {
    /// The lower bound of every id that will still be handed out.
    pub closed spec fn next_id(&self) -> u64 {
        self.next
    }

    /// A source that has handed out nothing; its first id is 1.
    pub fn new() -> (ids: ParticipantIds)
        ensures
            ids.next_id() == 1,
    {
        ParticipantIds { next: 1 }
    }

    /// Hands out an id that is above `floor` and above every id handed out
    /// before, or `None`, changing nothing, once the id space is used up.
    pub fn allocate_after(&mut self, floor: u64) -> (id: Option<ParticipantId>)
        ensures
            id == fresh_id(old(self).next_id(), floor),
            match id {
                Some(i) => final(self).next_id() == i + 1,
                None => final(self).next_id() == old(self).next_id(),
            },
    {
        let candidate: u64 = if floor >= self.next {
            if floor == u64::MAX {
                return None;
            }
            floor + 1
        } else {
            self.next
        };
        if candidate == u64::MAX {
            return None;
        }
        self.next = candidate + 1;
        Some(candidate)
    }
}

/// An id that is handed out is above the floor and at least the counter, it
/// is never 0, and it leaves room for the counter to move past it: no later
/// call hands it out again.
pub proof fn theorem_fresh_id_is_new(next: u64, floor: u64)
    ensures
        fresh_id(next, floor) matches Some(id) ==> id > floor && id >= next && id >= 1 && id
            < u64::MAX,
{
}

} // verus!
