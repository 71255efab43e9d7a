//! A generator of unique, strictly increasing 64-bit ids, made of a
//! millisecond timestamp and a per-millisecond sequence number.

use crate::clock::{current_timestamp_nanos, nanos_to_millis};
use crate::hash::is_hex_digit;
use uuid::Uuid;
use vstd::prelude::*;

verus! {

/// Number of characters in a UUID written with hyphens.
pub const UUID_LEN: usize = 36;

/// Whether `text` has the shape of a UUID written with hyphens: thirty-six
/// characters, hyphens at the places 8, 13, 18 and 23, and lowercase
/// hexadecimal digits everywhere else.
pub open spec fn is_uuid_text(text: Seq<char>) -> bool {
    &&& text.len() == UUID_LEN
    &&& forall|i: int|
        0 <= i < text.len() ==> if i == 8 || i == 13 || i == 18 || i == 23 {
            text[i] == '-'
        } else {
            is_hex_digit(#[trigger] text[i])
        }
}

/// Calls `Uuid::new_v4` of the `uuid` crate and renders the result with its
/// `to_string`. The value is random; all that is claimed is the shape of
/// the hyphenated lowercase form that `to_string` writes.
#[verifier::external_body]
pub fn get_uuid() -> (id: String)
    ensures
        id@.len() == UUID_LEN,
        is_uuid_text(id@),
{
    Uuid::new_v4().to_string()
}

/// How many ids one millisecond can hold.
pub const SEQUENCE_LIMIT: u64 = 1000;

/// The factor by which the timestamp is shifted to make room for the
/// sequence number: ten bits.
pub const SEQUENCE_SPAN: u64 = 1024;

/// Timestamps from this value on no longer fit beside the sequence number.
pub const TIMESTAMP_LIMIT: u64 = 0x40_0000_0000_0000;

/// How often `allocate_id` reads the clock before it gives up.
pub const SPIN_LIMIT: usize = 1_000_000;

/// The state of a generator: the timestamp and the sequence number of the
/// id it issued last.
pub struct IdGeneratorView {
    /// Millisecond of the last id.
    pub last_timestamp: u64,
    /// Sequence number of the last id within that millisecond.
    pub sequence: u64,
}

impl IdGeneratorView {
    /// The sequence number lies within one millisecond's room and the
    /// timestamp within the room left beside it.
    pub open spec fn well_formed(self) -> bool {
        &&& self.sequence < SEQUENCE_LIMIT
        &&& self.last_timestamp < TIMESTAMP_LIMIT
    }

    /// The id issued last; 0 for a generator that has issued none.
    pub open spec fn last_id(self) -> int {
        self.last_timestamp * SEQUENCE_SPAN + self.sequence
    }

    /// Whether an id can be issued at time `now`: the clock has moved past
    /// the last id's millisecond, or stands in it with sequence numbers
    /// left. A clock that went backwards, or a millisecond that is used up,
    /// makes the caller wait.
    pub open spec fn can_issue(self, now: u64) -> bool {
        &&& now < TIMESTAMP_LIMIT
        &&& (now > self.last_timestamp || (now == self.last_timestamp && self.sequence + 1
            < SEQUENCE_LIMIT))
    }

    /// The state after asking for an id at time `now`.
    pub open spec fn step(self, now: u64) -> IdGeneratorView {
        if !self.can_issue(now) {
            self
        } else if now == self.last_timestamp {
            IdGeneratorView { last_timestamp: now, sequence: (self.sequence + 1) as u64 }
        } else {
            IdGeneratorView { last_timestamp: now, sequence: 0 }
        }
    }

    /// Every id issued is larger than the one before it, so no id is issued
    /// twice, whatever the clock does.
    pub proof fn lemma_ids_increase(self, now: u64)
        requires
            self.well_formed(),
            self.can_issue(now),
        ensures
            self.step(now).well_formed(),
            self.step(now).last_id() > self.last_id(),
            self.step(now).last_id() <= u64::MAX,
    {
    }

    /// Where no id can be issued the state does not change.
    pub proof fn lemma_wait_changes_nothing(self, now: u64)
        requires
            !self.can_issue(now),
        ensures
            self.step(now) == self,
    {
    }
}

/// A stateful id generator. Share it behind a lock where several threads
/// need ids.
pub struct IdGenerator {
    last_timestamp: u64,
    sequence: u64,
}

impl View for IdGenerator {
    type V = IdGeneratorView;

    closed spec fn view(&self) -> IdGeneratorView {
        IdGeneratorView { last_timestamp: self.last_timestamp, sequence: self.sequence }
    }
}

impl IdGenerator {
    /// The invariant of the generator.
    pub open spec fn wf(&self) -> bool {
        self@.well_formed()
    }

    /// A generator that has issued no id yet.
    pub fn new() -> (generator: IdGenerator)
        ensures
            generator.wf(),
            generator@ == (IdGeneratorView { last_timestamp: 0, sequence: 0 }),
    {
        IdGenerator { last_timestamp: 0, sequence: 0 }
    }

    /// The id issued last; 0 where none was issued.
    pub fn last_id(&self) -> (id: u64)
        requires
            self.wf(),
        ensures
            id == self@.last_id(),
    {
        let timestamp = self.last_timestamp;
        let sequence = self.sequence;
        assert((timestamp << 10) | sequence == timestamp * 1024 + sequence) by (bit_vector)
            requires
                timestamp < 0x40_0000_0000_0000u64,
                sequence < 1024u64,
        ;
        (timestamp << 10) | sequence
    }

    /// Issues the id for time `now`, given in milliseconds, or `None` where
    /// the caller has to wait for the clock: it went backwards, or the
    /// current millisecond is used up.
    pub fn next_id(&mut self, now: u64) -> (id: Option<u64>)
        requires
            old(self).wf(),
        ensures
            final(self).wf(),
            final(self)@ == old(self)@.step(now),
            old(self)@.can_issue(now) ==> id == Some(final(self)@.last_id() as u64),
            !old(self)@.can_issue(now) ==> id is None,
    {
        if now >= TIMESTAMP_LIMIT || now < self.last_timestamp {
            return None;
        }
        if now == self.last_timestamp {
            if self.sequence + 1 >= SEQUENCE_LIMIT {
                return None;
            }
            self.sequence = self.sequence + 1;
        } else {
            self.sequence = 0;
            self.last_timestamp = now;
        }
        Some(self.last_id())
    }

    /// Issues an id for the current time. While the clock stands in a
    /// used-up millisecond, or behind the last id, the clock is read again,
    /// up to `SPIN_LIMIT` times; `None` means it did not move on in that
    /// time, and nothing has changed.
    pub fn allocate_id(&mut self) -> (id: Option<u64>)
        requires
            old(self).wf(),
        ensures
            final(self).wf(),
            match id {
                Some(id) => exists|now: u64|
                    #![trigger old(self)@.step(now)]
                    old(self)@.can_issue(now) && final(self)@ == old(self)@.step(now) && id
                        == final(self)@.last_id(),
                None => final(self)@ == old(self)@,
            },
            id is Some ==> id->Some_0 > old(self)@.last_id(),
    {
        let mut spins: usize = 0;
        while spins < SPIN_LIMIT
            invariant
                self.wf(),
                self@ == old(self)@,
            decreases SPIN_LIMIT - spins,
        {
            let now = nanos_to_millis(current_timestamp_nanos());
            let issued = self.next_id(now);
            if issued.is_some() {
                proof {
                    old(self)@.lemma_ids_increase(now);
                }
                return issued;
            }
            spins += 1;
        }
        None
    }
}

} // verus!
