//! What the session manager works on, as mathematics, and the rules by which it changes.

use crate::runtime::Runtime;
use vstd::prelude::*;

verus! {

/// The state of the session manager, and what it sees of the runtime around it. Accounts are of
/// type `A`, session keys of type `K`.
#[verifier::ext_equal]
#[verifier::reject_recursive_types(A)]
pub struct SessionState<A, K> {
    /// The current set of validators.
    pub validators: Seq<A>,
    /// The length of a session, in blocks.
    pub session_length: int,
    /// How many sessions have ended.
    pub current_index: int,
    /// When the current session started.
    pub current_start: int,
    /// By how many percent a session must be bound to end late before it is cut short.
    pub broken_percent_late: int,
    /// A new session is forced if this is there: `true` for a normal rotation, `false` for an
    /// exceptional one.
    pub forcing_new_session: Option<bool>,
    /// The block from which sessions are counted, if it is not block zero.
    pub last_length_change: Option<int>,
    /// The key that a validator is to have from the next session on.
    pub next_key_for: Map<A, K>,
    /// The length that sessions are to have from the next one on.
    pub next_session_length: Option<int>,
    /// The block being executed.
    pub block_number: int,
    /// The time of that block.
    pub now: int,
    /// The time from one block to the next.
    pub block_period: int,
    /// The keys that take part in consensus.
    pub authorities: Seq<K>,
}

/// The state of the session manager of a runtime.
pub type StateOf<T> = SessionState<
    <<T as Runtime>::AccountId as DeepView>::V,
    <<T as Runtime>::SessionKey as DeepView>::V,
>;

/// `authorities` with `key` at `index`; the same where there is no such place.
pub open spec fn with_authority<K>(authorities: Seq<K>, index: int, key: K) -> Seq<K> {
    if 0 <= index < authorities.len() {
        authorities.update(index, key)
    } else {
        authorities
    }
}

/// Positions in the authority list are counted in four bytes.
pub open spec fn index_limit() -> int {
    0x1_0000_0000
}

impl<A, K> SessionState<A, K> {
    /// The block from which sessions are counted.
    pub open spec fn counted_from(self) -> int {
        match self.last_length_change {
            Some(block) => block,
            None => 0,
        }
    }

    /// Whether a session ends with this block: a whole number of sessions fits in between.
    pub open spec fn is_final_block(self) -> bool {
        (self.block_number - self.counted_from()) % self.session_length == 0
    }

    /// How many blocks there are still to come in this session: the distance to the next block
    /// that is a whole number of sessions away.
    pub open spec fn blocks_remaining(self) -> int {
        (self.counted_from() - self.block_number) % self.session_length
    }

    /// Sessions have a length and are counted from a block that has come, and the block count
    /// stays below `block_limit` throughout.
    pub open spec fn counts_blocks(self, block_limit: int) -> bool {
        &&& 0 < self.session_length
        &&& self.counted_from() <= self.block_number
        &&& self.block_number - self.counted_from() + self.session_length - 1 < block_limit
    }

    /// The time that a session takes where every block is on time. Block counts are cut off at
    /// `moment_limit` where they are turned into times.
    pub open spec fn ideal_session_duration(self, moment_limit: int) -> int {
        (self.session_length % moment_limit) * self.block_period
    }

    /// The earliest time at which this session can still end.
    pub open spec fn earliest_end(self, moment_limit: int) -> int {
        self.now + (self.blocks_remaining() % moment_limit) * self.block_period
    }

    /// The time until which this session may last, delay included.
    pub open spec fn latest_end(self, moment_limit: int) -> int {
        self.current_start + self.ideal_session_duration(moment_limit) * (100
            + self.broken_percent_late) / 100
    }

    /// Whether the current validators take too long: the session can no longer end in time.
    pub open spec fn broken_validation(self, moment_limit: int) -> bool {
        self.earliest_end(moment_limit) > self.latest_end(moment_limit)
    }

    /// The times that `broken_validation` is about, and those on the way to them, stay below
    /// `moment_limit`.
    pub open spec fn measures_time(self, moment_limit: int) -> bool {
        &&& self.ideal_session_duration(moment_limit) < moment_limit
        &&& self.earliest_end(moment_limit) < moment_limit
        &&& 100 + self.broken_percent_late < moment_limit
        &&& self.ideal_session_duration(moment_limit) * (100 + self.broken_percent_late)
            < moment_limit
        &&& self.latest_end(moment_limit) < moment_limit
    }

    /// Whether the session rotates at the end of this block.
    pub open spec fn rotation_due(self, moment_limit: int) -> bool {
        ||| self.forcing_new_session is Some
        ||| self.is_final_block()
        ||| self.broken_validation(moment_limit)
    }

    /// There is a next session to go on to: the time has not run backwards, and the count of
    /// sessions stays below `block_limit`.
    pub open spec fn can_rotate(self, block_limit: int) -> bool {
        &&& self.current_start <= self.now
        &&& self.current_index + 1 < block_limit
    }

    /// The state with the next session begun, before anyone hears of it. A pending length takes
    /// effect. Where it does, or where the old session did not last to its final block, sessions
    /// are counted from here on.
    pub open spec fn next_session(self, is_final_block: bool) -> Self {
        SessionState {
            current_index: self.current_index + 1,
            current_start: self.now,
            session_length: match self.next_session_length {
                Some(length) => length,
                None => self.session_length,
            },
            next_session_length: None,
            last_length_change: if self.next_session_length is Some || !is_final_block {
                Some(self.block_number)
            } else {
                self.last_length_change
            },
            ..self
        }
    }

    /// The state with the pending key of validator `i`, if there is one, made the authority at
    /// the validator's position.
    pub open spec fn key_updated(self, i: int) -> Self {
        let validator = self.validators[i];
        if self.next_key_for.contains_key(validator) {
            SessionState {
                next_key_for: self.next_key_for.remove(validator),
                authorities: with_authority(
                    self.authorities,
                    i % index_limit(),
                    self.next_key_for[validator],
                ),
                ..self
            }
        } else {
            self
        }
    }

    /// The state with the pending keys of the first `n` validators in place.
    pub open spec fn keys_updated_up_to(self, n: nat) -> Self
        decreases n,
    {
        if n == 0 {
            self
        } else {
            self.keys_updated_up_to((n - 1) as nat).key_updated(n - 1)
        }
    }

    /// The state with the pending keys of all validators in place.
    pub open spec fn keys_updated(self) -> Self {
        self.keys_updated_up_to(self.validators.len())
    }
}

} // verus!
