//! The session manager.

use crate::genesis::GenesisConfig;
use crate::runtime::Runtime;
use crate::state::{SessionState, StateOf, with_authority};
use crate::storage_map::StorageMap;
use crate::traits::{As, Convert, Parameter, RefInto, SimpleArithmetic};
use vstd::prelude::*;

verus! {

/// What a call comes to: nothing, or the reason why it was refused.
pub type DispatchResult = Result<(), &'static str>;

/// Is told when the session has changed.
pub trait OnSessionChange<T: Runtime> {
    /// The states `after` that may come of hearing, in state `before`, of a rotation after
    /// `time_elapsed`. A listener that says nothing about it may do anything.
    open spec fn reacts(
        before: StateOf<T>,
        normal_rotation: bool,
        time_elapsed: int,
        after: StateOf<T>,
    ) -> bool {
        true
    }

    /// The session has changed. `session` is at the new session already; the keys of the
    /// validators that it has on return are updated next.
    fn on_session_change(
        session: &mut Module<T>,
        normal_rotation: bool,
        time_elapsed: T::Moment,
    )
        ensures
            Self::reacts(old(session)@, normal_rotation, time_elapsed.value(), final(session)@),
    ;
}

/// Nobody is told.
impl<T: Runtime> OnSessionChange<T> for () {
    open spec fn reacts(
        before: StateOf<T>,
        normal_rotation: bool,
        time_elapsed: int,
        after: StateOf<T>,
    ) -> bool {
        after == before
    }

    fn on_session_change(
        _session: &mut Module<T>,
        _normal_rotation: bool,
        _time_elapsed: T::Moment,
    ) {
    }
}

/// A runtime that has a session manager.
pub trait Trait: Runtime {
    /// The session key that an account has to begin with.
    type ConvertAccountIdToSessionKey: Convert<Self::AccountId, Self::SessionKey>;

    /// Who is told of a session change.
    type OnSessionChange: OnSessionChange<Self>;
}

/// The state after a rotation is one that the listener, told of the new session and of the time
/// that the old one took, leaves behind, with the pending keys of its validators in place.
pub open spec fn rotated<T: Trait>(
    before: StateOf<T>,
    normal_rotation: bool,
    is_final_block: bool,
    after: StateOf<T>,
) -> bool {
    exists|told: StateOf<T>|
        {
            &&& #[trigger] T::OnSessionChange::reacts(
                before.next_session(is_final_block),
                normal_rotation,
                before.now - before.current_start,
                told,
            )
            &&& after == told.keys_updated()
        }
}

/// The state after the check at the end of a block. A forced rotation comes first and uses up the
/// order to force it. Otherwise the session rotates on its final block, or, as an exceptional
/// rotation, where validation is broken. In all other cases nothing changes.
pub open spec fn checked<T: Trait>(before: StateOf<T>, after: StateOf<T>) -> bool {
    let broken = before.broken_validation(T::Moment::limit());
    match before.forcing_new_session {
        Some(normal_rotation) => exists|mid: StateOf<T>|
            {
                &&& #[trigger] rotated::<T>(before, normal_rotation, before.is_final_block(), mid)
                &&& after == (SessionState { forcing_new_session: None, ..mid })
            },
        None => if before.is_final_block() || broken {
            rotated::<T>(before, !broken, before.is_final_block(), after)
        } else {
            after == before
        },
    }
}

/// The session manager, with what it sees of the runtime around it.
pub struct Module<T: Runtime> {
    validators: Vec<T::AccountId>,
    session_length: T::BlockNumber,
    current_index: T::BlockNumber,
    current_start: T::Moment,
    broken_percent_late: T::Moment,
    forcing_new_session: Option<bool>,
    last_length_change: Option<T::BlockNumber>,
    next_key_for: StorageMap<T::AccountId, T::SessionKey>,
    next_session_length: Option<T::BlockNumber>,
    block_number: T::BlockNumber,
    now: T::Moment,
    block_period: T::Moment,
    authorities: Vec<T::SessionKey>,
}

/// The number in an optional field.
pub open spec fn value_of<N: SimpleArithmetic>(n: Option<N>) -> Option<int> {
    match n {
        Some(n) => Some(n.value()),
        None => None,
    }
}

impl<T: Runtime> View for Module<T> {
    type V = StateOf<T>;

    closed spec fn view(&self) -> StateOf<T> {
        SessionState {
            validators: self.validators.deep_view(),
            session_length: self.session_length.value(),
            current_index: self.current_index.value(),
            current_start: self.current_start.value(),
            broken_percent_late: self.broken_percent_late.value(),
            forcing_new_session: self.forcing_new_session,
            last_length_change: value_of(self.last_length_change),
            next_key_for: self.next_key_for@,
            next_session_length: value_of(self.next_session_length),
            block_number: self.block_number.value(),
            now: self.now.value(),
            block_period: self.block_period.value(),
            authorities: self.authorities.deep_view(),
        }
    }
}

impl<T: Runtime> Module<T> {
    /// The numbers in the state are numbers of the runtime's types.
    pub proof fn lemma_in_range(&self)
        ensures
            0 <= self@.session_length < T::BlockNumber::limit(),
            0 <= self@.current_index < T::BlockNumber::limit(),
            0 <= self@.block_number < T::BlockNumber::limit(),
            0 <= self@.counted_from() < T::BlockNumber::limit(),
            self@.last_length_change matches Some(block) ==> 0 <= block < T::BlockNumber::limit(),
            self@.next_session_length matches Some(length) ==> 0 <= length
                < T::BlockNumber::limit(),
            0 <= self@.current_start < T::Moment::limit(),
            0 <= self@.broken_percent_late < T::Moment::limit(),
            0 <= self@.now < T::Moment::limit(),
            0 <= self@.block_period < T::Moment::limit(),
    {
        self.session_length.lemma_in_range();
        self.current_index.lemma_in_range();
        self.block_number.lemma_in_range();
        if let Some(block) = self.last_length_change {
            block.lemma_in_range();
        }
        if let Some(length) = self.next_session_length {
            length.lemma_in_range();
        }
        self.current_start.lemma_in_range();
        self.broken_percent_late.lemma_in_range();
        self.now.lemma_in_range();
        self.block_period.lemma_in_range();
    }

    /// The session manager as `config` sets it up, in a runtime at block `block_number` and time
    /// `now`, whose blocks are `block_period` apart.
    pub fn from_genesis(
        config: GenesisConfig<T>,
        block_number: T::BlockNumber,
        now: T::Moment,
        block_period: T::Moment,
        authorities: Vec<T::SessionKey>,
    ) -> (session: Self)
        ensures
            session@ == config.initial_state(
                block_number.value(),
                now.value(),
                block_period.value(),
                authorities.deep_view(),
            ),
    {
        Module {
            validators: config.validators,
            session_length: config.session_length,
            current_index: T::BlockNumber::zero(),
            current_start: T::Moment::zero(),
            broken_percent_late: config.broken_percent_late,
            forcing_new_session: None,
            last_length_change: None,
            next_key_for: StorageMap::new(),
            next_session_length: None,
            block_number,
            now,
            block_period,
            authorities,
        }
    }

    /// The number of validators currently.
    pub fn validator_count(&self) -> (count: u32)
        ensures
            count == self@.validators.len() as int % 0x1_0000_0000,
    {
        let wide: u64 = self.validators.len() as u64;
        assert(wide as u32 == wide % 0x1_0000_0000) by (bit_vector);
        wide as u32
    }

    /// The last length change, if there was one, zero if not.
    pub fn last_length_change(&self) -> (block: T::BlockNumber)
        ensures
            block.value() == self@.counted_from(),
    {
        match &self.last_length_change {
            Some(block) => block.copied(),
            None => T::BlockNumber::zero(),
        }
    }

    /// The current set of validators.
    pub fn validators(&self) -> (validators: &Vec<T::AccountId>)
        ensures
            validators.deep_view() == self@.validators,
    {
        &self.validators
    }

    /// Current length of the session.
    pub fn length(&self) -> (length: T::BlockNumber)
        ensures
            length.value() == self@.session_length,
    {
        self.session_length.copied()
    }

    /// Current index of the session.
    pub fn current_index(&self) -> (index: T::BlockNumber)
        ensures
            index.value() == self@.current_index,
    {
        self.current_index.copied()
    }

    /// Timestamp when current session started.
    pub fn current_start(&self) -> (start: T::Moment)
        ensures
            start.value() == self@.current_start,
    {
        self.current_start.copied()
    }

    /// Percent by which the session must necessarily finish late before it is cut short.
    pub fn broken_percent_late(&self) -> (percent: T::Moment)
        ensures
            percent.value() == self@.broken_percent_late,
    {
        self.broken_percent_late.copied()
    }

    /// Whether a new session is being forced, and whether it counts as a normal rotation.
    pub fn forcing_new_session(&self) -> (forcing: Option<bool>)
        ensures
            forcing == self@.forcing_new_session,
    {
        self.forcing_new_session
    }

    /// The keys that take part in consensus.
    pub fn authorities(&self) -> (authorities: &Vec<T::SessionKey>)
        ensures
            authorities.deep_view() == self@.authorities,
    {
        &self.authorities
    }

    /// Goes on to block `number`.
    pub fn set_block_number(&mut self, number: T::BlockNumber)
        ensures
            final(self)@ == (SessionState { block_number: number.value(), ..old(self)@ }),
    {
        self.block_number = number;
    }

    /// Sets the time of the block being executed.
    pub fn set_timestamp(&mut self, now: T::Moment)
        ensures
            final(self)@ == (SessionState { now: now.value(), ..old(self)@ }),
    {
        self.now = now;
    }

    /// Sets the session key of the caller to `key`. This doesn't take effect until the next
    /// session.
    pub fn set_key(&mut self, aux: &T::PublicAux, key: T::SessionKey) -> (result: DispatchResult)
        ensures
            result is Ok,
            final(self)@ == (SessionState {
                next_key_for: old(self)@.next_key_for.insert(
                    aux.target().deep_view(),
                    key.deep_view(),
                ),
                ..old(self)@
            }),
    {
        // set new value for next session
        self.next_key_for.insert(aux.ref_into().duplicate(), key);
        Ok(())
    }

    /// Set a new session length. Won't kick in until the next session change (at current length).
    pub fn set_length(&mut self, new: T::BlockNumber) -> (result: DispatchResult)
        ensures
            result is Ok,
            final(self)@ == (SessionState {
                next_session_length: Some(new.value()),
                ..old(self)@
            }),
    {
        self.next_session_length = Some(new);
        Ok(())
    }

    /// Forces a new session.
    pub fn force_new_session(&mut self, normal_rotation: bool) -> (result: DispatchResult)
        ensures
            result is Ok,
            final(self)@ == (SessionState {
                forcing_new_session: Some(normal_rotation),
                ..old(self)@
            }),
    {
        self.forcing_new_session = Some(normal_rotation);
        Ok(())
    }

    /// Get the time that should have elapsed over a session if everything was working perfectly.
    pub fn ideal_session_duration(&self) -> (duration: T::Moment)
        requires
            self@.ideal_session_duration(T::Moment::limit()) < T::Moment::limit(),
        ensures
            duration.value() == self@.ideal_session_duration(T::Moment::limit()),
    {
        let session_length: T::Moment = <T::Moment as As<T::BlockNumber>>::sa(self.length());
        session_length.times(&self.block_period)
    }

    /// Number of blocks remaining in this session, not counting this one. If the session is
    /// due to rotate at the end of this block, then it will return 0. If it just began, then
    /// it will return `self.length() - 1`.
    pub fn blocks_remaining(&self) -> (blocks: T::BlockNumber)
        requires
            self@.counts_blocks(T::BlockNumber::limit()),
        ensures
            blocks.value() == self@.blocks_remaining(),
    {
        let length = self.length();
        let length_minus_1 = length.minus(&T::BlockNumber::one());
        let since = self.block_number.minus(&self.last_length_change());
        let into_session = since.plus(&length_minus_1).modulo(&length);
        proof {
            lemma_distance_to_multiple(since.value(), length.value());
        }
        length_minus_1.minus(&into_session)
    }

    /// Returns `true` if the current validator set is taking too long to validate blocks.
    pub fn broken_validation(&self) -> (broken: bool)
        requires
            self@.counts_blocks(T::BlockNumber::limit()),
            self@.measures_time(T::Moment::limit()),
        ensures
            broken == self@.broken_validation(T::Moment::limit()),
    {
        let remaining: T::Moment = <T::Moment as As<T::BlockNumber>>::sa(self.blocks_remaining());
        let hundred: T::Moment = <T::Moment as As<u64>>::sa(100u64);
        let ideal = self.ideal_session_duration();
        proof {
            hundred.lemma_in_range();
            vstd::arithmetic::div_mod::lemma_small_mod(100, T::Moment::limit() as nat);
            self.now.lemma_in_range();
            self.current_start.lemma_in_range();
            self.broken_percent_late.lemma_in_range();
        }
        let earliest_end = self.now.plus(&remaining.times(&self.block_period));
        let percent = hundred.plus(&self.broken_percent_late);
        let allowed = ideal.times(&percent).divided_by(&hundred);
        let latest_end = self.current_start.plus(&allowed);
        earliest_end.exceeds(&latest_end)
    }

    /// Begins the next session and returns how long the old one took. Nobody is told yet, and
    /// the session keys are those of the old session.
    pub fn start_next_session(&mut self, is_final_block: bool) -> (time_elapsed: T::Moment)
        requires
            old(self)@.can_rotate(T::BlockNumber::limit()),
        ensures
            final(self)@ == old(self)@.next_session(is_final_block),
            time_elapsed.value() == old(self)@.now - old(self)@.current_start,
    {
        let time_elapsed = self.now.minus(&self.current_start);

        // Increment current session index.
        self.current_index = self.current_index.plus(&T::BlockNumber::one());
        self.current_start = self.now.copied();

        // Enact session length change.
        let len_changed: bool = match self.next_session_length.take() {
            Some(next_len) => {
                self.session_length = next_len;
                true
            },
            None => false,
        };
        if len_changed || !is_final_block {
            self.last_length_change = Some(self.block_number.copied());
        }
        time_elapsed
    }

    /// Update any changes in session keys: the pending key of each validator becomes the
    /// authority at the validator's position.
    pub fn update_session_keys(&mut self)
        ensures
            final(self)@ == old(self)@.keys_updated(),
    {
        let mut i: usize = 0;
        while i < self.validators.len()
            invariant
                i <= self.validators@.len(),
                self@ == old(self)@.keys_updated_up_to(i as nat),
                self@.validators == old(self)@.validators,
            decreases self.validators@.len() - i,
        {
            let ghost before = self@;
            let next: Option<T::SessionKey> = self.next_key_for.take(&self.validators[i]);
            if let Some(key) = next {
                let wide: u64 = i as u64;
                assert(wide as u32 == wide % 0x1_0000_0000) by (bit_vector);
                self.set_authority(wide as u32, &key);
            }
            assert(self@ =~= before.key_updated(i as int));
            i = i + 1;
        }
    }

    /// Replaces the authority at `index`, if there is one.
    fn set_authority(&mut self, index: u32, key: &T::SessionKey)
        ensures
            final(self)@ == (SessionState {
                authorities: with_authority(
                    old(self)@.authorities,
                    index as int,
                    key.deep_view(),
                ),
                ..old(self)@
            }),
            final(self).validators == old(self).validators,
    {
        let at: usize = index as usize;
        if at < self.authorities.len() {
            self.authorities.set(at, key.duplicate());
        }
        assert(self@.authorities =~= with_authority(
            old(self)@.authorities,
            index as int,
            key.deep_view(),
        ));
    }
}

impl<T: Trait> Module<T> {
    /// Set the current set of validators.
    ///
    /// A rotation should follow in order to update the session keys to the next validator set.
    pub fn set_validators(&mut self, new: &[T::AccountId])
        ensures
            final(self)@ == (SessionState {
                validators: new.deep_view(),
                authorities: new.deep_view().map_values(
                    |account| T::ConvertAccountIdToSessionKey::converted(account),
                ),
                ..old(self)@
            }),
    {
        let mut validators: Vec<T::AccountId> = Vec::new();
        let mut authorities: Vec<T::SessionKey> = Vec::new();
        let mut i: usize = 0;
        while i < new.len()
            invariant
                i <= new@.len(),
                validators@.len() == i,
                authorities@.len() == i,
                forall|j: int|
                    0 <= j < i ==> (#[trigger] validators@[j]).deep_view() == new@[j].deep_view(),
                forall|j: int|
                    0 <= j < i ==> (#[trigger] authorities@[j]).deep_view()
                        == T::ConvertAccountIdToSessionKey::converted(new@[j].deep_view()),
            decreases new@.len() - i,
        {
            validators.push(new[i].duplicate());
            authorities.push(T::ConvertAccountIdToSessionKey::convert(new[i].duplicate()));
            i = i + 1;
        }
        assert(validators.deep_view() =~= new.deep_view());
        assert(authorities.deep_view() =~= new.deep_view().map_values(
            |account| T::ConvertAccountIdToSessionKey::converted(account),
        ));
        self.validators = validators;
        self.authorities = authorities;
    }

    /// Hook to be called after transaction processing.
    pub fn check_rotate_session(&mut self)
        requires
            old(self)@.counts_blocks(T::BlockNumber::limit()),
            old(self)@.measures_time(T::Moment::limit()),
            old(self)@.rotation_due(T::Moment::limit()) ==> old(self)@.can_rotate(
                T::BlockNumber::limit(),
            ),
        ensures
            checked::<T>(old(self)@, final(self)@),
    {
        // do this last, after the staking system has had chance to switch out the authorities for
        // the new set.
        // check block number and rotate the session if necessary.
        let since = self.block_number.minus(&self.last_length_change());
        let is_final_block: bool = since.modulo(&self.length()).is_zero();
        let broken_validation: bool = self.broken_validation();
        assert(is_final_block == self@.is_final_block());
        if let Some(normal_rotation) = self.forcing_new_session() {
            self.rotate_session(normal_rotation, is_final_block);
            let ghost mid = self@;
            self.forcing_new_session = None;
            assert(rotated::<T>(old(self)@, normal_rotation, is_final_block, mid));
        } else if is_final_block || broken_validation {
            self.rotate_session(!broken_validation, is_final_block);
        }
    }

    /// Move onto next session: register the new authority set.
    pub fn rotate_session(&mut self, normal_rotation: bool, is_final_block: bool)
        requires
            old(self)@.can_rotate(T::BlockNumber::limit()),
        ensures
            rotated::<T>(old(self)@, normal_rotation, is_final_block, final(self)@),
    {
        let time_elapsed = self.start_next_session(is_final_block);
        T::OnSessionChange::on_session_change(self, normal_rotation, time_elapsed);
        self.update_session_keys();
    }

    /// What a block does at its end.
    pub fn execute(&mut self)
        requires
            old(self)@.counts_blocks(T::BlockNumber::limit()),
            old(self)@.measures_time(T::Moment::limit()),
            old(self)@.rotation_due(T::Moment::limit()) ==> old(self)@.can_rotate(
                T::BlockNumber::limit(),
            ),
        ensures
            checked::<T>(old(self)@, final(self)@),
    {
        self.check_rotate_session();
    }
}

/// Where `since` blocks have gone by, the next whole number of sessions is that far away.
proof fn lemma_distance_to_multiple(since: int, length: int)
    requires
        0 < length,
    ensures
        length - 1 - (since + length - 1) % length == (-since) % length,
        0 <= (-since) % length < length,
{
    let q = (since + length - 1) / length;
    let r = (since + length - 1) % length;
    vstd::arithmetic::div_mod::lemma_fundamental_div_mod(since + length - 1, length);
    vstd::arithmetic::div_mod::lemma_mod_bound(since + length - 1, length);
    assert(-since == length * (-q) + (length - 1 - r)) by (nonlinear_arith)
        requires
            since + length - 1 == length * q + r,
    ;
    vstd::arithmetic::div_mod::lemma_fundamental_div_mod_converse(
        -since,
        length,
        -q,
        length - 1 - r,
    );
}

} // verus!
