//! What the functions of the session manager do, in terms of what goes into a call and what comes
//! out of it.

use super::{
    law_key_update_sets_authorities, law_none_remain_in_the_final_block, lemma_keys_up_to,
    lemma_number_reads_back, lemma_told, lemma_told_in_check,
};
use crate::calls::{Call, PrivCall};
use crate::codec::{Decode, Encode};
use crate::genesis::{GenesisConfig, stores};
use crate::runtime::Runtime;
use crate::session::{DispatchResult, Module, OnSessionChange, Trait};
use crate::state::{SessionState, StateOf};
use crate::storage_map::StorageMap;
use crate::traits::{Convert, Identity, Parameter, RefInto, SimpleArithmetic};
use vstd::arithmetic::div_mod::{
    lemma_fundamental_div_mod, lemma_fundamental_div_mod_converse,
};
use vstd::prelude::*;

verus! {

// ---------------------------------------------------------------------------------------------
// The check at the end of a block
// ---------------------------------------------------------------------------------------------

/// A check without cause changes nothing, whether it is made by itself or as what a block does at
/// its end. There is cause where a rotation is forced, where a whole
/// number of sessions has gone by, and, however many blocks remain, where the session can no
/// longer end in time.
pub proof fn law_check_without_cause<T: Trait>(session: &mut Module<T>)
    requires
        call_ensures(Module::<T>::check_rotate_session, (session,), ()) || call_ensures(
            Module::<T>::execute,
            (session,),
            (),
        ),
    ensures
        ({
            let s = old(session)@;
            let since = s.block_number - (match s.last_length_change {
                Some(block) => block,
                None => 0,
            });
            let m = T::Moment::limit();
            let earliest_end = s.now + ((-since) % s.session_length % m) * s.block_period;
            let latest_end = s.current_start + (s.session_length % m) * s.block_period * (100
                + s.broken_percent_late) / 100;
            s.forcing_new_session is None && since % s.session_length != 0 && earliest_end
                <= latest_end ==> final(session)@ == s
        }),
{
    let s = old(session)@;
    assert(s.counted_from() - s.block_number == -(s.block_number - s.counted_from()));
}

/// A check with cause goes on to the next session, which starts now; unless the listener does
/// something about either. The cause may be that a rotation is forced, that a whole number of
/// sessions has gone by, or that the session can no longer end in time, however many blocks
/// remain.
pub proof fn law_check_with_cause<T: Trait>(session: &mut Module<T>)
    requires
        call_ensures(Module::<T>::check_rotate_session, (session,), ()) || call_ensures(
            Module::<T>::execute,
            (session,),
            (),
        ),
        forall|a: StateOf<T>, normal_rotation: bool, time_elapsed: int, b: StateOf<T>| #[trigger]
            T::OnSessionChange::reacts(a, normal_rotation, time_elapsed, b) ==> b.current_index
                == a.current_index && b.current_start == a.current_start,
    ensures
        ({
            let s = old(session)@;
            let t = final(session)@;
            let since = s.block_number - (match s.last_length_change {
                Some(block) => block,
                None => 0,
            });
            let m = T::Moment::limit();
            let earliest_end = s.now + ((-since) % s.session_length % m) * s.block_period;
            let latest_end = s.current_start + (s.session_length % m) * s.block_period * (100
                + s.broken_percent_late) / 100;
            s.forcing_new_session is Some || since % s.session_length == 0 || earliest_end
                > latest_end ==> t.current_index == s.current_index + 1 && t.current_start == s.now
        }),
{
    let s = old(session)@;
    assert(s.counted_from() - s.block_number == -(s.block_number - s.counted_from()));
    if s.rotation_due(T::Moment::limit()) {
        let _ = lemma_told_in_check::<T>(s, final(session)@);
    }
}

/// In a check with cause, the listener finds the next session begun. It hears how long the old
/// one took, and whether the rotation is normal: a forced one is what it was said to be, and any
/// other is, unless the session can no longer end in time. What it leaves behind stays, with the
/// pending keys in place and the order to force a rotation used up.
pub proof fn law_check_tells_the_listener<T: Trait>(
    session: &mut Module<T>,
    begun: StateOf<T>,
    normal: bool,
    time_elapsed: int,
)
    requires
        call_ensures(Module::<T>::check_rotate_session, (session,), ()) || call_ensures(
            Module::<T>::execute,
            (session,),
            (),
        ),
        ({
            let s = old(session)@;
            let since = s.block_number - (match s.last_length_change {
                Some(block) => block,
                None => 0,
            });
            let m = T::Moment::limit();
            let earliest_end = s.now + ((-since) % s.session_length % m) * s.block_period;
            let latest_end = s.current_start + (s.session_length % m) * s.block_period * (100
                + s.broken_percent_late) / 100;
            &&& time_elapsed == s.now - s.current_start
            &&& normal == (match s.forcing_new_session {
                Some(normal_rotation) => normal_rotation,
                None => earliest_end <= latest_end,
            })
            &&& begun == (SessionState {
                current_index: s.current_index + 1,
                current_start: s.now,
                session_length: match s.next_session_length {
                    Some(length) => length,
                    None => s.session_length,
                },
                next_session_length: None,
                last_length_change: if s.next_session_length is Some || since % s.session_length
                    != 0 {
                    Some(s.block_number)
                } else {
                    s.last_length_change
                },
                ..s
            })
        }),
    ensures
        ({
            let s = old(session)@;
            let t = final(session)@;
            let since = s.block_number - (match s.last_length_change {
                Some(block) => block,
                None => 0,
            });
            let m = T::Moment::limit();
            let earliest_end = s.now + ((-since) % s.session_length % m) * s.block_period;
            let latest_end = s.current_start + (s.session_length % m) * s.block_period * (100
                + s.broken_percent_late) / 100;
            s.forcing_new_session is Some || since % s.session_length == 0 || earliest_end
                > latest_end ==> exists|told: StateOf<T>|
                {
                    &&& #[trigger] T::OnSessionChange::reacts(
                        begun,
                        normal,
                        time_elapsed,
                        told,
                    )
                    &&& t.validators == told.validators
                    &&& t.session_length == told.session_length
                    &&& t.current_index == told.current_index
                    &&& t.current_start == told.current_start
                    &&& t.broken_percent_late == told.broken_percent_late
                    &&& t.forcing_new_session == (if s.forcing_new_session is Some {
                        None
                    } else {
                        told.forcing_new_session
                    })
                    &&& t.last_length_change == told.last_length_change
                    &&& t.next_session_length == told.next_session_length
                    &&& t.block_number == told.block_number
                    &&& t.now == told.now
                    &&& t.block_period == told.block_period
                    // no validator is left with a pending key, and everyone else keeps theirs
                    &&& forall|a: <T::AccountId as DeepView>::V| #[trigger]
                        t.next_key_for.contains_key(a) <==> told.next_key_for.contains_key(a)
                            && !told.validators.contains(a)
                    &&& forall|a: <T::AccountId as DeepView>::V| #[trigger]
                        t.next_key_for.contains_key(a) ==> t.next_key_for[a]
                            == told.next_key_for[a]
                    // the pending keys are at their validators' positions
                    &&& t.authorities.len() == told.authorities.len()
                    &&& told.validators.len() <= 0x1_0000_0000 ==> forall|i: int|
                        0 <= i < t.authorities.len() ==> #[trigger] t.authorities[i] == (if i
                            < told.validators.len() && told.next_key_for.contains_key(
                            told.validators[i],
                        ) && !told.validators.take(i).contains(told.validators[i]) {
                            told.next_key_for[told.validators[i]]
                        } else {
                            told.authorities[i]
                        })
                }
        }),
{
    let s = old(session)@;
    assert(s.counted_from() - s.block_number == -(s.block_number - s.counted_from()));
    assert(begun == s.next_session(s.is_final_block()));
    if s.rotation_due(T::Moment::limit()) {
        let told = lemma_told_in_check::<T>(s, final(session)@);
        lemma_keys_in_place(told);
    }
}

/// The check can be made wherever sessions have a length, are counted from a block that has come,
/// the block count and the times that are compared stay in range, and, where there is cause to
/// rotate, the time has not run backwards and the session index has room for one more.
pub proof fn law_check_can_be_made<T: Trait>(session: &mut Module<T>)
    requires
        ({
            let s = old(session)@;
            let since = s.block_number - (match s.last_length_change {
                Some(block) => block,
                None => 0,
            });
            let m = T::Moment::limit();
            let earliest_end = s.now + ((-since) % s.session_length % m) * s.block_period;
            let latest_end = s.current_start + (s.session_length % m) * s.block_period * (100
                + s.broken_percent_late) / 100;
            let ideal = (s.session_length % m) * s.block_period;
            let b = T::BlockNumber::limit();
            &&& 0 < s.session_length
            &&& 0 <= since
            &&& since + s.session_length - 1 < b
            &&& ideal < m
            &&& earliest_end < m
            &&& 100 + s.broken_percent_late < m
            &&& ideal * (100 + s.broken_percent_late) < m
            &&& latest_end < m
            &&& s.forcing_new_session is Some || since % s.session_length == 0 || earliest_end
                > latest_end ==> s.current_start <= s.now && s.current_index + 1 < b
        }),
    ensures
        call_requires(Module::<T>::check_rotate_session, (session,)),
        call_requires(Module::<T>::execute, (session,)),
{
    let s = old(session)@;
    assert(s.counted_from() - s.block_number == -(s.block_number - s.counted_from()));
}

// ---------------------------------------------------------------------------------------------
// Rotation
// ---------------------------------------------------------------------------------------------

/// Whatever caused a rotation, the session length changes only where a new one was asked for, and
/// then to that one; unless the listener does something about it.
pub proof fn law_rotation_changes_length_only_on_request<T: Trait>(
    session: &mut Module<T>,
    normal_rotation: bool,
    is_final_block: bool,
)
    requires
        call_ensures(
            Module::<T>::rotate_session,
            (session, normal_rotation, is_final_block),
            (),
        ),
        forall|a: StateOf<T>, normal: bool, time_elapsed: int, b: StateOf<T>| #[trigger]
            T::OnSessionChange::reacts(a, normal, time_elapsed, b) ==> b.session_length
                == a.session_length && b.next_session_length == a.next_session_length,
    ensures
        old(session)@.next_session_length is None ==> final(session)@.session_length == old(
            session,
        )@.session_length,
        old(session)@.next_session_length matches Some(length) ==> final(session)@.session_length
            == length,
        final(session)@.next_session_length is None,
{
    let _ = lemma_told::<T>(old(session)@, normal_rotation, is_final_block, final(session)@);
}

/// The same of a check: with or without a rotation, forced or not, on time or late.
pub proof fn law_check_changes_length_only_on_request<T: Trait>(session: &mut Module<T>)
    requires
        call_ensures(Module::<T>::check_rotate_session, (session,), ()) || call_ensures(
            Module::<T>::execute,
            (session,),
            (),
        ),
        forall|a: StateOf<T>, normal: bool, time_elapsed: int, b: StateOf<T>| #[trigger]
            T::OnSessionChange::reacts(a, normal, time_elapsed, b) ==> b.session_length
                == a.session_length && b.next_session_length == a.next_session_length,
    ensures
        old(session)@.next_session_length is None ==> final(session)@.session_length == old(
            session,
        )@.session_length && final(session)@.next_session_length is None,
        old(session)@.next_session_length matches Some(length) ==> final(session)@.session_length
            == length || final(session)@ == old(session)@,
{
    let s = old(session)@;
    if s.rotation_due(T::Moment::limit()) {
        let _ = lemma_told_in_check::<T>(s, final(session)@);
    }
}

/// In a rotation, the listener finds the next session begun and hears how long the old one took.
/// What it leaves behind stays, with the pending keys in place.
pub proof fn law_rotation_tells_the_listener<T: Trait>(
    session: &mut Module<T>,
    normal_rotation: bool,
    is_final_block: bool,
    begun: StateOf<T>,
    time_elapsed: int,
)
    requires
        call_ensures(
            Module::<T>::rotate_session,
            (session, normal_rotation, is_final_block),
            (),
        ),
        ({
            let s = old(session)@;
            &&& time_elapsed == s.now - s.current_start
            &&& begun == (SessionState {
                current_index: s.current_index + 1,
                current_start: s.now,
                session_length: match s.next_session_length {
                    Some(length) => length,
                    None => s.session_length,
                },
                next_session_length: None,
                last_length_change: if s.next_session_length is Some || !is_final_block {
                    Some(s.block_number)
                } else {
                    s.last_length_change
                },
                ..s
            })
        }),
    ensures
        ({
            let s = old(session)@;
            let t = final(session)@;
            exists|told: StateOf<T>|
                {
                    &&& #[trigger] T::OnSessionChange::reacts(
                        begun,
                        normal_rotation,
                        time_elapsed,
                        told,
                    )
                    &&& t.validators == told.validators
                    &&& t.session_length == told.session_length
                    &&& t.current_index == told.current_index
                    &&& t.current_start == told.current_start
                    &&& t.broken_percent_late == told.broken_percent_late
                    &&& t.forcing_new_session == told.forcing_new_session
                    &&& t.last_length_change == told.last_length_change
                    &&& t.next_session_length == told.next_session_length
                    &&& t.block_number == told.block_number
                    &&& t.now == told.now
                    &&& t.block_period == told.block_period
                    // no validator is left with a pending key, and everyone else keeps theirs
                    &&& forall|a: <T::AccountId as DeepView>::V| #[trigger]
                        t.next_key_for.contains_key(a) <==> told.next_key_for.contains_key(a)
                            && !told.validators.contains(a)
                    &&& forall|a: <T::AccountId as DeepView>::V| #[trigger]
                        t.next_key_for.contains_key(a) ==> t.next_key_for[a]
                            == told.next_key_for[a]
                    // the pending keys are at their validators' positions
                    &&& t.authorities.len() == told.authorities.len()
                    &&& told.validators.len() <= 0x1_0000_0000 ==> forall|i: int|
                        0 <= i < t.authorities.len() ==> #[trigger] t.authorities[i] == (if i
                            < told.validators.len() && told.next_key_for.contains_key(
                            told.validators[i],
                        ) && !told.validators.take(i).contains(told.validators[i]) {
                            told.next_key_for[told.validators[i]]
                        } else {
                            told.authorities[i]
                        })
                }
        }),
{
    assert(begun == old(session)@.next_session(is_final_block));
    let told = lemma_told::<T>(old(session)@, normal_rotation, is_final_block, final(session)@);
    lemma_keys_in_place(told);
}

/// A rotation can be made wherever the time has not run backwards and the session index has room
/// for one more.
pub proof fn law_rotation_can_be_made<T: Trait>(
    session: &mut Module<T>,
    normal_rotation: bool,
    is_final_block: bool,
)
    requires
        old(session)@.current_start <= old(session)@.now,
        old(session)@.current_index + 1 < T::BlockNumber::limit(),
    ensures
        call_requires(Module::<T>::rotate_session, (session, normal_rotation, is_final_block)),
        call_requires(Module::<T>::start_next_session, (session, is_final_block)),
{
}

/// Beginning a session raises the index by one, starts at the current time, puts a requested
/// length into effect, and counts sessions from this block where the length was requested or the
/// old session was cut short. It touches nothing else, and says how long the old session took.
pub proof fn law_next_session<T: Runtime>(
    session: &mut Module<T>,
    is_final_block: bool,
    time_elapsed: T::Moment,
)
    requires
        call_ensures(Module::<T>::start_next_session, (session, is_final_block), time_elapsed),
    ensures
        ({
            let s = old(session)@;
            let t = final(session)@;
            &&& time_elapsed.value() == s.now - s.current_start
            &&& t.current_index == s.current_index + 1
            &&& t.current_start == s.now
            &&& s.next_session_length is None ==> t.session_length == s.session_length
            &&& s.next_session_length matches Some(length) ==> t.session_length == length
            &&& t.next_session_length is None
            &&& s.next_session_length is Some || !is_final_block ==> t.last_length_change == Some(
                s.block_number,
            )
            &&& s.next_session_length is None && is_final_block ==> t.last_length_change
                == s.last_length_change
            &&& t.validators == s.validators
            &&& t.broken_percent_late == s.broken_percent_late
            &&& t.forcing_new_session == s.forcing_new_session
            &&& t.next_key_for == s.next_key_for
            &&& t.block_number == s.block_number
            &&& t.now == s.now
            &&& t.block_period == s.block_period
            &&& t.authorities == s.authorities
        }),
{
}

// ---------------------------------------------------------------------------------------------
// Session keys
// ---------------------------------------------------------------------------------------------

proof fn lemma_keys_in_place<A, K>(told: SessionState<A, K>)
    ensures
        ({
            let t = told.keys_updated();
            &&& t == SessionState {
                next_key_for: t.next_key_for,
                authorities: t.authorities,
                ..told
            }
            &&& forall|a: A| #[trigger]
                t.next_key_for.contains_key(a) <==> told.next_key_for.contains_key(a)
                    && !told.validators.contains(a)
            &&& forall|a: A| #[trigger]
                t.next_key_for.contains_key(a) ==> t.next_key_for[a] == told.next_key_for[a]
            &&& t.authorities.len() == told.authorities.len()
            &&& told.validators.len() <= 0x1_0000_0000 ==> forall|i: int|
                0 <= i < t.authorities.len() ==> #[trigger] t.authorities[i] == (if i
                    < told.validators.len() && told.next_key_for.contains_key(told.validators[i])
                    && !told.validators.take(i).contains(told.validators[i]) {
                    told.next_key_for[told.validators[i]]
                } else {
                    told.authorities[i]
                })
        }),
{
    let t = told.keys_updated();
    let n = told.validators.len();
    lemma_keys_up_to(told, n);
    assert(told.validators.take(n as int) =~= told.validators);
    if n <= 0x1_0000_0000 {
        assert forall|i: int| 0 <= i < t.authorities.len() implies #[trigger] t.authorities[i] == (
        if i < n && told.next_key_for.contains_key(told.validators[i]) && !told.validators.take(
            i,
        ).contains(told.validators[i]) {
            told.next_key_for[told.validators[i]]
        } else {
            told.authorities[i]
        }) by {
            law_key_update_sets_authorities(told, i);
            if i < n {
                let v = told.validators[i];
                let earlier = told.validators.take(i);
                if earlier.contains(v) {
                    let j = choose|j: int| 0 <= j < earlier.len() && earlier[j] == v;
                    assert(told.validators[j] == v);
                }
                if exists|j: int| 0 <= j < i && told.validators[j] == v {
                    let j = choose|j: int| 0 <= j < i && told.validators[j] == v;
                    assert(earlier[j] == v);
                }
            }
        }
    }
}

/// An update of the session keys puts the pending key of each validator at the validator's
/// position, the first one where it has several. It uses up the pending keys of all validators
/// and touches nothing else. Positions are counted in four bytes.
pub proof fn law_key_update<T: Runtime>(session: &mut Module<T>)
    requires
        call_ensures(Module::<T>::update_session_keys, (session,), ()),
    ensures
        ({
            let told = old(session)@;
            let t = final(session)@;
            {
                    &&& t.validators == told.validators
                    &&& t.session_length == told.session_length
                    &&& t.current_index == told.current_index
                    &&& t.current_start == told.current_start
                    &&& t.broken_percent_late == told.broken_percent_late
                    &&& t.forcing_new_session == told.forcing_new_session
                    &&& t.last_length_change == told.last_length_change
                    &&& t.next_session_length == told.next_session_length
                    &&& t.block_number == told.block_number
                    &&& t.now == told.now
                    &&& t.block_period == told.block_period
                    // no validator is left with a pending key, and everyone else keeps theirs
                    &&& forall|a: <T::AccountId as DeepView>::V| #[trigger]
                        t.next_key_for.contains_key(a) <==> told.next_key_for.contains_key(a)
                            && !told.validators.contains(a)
                    &&& forall|a: <T::AccountId as DeepView>::V| #[trigger]
                        t.next_key_for.contains_key(a) ==> t.next_key_for[a]
                            == told.next_key_for[a]
                    // the pending keys are at their validators' positions
                    &&& t.authorities.len() == told.authorities.len()
                    &&& told.validators.len() <= 0x1_0000_0000 ==> forall|i: int|
                        0 <= i < t.authorities.len() ==> #[trigger] t.authorities[i] == (if i
                            < told.validators.len() && told.next_key_for.contains_key(
                            told.validators[i],
                        ) && !told.validators.take(i).contains(told.validators[i]) {
                            told.next_key_for[told.validators[i]]
                        } else {
                            told.authorities[i]
                        })
            }
        }),
{
    lemma_keys_in_place(old(session)@);
}

/// One validator more changes what an update of the session keys does by that validator alone: if
/// its key is still pending after all others have had theirs, the key goes to the last position,
/// counted in four bytes. With nobody to update, nothing happens. This is so for any number of
/// validators.
pub proof fn law_key_update_goes_through_the_validators<T: Runtime>(
    few: &mut Module<T>,
    more: &mut Module<T>,
    validator: <T::AccountId as DeepView>::V,
)
    requires
        call_ensures(Module::<T>::update_session_keys, (few,), ()),
        call_ensures(Module::<T>::update_session_keys, (more,), ()),
        old(more)@ == (SessionState {
            validators: old(few)@.validators.push(validator),
            ..old(few)@
        }),
    ensures
        old(few)@.validators.len() == 0 ==> final(few)@ == old(few)@,
        ({
            let s = final(few)@;
            let t = final(more)@;
            let at = old(few)@.validators.len() as int % 0x1_0000_0000;
            &&& t.next_key_for == s.next_key_for.remove(validator)
            &&& !s.next_key_for.contains_key(validator) || at >= s.authorities.len()
                ==> t.authorities == s.authorities
            &&& s.next_key_for.contains_key(validator) && at < s.authorities.len()
                ==> t.authorities == s.authorities.update(at, s.next_key_for[validator])
        }),
{
    let n = old(few)@.validators.len();
    lemma_validators_beyond_do_not_matter(old(few)@, old(more)@.validators, n);
    lemma_keys_up_to(old(few)@, n);
    let s = final(few)@;
    assert(old(more)@.keys_updated_up_to(n) == (SessionState {
        validators: old(more)@.validators,
        ..s
    }));
    if !s.next_key_for.contains_key(validator) {
        assert(s.next_key_for.remove(validator) =~= s.next_key_for);
    }
}

/// The first `n` keys are updated the same way whoever comes after the first `n` validators.
proof fn lemma_validators_beyond_do_not_matter<A, K>(
    s: SessionState<A, K>,
    validators: Seq<A>,
    n: nat,
)
    requires
        n <= s.validators.len() <= validators.len(),
        forall|i: int| 0 <= i < s.validators.len() ==> #[trigger] validators[i] == s.validators[i],
    ensures
        (SessionState { validators, ..s }).keys_updated_up_to(n) == (SessionState {
            validators,
            ..s.keys_updated_up_to(n)
        }),
    decreases n,
{
    if n > 0 {
        let m = (n - 1) as nat;
        lemma_validators_beyond_do_not_matter(s, validators, m);
        lemma_keys_up_to(s, m);
        assert(validators[m as int] == s.validators[m as int]);
    }
}

// ---------------------------------------------------------------------------------------------
// Counting blocks and measuring time
// ---------------------------------------------------------------------------------------------

/// As many blocks on as remain, a whole number of sessions has gone by, and fewer remain than a
/// session has. No other number is like that.
pub proof fn law_blocks_remaining<T: Runtime>(session: &Module<T>, blocks: T::BlockNumber, k: int)
    requires
        call_ensures(Module::<T>::blocks_remaining, (session,), blocks),
        0 < session@.session_length,
        0 <= k < session@.session_length,
    ensures
        ({
            let s = session@;
            let since = s.block_number - (match s.last_length_change {
                Some(block) => block,
                None => 0,
            });
            &&& 0 <= blocks.value() < s.session_length
            &&& (since + k) % s.session_length == 0 <==> k == blocks.value()
        }),
{
    let s = session@;
    let since = s.block_number - s.counted_from();
    let length = s.session_length;
    law_none_remain_in_the_final_block(s);
    let r = blocks.value();
    assert(r == (-since) % length);
    lemma_fundamental_div_mod(-since, length);
    let q = (-since) / length;
    assert(since + r == length * (-q)) by (nonlinear_arith)
        requires
            -since == length * q + r,
    ;
    lemma_fundamental_div_mod_converse(since + r, length, -q, 0);
    if (since + k) % length == 0 {
        lemma_fundamental_div_mod(since + k, length);
        let p = (since + k) / length;
        assert(k - r == length * (p + q)) by (nonlinear_arith)
            requires
                since + k == length * p,
                since + r == length * (-q),
        ;
        assert(p + q == 0) by (nonlinear_arith)
            requires
                k - r == length * (p + q),
                -length < k - r < length,
                0 < length,
        ;
        assert(length * (p + q) == 0) by (nonlinear_arith)
            requires
                p + q == 0,
        ;
    }
}

/// A session takes as long as its blocks take where each is one period after the last. Block
/// counts that are too large for a time are cut off at the top.
pub proof fn law_ideal_session_duration<T: Runtime>(session: &Module<T>, duration: T::Moment)
    requires
        call_ensures(Module::<T>::ideal_session_duration, (session,), duration),
    ensures
        duration.value() == (session@.session_length % T::Moment::limit())
            * session@.block_period,
{
}

/// Validation is broken exactly where the remaining blocks, one period apart from now on, end
/// later than a session that began when this one did and takes the allowed percentage longer
/// than it ideally does.
pub proof fn law_broken_validation<T: Runtime>(
    session: &Module<T>,
    broken: bool,
    remaining: T::BlockNumber,
    ideal: T::Moment,
)
    requires
        call_ensures(Module::<T>::broken_validation, (session,), broken),
        call_ensures(Module::<T>::blocks_remaining, (session,), remaining),
        call_ensures(Module::<T>::ideal_session_duration, (session,), ideal),
    ensures
        broken <==> session@.now + (remaining.value() % T::Moment::limit())
            * session@.block_period > session@.current_start + ideal.value() * (100
            + session@.broken_percent_late) / 100,
{
}

/// Blocks can be counted and times compared wherever sessions have a length, are counted from a
/// block that has come, and the numbers on the way stay in range.
pub proof fn law_measures_can_be_taken<T: Runtime>(session: &Module<T>)
    requires
        ({
            let s = session@;
            let since = s.block_number - (match s.last_length_change {
                Some(block) => block,
                None => 0,
            });
            &&& 0 < s.session_length
            &&& 0 <= since
            &&& since + s.session_length - 1 < T::BlockNumber::limit()
        }),
    ensures
        call_requires(Module::<T>::blocks_remaining, (session,)),
        ({
            let s = session@;
            let since = s.block_number - (match s.last_length_change {
                Some(block) => block,
                None => 0,
            });
            let m = T::Moment::limit();
            let earliest_end = s.now + ((-since) % s.session_length % m) * s.block_period;
            let latest_end = s.current_start + (s.session_length % m) * s.block_period * (100
                + s.broken_percent_late) / 100;
            let ideal = (s.session_length % m) * s.block_period;
            &&& ideal < m ==> call_requires(Module::<T>::ideal_session_duration, (session,))
            &&& ideal < m && earliest_end < m && 100 + s.broken_percent_late < m && ideal * (100
                + s.broken_percent_late) < m && latest_end < m ==> call_requires(
                Module::<T>::broken_validation,
                (session,),
            )
        }),
{
    let s = session@;
    assert(s.counted_from() - s.block_number == -(s.block_number - s.counted_from()));
}

// ---------------------------------------------------------------------------------------------
// Requests
// ---------------------------------------------------------------------------------------------

/// A request for a key is granted. The key is pending for the caller's account from then on, and
/// nothing else changes. The call by name does the same.
pub proof fn law_set_key<T: Runtime>(
    session: &mut Module<T>,
    aux: &T::PublicAux,
    key: T::SessionKey,
    result: DispatchResult,
)
    requires
        call_ensures(Module::<T>::set_key, (session, aux, key), result) || call_ensures(
            Call::<T>::dispatch,
            (Call::SetKey(key), session, aux),
            result,
        ),
    ensures
        ({
            let s = old(session)@;
            let t = final(session)@;
            let account = aux.target().deep_view();
            &&& result is Ok
            &&& t.next_key_for.contains_key(account)
            &&& t.next_key_for[account] == key.deep_view()
            &&& forall|a: <T::AccountId as DeepView>::V|
                a != account ==> #[trigger] t.next_key_for.contains_key(a)
                    == s.next_key_for.contains_key(a) && (s.next_key_for.contains_key(a)
                    ==> t.next_key_for[a] == s.next_key_for[a])
            &&& t == (SessionState { next_key_for: t.next_key_for, ..s })
        }),
{
}

/// A request for a length is granted. The length is pending from then on, and nothing else
/// changes. The call by name does the same.
pub proof fn law_set_length<T: Runtime>(
    session: &mut Module<T>,
    new: T::BlockNumber,
    result: DispatchResult,
)
    requires
        call_ensures(Module::<T>::set_length, (session, new), result) || call_ensures(
            PrivCall::<T>::dispatch,
            (PrivCall::SetLength(new), session),
            result,
        ),
    ensures
        result is Ok,
        final(session)@ == (SessionState {
            next_session_length: Some(new.value()),
            ..old(session)@
        }),
{
}

/// A request for a new session is granted. It stands from then on, as the kind that was asked
/// for, and nothing else changes. The call by name does the same.
pub proof fn law_force_new_session<T: Runtime>(
    session: &mut Module<T>,
    normal_rotation: bool,
    result: DispatchResult,
)
    requires
        call_ensures(Module::<T>::force_new_session, (session, normal_rotation), result)
            || call_ensures(
            PrivCall::<T>::dispatch,
            (PrivCall::ForceNewSession(normal_rotation), session),
            result,
        ),
    ensures
        result is Ok,
        final(session)@ == (SessionState {
            forcing_new_session: Some(normal_rotation),
            ..old(session)@
        }),
{
}

/// Going on to a block, or to a time, changes the block number, or the time, and nothing else.
pub proof fn law_block_and_time<T: Runtime>(
    a: &mut Module<T>,
    number: T::BlockNumber,
    b: &mut Module<T>,
    now: T::Moment,
)
    requires
        call_ensures(Module::<T>::set_block_number, (a, number), ()),
        call_ensures(Module::<T>::set_timestamp, (b, now), ()),
    ensures
        final(a)@ == (SessionState { block_number: number.value(), ..old(a)@ }),
        final(b)@ == (SessionState { now: now.value(), ..old(b)@ }),
{
}

/// After the validators have been set, those are the validators, their number is the validator
/// count, cut off at four bytes, and the authorities are what their accounts convert to, in the
/// same order. Nothing else changes.
pub proof fn law_set_validators<T: Trait>(
    session: &mut Module<T>,
    new: &[T::AccountId],
    then: &Module<T>,
    validators: &Vec<T::AccountId>,
    authorities: &Vec<T::SessionKey>,
    count: u32,
    i: int,
)
    requires
        call_ensures(Module::<T>::set_validators, (session, new), ()),
        then@ == final(session)@,
        call_ensures(Module::<T>::validators, (then,), validators),
        call_ensures(Module::<T>::authorities, (then,), authorities),
        call_ensures(Module::<T>::validator_count, (then,), count),
        0 <= i < new@.len(),
    ensures
        validators@.len() == new@.len(),
        authorities@.len() == new@.len(),
        count == new@.len() as int % 0x1_0000_0000,
        validators@[i].deep_view() == new@[i].deep_view(),
        authorities@[i].deep_view() == T::ConvertAccountIdToSessionKey::converted(
            new@[i].deep_view(),
        ),
        then@ == (SessionState {
            validators: then@.validators,
            authorities: then@.authorities,
            ..old(session)@
        }),
{
    let s = then@;
    assert(s.validators =~= new.deep_view());
    assert(validators.deep_view().len() == new.deep_view().len());
    assert(authorities.deep_view().len() == new.deep_view().len());
    assert(validators.deep_view()[i] == new.deep_view()[i]);
    assert(authorities.deep_view()[i] == T::ConvertAccountIdToSessionKey::converted(
        new.deep_view()[i],
    ));
}

/// Requests, and going on to a block or a time, can be made at any time, and what there is to read
/// can be read at any time.
pub proof fn law_requests_can_be_made<T: Trait>(
    session: &mut Module<T>,
    seen: &Module<T>,
    aux: &T::PublicAux,
    key: T::SessionKey,
    number: T::BlockNumber,
    now: T::Moment,
    flag: bool,
    accounts: &[T::AccountId],
)
    ensures
        call_requires(Module::<T>::set_key, (session, aux, key)),
        call_requires(Module::<T>::set_length, (session, number)),
        call_requires(Module::<T>::force_new_session, (session, flag)),
        call_requires(Module::<T>::set_validators, (session, accounts)),
        call_requires(Module::<T>::update_session_keys, (session,)),
        call_requires(Module::<T>::set_block_number, (session, number)),
        call_requires(Module::<T>::set_timestamp, (session, now)),
        call_requires(Call::<T>::dispatch, (Call::SetKey(key), session, aux)),
        call_requires(PrivCall::<T>::dispatch, (PrivCall::SetLength(number), session)),
        call_requires(PrivCall::<T>::dispatch, (PrivCall::ForceNewSession(flag), session)),
        call_requires(Module::<T>::validator_count, (seen,)),
        call_requires(Module::<T>::last_length_change, (seen,)),
        call_requires(Module::<T>::validators, (seen,)),
        call_requires(Module::<T>::length, (seen,)),
        call_requires(Module::<T>::current_index, (seen,)),
        call_requires(Module::<T>::current_start, (seen,)),
        call_requires(Module::<T>::broken_percent_late, (seen,)),
        call_requires(Module::<T>::forcing_new_session, (seen,)),
        call_requires(Module::<T>::authorities, (seen,)),
{
}

/// What is read is what the state holds; the block from which sessions are counted is zero where
/// none is recorded.
pub proof fn law_readings<T: Runtime>(
    session: &Module<T>,
    length: T::BlockNumber,
    index: T::BlockNumber,
    start: T::Moment,
    percent: T::Moment,
    forcing: Option<bool>,
    counted_from: T::BlockNumber,
    count: u32,
)
    requires
        call_ensures(Module::<T>::length, (session,), length),
        call_ensures(Module::<T>::current_index, (session,), index),
        call_ensures(Module::<T>::current_start, (session,), start),
        call_ensures(Module::<T>::broken_percent_late, (session,), percent),
        call_ensures(Module::<T>::forcing_new_session, (session,), forcing),
        call_ensures(Module::<T>::last_length_change, (session,), counted_from),
        call_ensures(Module::<T>::validator_count, (session,), count),
    ensures
        length.value() == session@.session_length,
        index.value() == session@.current_index,
        start.value() == session@.current_start,
        percent.value() == session@.broken_percent_late,
        forcing == session@.forcing_new_session,
        session@.last_length_change matches Some(block) ==> counted_from.value() == block,
        session@.last_length_change is None ==> counted_from.value() == 0,
        count == session@.validators.len() as int % 0x1_0000_0000,
{
}

// ---------------------------------------------------------------------------------------------
// Setting up
// ---------------------------------------------------------------------------------------------

/// A session manager that has just been set up has the configured length, validators and
/// percentage, whatever they are. It is in session zero, begun at time zero, with nothing pending
/// and nothing forced, and sees the runtime as it was described.
pub proof fn law_fresh_session_is_as_configured<T: Runtime>(
    config: GenesisConfig<T>,
    block_number: T::BlockNumber,
    now: T::Moment,
    block_period: T::Moment,
    authorities: Vec<T::SessionKey>,
    session: Module<T>,
    length: T::BlockNumber,
    validators: &Vec<T::AccountId>,
    percent: T::Moment,
)
    requires
        call_ensures(
            Module::<T>::from_genesis,
            (config, block_number, now, block_period, authorities),
            session,
        ),
        call_ensures(Module::<T>::length, (&session,), length),
        call_ensures(Module::<T>::validators, (&session,), validators),
        call_ensures(Module::<T>::broken_percent_late, (&session,), percent),
    ensures
        length.value() == config.session_length.value(),
        validators.deep_view() == config.validators.deep_view(),
        percent.value() == config.broken_percent_late.value(),
        ({
            let s = session@;
            &&& s.session_length == config.session_length.value()
            &&& s.validators == config.validators.deep_view()
            &&& s.broken_percent_late == config.broken_percent_late.value()
            &&& s.current_index == 0
            &&& s.current_start == 0
            &&& s.forcing_new_session is None
            &&& s.last_length_change is None
            &&& s.next_session_length is None
            &&& s.next_key_for == Map::<
                <T::AccountId as DeepView>::V,
                <T::SessionKey as DeepView>::V,
            >::empty()
            &&& s.block_number == block_number.value()
            &&& s.now == now.value()
            &&& s.block_period == block_period.value()
            &&& s.authorities == authorities.deep_view()
        }),
{
}

/// Where nothing is configured, sessions have a thousand blocks, as far as the type has room,
/// there are no validators, and thirty percent of delay are allowed.
pub proof fn law_default_configuration<T: Runtime>(config: GenesisConfig<T>)
    requires
        call_ensures(<GenesisConfig<T> as Default>::default, (), config),
    ensures
        config.session_length.value() == 1000int % T::BlockNumber::limit(),
        config.validators@.len() == 0,
        config.broken_percent_late.value() == 30,
{
}

/// Building storage succeeds, with one entry for each of five keys. Each holds, under the hashed
/// key, bytes that read as what was configured, whatever it was, and as nothing else: the
/// length, the validators and the percentage. The index and the start read as zero.
pub proof fn law_built_entries_read_as_configured<T: Runtime, F: Fn(&[u8]) -> [u8; 16]>(
    config: GenesisConfig<T>,
    hash: F,
    hashed: spec_fn(Seq<u8>) -> Seq<u8>,
    storage: Result<Vec<(Vec<u8>, Vec<u8>)>, String>,
    number: T::BlockNumber,
    moment: T::Moment,
)
    requires
        T::BlockNumber::encodable(config.session_length.deep_view()),
        T::BlockNumber::encodable(T::BlockNumber::numeral(0)),
        T::Moment::encodable(T::Moment::numeral(0)),
        Vec::<T::AccountId>::encodable(config.validators.deep_view()),
        T::Moment::encodable(config.broken_percent_late.deep_view()),
        call_ensures(GenesisConfig::<T>::build_storage::<F>, (config, hash), storage),
        forall|plain: &[u8], h: [u8; 16]| #[trigger]
            call_ensures(hash, (plain,), h) ==> h@ == hashed(plain@),
    ensures
        storage is Ok,
        ({
            let e = storage->Ok_0@;
            &&& e.len() == 5
            // ses:len
            &&& e[0].0@ == hashed(seq![115u8, 101u8, 115u8, 58u8, 108u8, 101u8, 110u8])
            &&& T::BlockNumber::parse(e[0].1@) == Some(
                (number.deep_view(), e[0].1@.len() as int),
            ) <==> number.value() == config.session_length.value()
            // ses:ind
            &&& e[1].0@ == hashed(seq![115u8, 101u8, 115u8, 58u8, 105u8, 110u8, 100u8])
            &&& T::BlockNumber::parse(e[1].1@) == Some(
                (number.deep_view(), e[1].1@.len() as int),
            ) <==> number.value() == 0
            // ses:current_start
            &&& e[2].0@ == hashed(
                seq![
                    115u8, 101u8, 115u8, 58u8, 99u8, 117u8, 114u8, 114u8, 101u8, 110u8, 116u8,
                    95u8, 115u8, 116u8, 97u8, 114u8, 116u8,
                ],
            )
            &&& T::Moment::parse(e[2].1@) == Some((moment.deep_view(), e[2].1@.len() as int))
                <==> moment.value() == 0
            // ses:val
            &&& e[3].0@ == hashed(seq![115u8, 101u8, 115u8, 58u8, 118u8, 97u8, 108u8])
            &&& Vec::<T::AccountId>::parse(e[3].1@) == Some(
                (config.validators.deep_view(), e[3].1@.len() as int),
            )
            // ses:broken_percent_late
            &&& e[4].0@ == hashed(
                seq![
                    115u8, 101u8, 115u8, 58u8, 98u8, 114u8, 111u8, 107u8, 101u8, 110u8, 95u8,
                    112u8, 101u8, 114u8, 99u8, 101u8, 110u8, 116u8, 95u8, 108u8, 97u8, 116u8,
                    101u8,
                ],
            )
            &&& T::Moment::parse(e[4].1@) == Some((moment.deep_view(), e[4].1@.len() as int))
                <==> moment.value() == config.broken_percent_late.value()
        }),
{
    let e = storage->Ok_0@;
    let plain = config.initial_storage();
    assert forall|i: int| 0 <= i < 5 implies (#[trigger] e[i]).0@ == hashed(plain[i].0)
        && e[i].1@ == plain[i].1 by {
        let (key, value) = plain[i];
        assert(stores(hash, key, value, e[i]));
    }
    reveal_strlit("ses:len");
    reveal_strlit("ses:ind");
    reveal_strlit("ses:current_start");
    reveal_strlit("ses:val");
    reveal_strlit("ses:broken_percent_late");
    assert(plain[0].0 =~= seq![115u8, 101u8, 115u8, 58u8, 108u8, 101u8, 110u8]);
    assert(plain[1].0 =~= seq![115u8, 101u8, 115u8, 58u8, 105u8, 110u8, 100u8]);
    assert(plain[2].0 =~= seq![
        115u8, 101u8, 115u8, 58u8, 99u8, 117u8, 114u8, 114u8, 101u8, 110u8, 116u8, 95u8, 115u8,
        116u8, 97u8, 114u8, 116u8,
    ]);
    assert(plain[3].0 =~= seq![115u8, 101u8, 115u8, 58u8, 118u8, 97u8, 108u8]);
    assert(plain[4].0 =~= seq![
        115u8, 101u8, 115u8, 58u8, 98u8, 114u8, 111u8, 107u8, 101u8, 110u8, 95u8, 112u8, 101u8,
        114u8, 99u8, 101u8, 110u8, 116u8, 95u8, 108u8, 97u8, 116u8, 101u8,
    ]);
    config.session_length.lemma_in_range();
    config.session_length.lemma_numeral();
    config.broken_percent_late.lemma_in_range();
    config.broken_percent_late.lemma_numeral();
    lemma_number_reads_back::<T::BlockNumber>(config.session_length.value());
    lemma_number_reads_back::<T::BlockNumber>(0);
    lemma_number_reads_back::<T::Moment>(0);
    lemma_number_reads_back::<T::Moment>(config.broken_percent_late.value());
    crate::codec::law_decode_undoes_encode::<Vec<T::AccountId>>(
        config.validators.deep_view(),
        Seq::<u8>::empty(),
    );
}

/// Storage can be built from any configuration that the byte format has room for, with any hash
/// that takes any bytes.
pub proof fn law_storage_can_be_built<T: Runtime, F: Fn(&[u8]) -> [u8; 16]>(
    config: GenesisConfig<T>,
    hash: F,
)
    requires
        T::BlockNumber::encodable(config.session_length.deep_view()),
        T::BlockNumber::encodable(T::BlockNumber::numeral(0)),
        T::Moment::encodable(T::Moment::numeral(0)),
        config.validators@.len() <= 0xffff_ffff,
        forall|i: int|
            0 <= i < config.validators@.len() ==> T::AccountId::encodable(
                (#[trigger] config.validators@[i]).deep_view(),
            ),
        T::Moment::encodable(config.broken_percent_late.deep_view()),
        forall|plain: &[u8]| #[trigger] call_requires(hash, (plain,)),
    ensures
        call_requires(GenesisConfig::<T>::build_storage::<F>, (config, hash)),
{
    let v = config.validators.deep_view();
    assert forall|i: int| 0 <= i < v.len() implies T::AccountId::encodable(#[trigger] v[i]) by {
        assert(v[i] == config.validators@[i].deep_view());
    }
}

// ---------------------------------------------------------------------------------------------
// Stored values, numbers and conversions
// ---------------------------------------------------------------------------------------------

/// A value that was put under a key is found under that key, in place of what was there; under
/// any other key is found what was there before. In a new map nothing is found.
pub proof fn law_stored_value_is_found<K: Parameter, V: DeepView>(
    map: &mut StorageMap<K, V>,
    key: K,
    value: V,
    then: &mut StorageMap<K, V>,
    untouched: &mut StorageMap<K, V>,
    asked: &K,
    found: Option<V>,
    former: Option<V>,
    new: &mut StorageMap<K, V>,
    missing: Option<V>,
)
    requires
        call_ensures(StorageMap::<K, V>::insert, (map, key, value), ()),
        old(then)@ == final(map)@,
        call_ensures(StorageMap::<K, V>::take, (then, asked), found),
        old(untouched)@ == old(map)@,
        call_ensures(StorageMap::<K, V>::take, (untouched, asked), former),
        call_ensures(StorageMap::<K, V>::new, (), *old(new)),
        call_ensures(StorageMap::<K, V>::take, (new, asked), missing),
    ensures
        asked.deep_view() == key.deep_view() ==> found is Some && found->Some_0.deep_view()
            == value.deep_view(),
        asked.deep_view() != key.deep_view() ==> {
            &&& found is Some == former is Some
            &&& found is Some ==> found->Some_0.deep_view() == former->Some_0.deep_view()
        },
        missing is None,
{
}

/// What was taken is gone, and nothing else is.
pub proof fn law_taken_value_is_gone<K: Parameter, V: DeepView>(
    map: &mut StorageMap<K, V>,
    key: &K,
    taken: Option<V>,
    then: &mut StorageMap<K, V>,
    untouched: &mut StorageMap<K, V>,
    asked: &K,
    found: Option<V>,
    former: Option<V>,
)
    requires
        call_ensures(StorageMap::<K, V>::take, (map, key), taken),
        old(then)@ == final(map)@,
        call_ensures(StorageMap::<K, V>::take, (then, asked), found),
        old(untouched)@ == old(map)@,
        call_ensures(StorageMap::<K, V>::take, (untouched, asked), former),
    ensures
        asked.deep_view() == key.deep_view() ==> found is None,
        asked.deep_view() != key.deep_view() ==> {
            &&& found is Some == former is Some
            &&& found is Some ==> found->Some_0.deep_view() == former->Some_0.deep_view()
        },
{
}

/// The machine's numbers are the numbers they look like, and fill their types.
pub proof fn law_machine_numbers(x: u32, y: u64, m: int, n: int)
    requires
        0 <= m < 0x1_0000_0000,
        0 <= n < 0x1_0000_0000_0000_0000,
    ensures
        x.value() == x as int,
        y.value() == y as int,
        <u32 as SimpleArithmetic>::limit() == 0x1_0000_0000,
        <u64 as SimpleArithmetic>::limit() == 0x1_0000_0000_0000_0000,
        <u32 as SimpleArithmetic>::numeral(m) as int == m,
        <u64 as SimpleArithmetic>::numeral(n) as int == n,
{
}

/// The identity converts every value to itself, and every value holds itself.
pub proof fn law_identity<A: DeepView>(a: A)
    ensures
        <Identity as Convert<A, A>>::converted(a.deep_view()) == a.deep_view(),
        <A as RefInto<A>>::target(&a) == a,
{
}

/// Where nobody listens, nothing happens on a session change, and nothing else can.
pub proof fn law_nobody_interferes<T: Runtime>(
    before: StateOf<T>,
    normal_rotation: bool,
    time_elapsed: int,
    after: StateOf<T>,
)
    ensures
        <() as OnSessionChange<T>>::reacts(before, normal_rotation, time_elapsed, after)
            <==> after == before,
{
}

} // verus!
