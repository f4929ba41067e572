//! What holds of the session manager as a whole.

use crate::codec::{Codec, Decode, Encode};
use crate::genesis::{
    GenesisConfig, broken_percent_late_key, current_index_key, current_start_key, is_storage_key,
    session_length_key, storage_of, stores, validators_key,
};
use crate::runtime::Runtime;
use crate::session::{OnSessionChange, Trait, checked, rotated};
use crate::state::{SessionState, StateOf};
use crate::storage_map::contents;
use crate::traits::SimpleArithmetic;
use vstd::arithmetic::div_mod::{
    lemma_fundamental_div_mod, lemma_fundamental_div_mod_converse, lemma_mod_bound,
    lemma_small_mod,
};
use vstd::prelude::*;

pub mod behaviour;

verus! {

// ---------------------------------------------------------------------------------------------
// Counting blocks
// ---------------------------------------------------------------------------------------------

/// Shifting a number down by no more than its remainder shifts the remainder.
proof fn lemma_mod_shift(x: int, k: int, length: int)
    requires
        0 < length,
        0 <= k <= x % length,
    ensures
        (x - k) % length == x % length - k,
{
    lemma_fundamental_div_mod(x, length);
    lemma_mod_bound(x, length);
    assert(x - k == (x / length) * length + (x % length - k)) by (nonlinear_arith)
        requires
            x == length * (x / length) + x % length,
    ;
    lemma_fundamental_div_mod_converse(x - k, length, x / length, x % length - k);
}

/// A number and its negation are whole multiples of `length` together.
proof fn lemma_mod_negated(x: int, length: int)
    requires
        0 < length,
    ensures
        x % length == 0 <==> (-x) % length == 0,
{
    lemma_fundamental_div_mod(x, length);
    lemma_fundamental_div_mod(-x, length);
    if x % length == 0 {
        assert(-x == length * (-(x / length))) by (nonlinear_arith)
            requires
                x == length * (x / length),
        ;
        lemma_fundamental_div_mod_converse(-x, length, -(x / length), 0);
    }
    if (-x) % length == 0 {
        assert(x == length * (-((-x) / length))) by (nonlinear_arith)
            requires
                -x == length * ((-x) / length),
        ;
        lemma_fundamental_div_mod_converse(x, length, -((-x) / length), 0);
    }
}

/// No blocks remain exactly where the session is due to rotate at the end of this block, and
/// fewer remain than a session has.
pub proof fn law_none_remain_in_the_final_block<A, K>(s: SessionState<A, K>)
    requires
        0 < s.session_length,
    ensures
        s.is_final_block() <==> s.blocks_remaining() == 0,
        0 <= s.blocks_remaining() < s.session_length,
{
    lemma_mod_bound(s.counted_from() - s.block_number, s.session_length);
    lemma_mod_negated(s.block_number - s.counted_from(), s.session_length);
    assert(-(s.block_number - s.counted_from()) == s.counted_from() - s.block_number);
}

/// The blocks that remain are those that come before the session's end, the final one included:
/// `k` blocks on, `k` fewer remain, so that the session ends after just as many blocks as remain
/// now, and not before.
pub proof fn law_remaining_blocks_lead_to_the_final_block<A, K>(s: SessionState<A, K>, k: int)
    requires
        0 < s.session_length,
        0 <= k <= s.blocks_remaining(),
    ensures
        ({
            let later = SessionState { block_number: s.block_number + k, ..s };
            &&& later.blocks_remaining() == s.blocks_remaining() - k
            &&& later.is_final_block() <==> k == s.blocks_remaining()
        }),
{
    let later = SessionState { block_number: s.block_number + k, ..s };
    lemma_mod_shift(s.counted_from() - s.block_number, k, s.session_length);
    assert(later.counted_from() - later.block_number == s.counted_from() - s.block_number - k);
    law_none_remain_in_the_final_block(later);
}

/// A session that began at the end of a block has, in the next block, one block fewer remaining
/// than its length, whether the old session lasted to its final block or was cut short, and
/// whether or not the length changed.
pub proof fn law_new_session_is_a_full_session<A, K>(s: SessionState<A, K>)
    requires
        0 < s.session_length,
        0 < s.next_session(s.is_final_block()).session_length,
    ensures
        ({
            let begun = s.next_session(s.is_final_block());
            let first = SessionState { block_number: s.block_number + 1, ..begun };
            &&& begun.is_final_block()
            &&& first.blocks_remaining() == begun.session_length - 1
        }),
{
    let begun = s.next_session(s.is_final_block());
    let first = SessionState { block_number: s.block_number + 1, ..begun };
    let length = begun.session_length;
    if s.next_session_length is Some || !s.is_final_block() {
        assert(begun.block_number - begun.counted_from() == 0);
        lemma_small_mod(0, length as nat);
    }
    let since = begun.block_number - begun.counted_from();
    lemma_fundamental_div_mod(since, length);
    let q = since / length;
    assert(-(since + 1) == length * (-q - 1) + (length - 1)) by (nonlinear_arith)
        requires
            since == length * q,
    ;
    lemma_fundamental_div_mod_converse(-(since + 1), length, -q - 1, length - 1);
    assert(first.counted_from() - first.block_number == -(since + 1));
}

// ---------------------------------------------------------------------------------------------
// Measuring time
// ---------------------------------------------------------------------------------------------

/// Where every block of the session so far has come on time, validation is not broken, however
/// small the delay that is allowed.
pub proof fn law_blocks_on_time_are_not_broken<A, K>(s: SessionState<A, K>, moment_limit: int)
    requires
        0 < s.session_length < moment_limit,
        0 <= s.block_period,
        0 <= s.broken_percent_late,
        s.now <= s.current_start + (s.session_length - s.blocks_remaining()) * s.block_period,
    ensures
        !s.broken_validation(moment_limit),
{
    law_none_remain_in_the_final_block(s);
    lemma_small_mod(s.session_length as nat, moment_limit as nat);
    lemma_small_mod(s.blocks_remaining() as nat, moment_limit as nat);
    let ideal = s.session_length * s.block_period;
    let remaining = s.blocks_remaining();
    let late = s.broken_percent_late;
    assert((s.session_length - remaining) * s.block_period + remaining * s.block_period == ideal)
        by (nonlinear_arith)
        requires
            ideal == s.session_length * s.block_period,
    ;
    assert(ideal * (100 + late) >= 100 * ideal) by (nonlinear_arith)
        requires
            ideal == s.session_length * s.block_period,
            0 < s.session_length,
            0 <= s.block_period,
            0 <= late,
    ;
}

/// Time only makes it worse: what is broken stays broken later in the same block.
pub proof fn law_broken_validation_stays_broken<A, K>(
    s: SessionState<A, K>,
    later: int,
    moment_limit: int,
)
    requires
        s.now <= later,
        s.broken_validation(moment_limit),
    ensures
        (SessionState { now: later, ..s }).broken_validation(moment_limit),
{
    let then = SessionState { now: later, ..s };
    assert(then.blocks_remaining() == s.blocks_remaining());
}

/// The more delay is allowed, the less is broken.
pub proof fn law_more_delay_breaks_less<A, K>(
    s: SessionState<A, K>,
    percent: int,
    moment_limit: int,
)
    requires
        0 < moment_limit,
        0 <= s.block_period,
        s.broken_percent_late <= percent,
        !s.broken_validation(moment_limit),
    ensures
        !(SessionState { broken_percent_late: percent, ..s }).broken_validation(moment_limit),
{
    let wider = SessionState { broken_percent_late: percent, ..s };
    let ideal = s.ideal_session_duration(moment_limit);
    lemma_mod_bound(s.session_length, moment_limit);
    assert(0 <= ideal) by (nonlinear_arith)
        requires
            ideal == (s.session_length % moment_limit) * s.block_period,
            0 <= s.session_length % moment_limit,
            0 <= s.block_period,
    ;
    assert(ideal * (100 + s.broken_percent_late) <= ideal * (100 + percent)) by (nonlinear_arith)
        requires
            0 <= ideal,
            s.broken_percent_late <= percent,
    ;
    assert(wider.blocks_remaining() == s.blocks_remaining());
}

// ---------------------------------------------------------------------------------------------
// Session keys
// ---------------------------------------------------------------------------------------------

/// The validator at `i` has a pending key, and nobody before it is the same validator.
pub open spec fn takes_key<A, K>(s: SessionState<A, K>, i: int) -> bool {
    &&& 0 <= i < s.validators.len()
    &&& s.next_key_for.contains_key(s.validators[i])
    &&& forall|j: int| 0 <= j < i ==> s.validators[j] != s.validators[i]
}

/// Nothing but pending keys and authorities differs.
pub open spec fn same_but_for_keys<A, K>(s: SessionState<A, K>, t: SessionState<A, K>) -> bool {
    t == SessionState { next_key_for: t.next_key_for, authorities: t.authorities, ..s }
}

proof fn lemma_keys_up_to<A, K>(s: SessionState<A, K>, n: nat)
    requires
        n <= s.validators.len(),
    ensures
        ({
            let t = s.keys_updated_up_to(n);
            &&& same_but_for_keys(s, t)
            &&& t.authorities.len() == s.authorities.len()
            &&& forall|a: A| #[trigger]
                t.next_key_for.contains_key(a) <==> s.next_key_for.contains_key(a)
                    && !s.validators.take(n as int).contains(a)
            &&& forall|a: A| #[trigger]
                t.next_key_for.contains_key(a) ==> t.next_key_for[a] == s.next_key_for[a]
        }),
    decreases n,
{
    if n > 0 {
        let m = (n - 1) as nat;
        lemma_keys_up_to(s, m);
        let t = s.keys_updated_up_to(m);
        let u = s.keys_updated_up_to(n);
        let last = s.validators[m as int];
        assert(u == t.key_updated(m as int));
        assert forall|a: A| s.validators.take(n as int).contains(a) <==> s.validators.take(
            m as int,
        ).contains(a) || a == last by {
            assert(s.validators.take(n as int) =~= s.validators.take(m as int).push(last));
            if a == last {
                assert(s.validators.take(n as int)[m as int] == a);
            }
            if s.validators.take(m as int).contains(a) {
                let j = choose|j: int| 0 <= j < m && s.validators.take(m as int)[j] == a;
                assert(s.validators.take(n as int)[j] == a);
            }
        }
    } else {
        assert(s.validators.take(0) =~= Seq::<A>::empty());
    }
}

proof fn lemma_authorities_up_to<A, K>(s: SessionState<A, K>, n: nat, i: int)
    requires
        n <= s.validators.len() <= 0x1_0000_0000,
        0 <= i < s.authorities.len(),
    ensures
        s.keys_updated_up_to(n).authorities[i] == if i < n && takes_key(s, i) {
            s.next_key_for[s.validators[i]]
        } else {
            s.authorities[i]
        },
    decreases n,
{
    if n > 0 {
        let m = (n - 1) as nat;
        lemma_authorities_up_to(s, m, i);
        lemma_keys_up_to(s, m);
        let t = s.keys_updated_up_to(m);
        let last = s.validators[m as int];
        lemma_small_mod(m, 0x1_0000_0000);
        assert(takes_key(s, m as int) <==> t.next_key_for.contains_key(last)) by {
            if s.validators.take(m as int).contains(last) {
                let j = choose|j: int| 0 <= j < m && s.validators.take(m as int)[j] == last;
                assert(s.validators[j] == last);
            }
            if !takes_key(s, m as int) && s.next_key_for.contains_key(last) {
                let j = choose|j: int| 0 <= j < m && s.validators[j] == last;
                assert(s.validators.take(m as int)[j] == last);
            }
        }
    }
}

/// An update of the session keys uses up the pending key of every validator, keeps the pending
/// keys of all other accounts, and changes nothing else but authorities, of which there are as
/// many as before.
pub proof fn law_key_update_uses_up_pending_keys<A, K>(s: SessionState<A, K>)
    ensures
        ({
            let t = s.keys_updated();
            &&& same_but_for_keys(s, t)
            &&& t.next_key_for == s.next_key_for.remove_keys(s.validators.to_set())
            &&& t.authorities.len() == s.authorities.len()
        }),
{
    let n = s.validators.len();
    lemma_keys_up_to(s, n);
    assert(s.validators.take(n as int) =~= s.validators);
    assert(s.keys_updated().next_key_for =~= s.next_key_for.remove_keys(s.validators.to_set()));
}

/// An update of the session keys makes the pending key of a validator the authority at the
/// validator's position, the first one where it has several, and leaves all other authorities as
/// they are. This is so as long as four bytes can count the validators.
pub proof fn law_key_update_sets_authorities<A, K>(s: SessionState<A, K>, i: int)
    requires
        s.validators.len() <= 0x1_0000_0000,
        0 <= i < s.authorities.len(),
    ensures
        s.keys_updated().authorities[i] == if takes_key(s, i) {
            s.next_key_for[s.validators[i]]
        } else {
            s.authorities[i]
        },
{
    lemma_authorities_up_to(s, s.validators.len(), i);
}

/// A second update finds nothing to do.
pub proof fn law_key_update_happens_once<A, K>(s: SessionState<A, K>)
    ensures
        s.keys_updated().keys_updated() == s.keys_updated(),
{
    let t = s.keys_updated();
    law_key_update_uses_up_pending_keys(s);
    lemma_no_pending_keys(t, t.validators.len());
}

proof fn lemma_no_pending_keys<A, K>(s: SessionState<A, K>, n: nat)
    requires
        n <= s.validators.len(),
        forall|i: int|
            0 <= i < s.validators.len() ==> !s.next_key_for.contains_key(
                #[trigger] s.validators[i],
            ),
    ensures
        s.keys_updated_up_to(n) == s,
    decreases n,
{
    if n > 0 {
        lemma_no_pending_keys(s, (n - 1) as nat);
        assert(!s.next_key_for.contains_key(s.validators[n - 1]));
    }
}

/// Where the validators have just been replaced, with the keys that their accounts convert to as
/// authorities, an update of the session keys gives each of them its pending key, or leaves it
/// the converted one: there is an authority for every validator, in the same order.
pub proof fn law_new_validators_become_authorities<A, K>(
    s: SessionState<A, K>,
    convert: spec_fn(A) -> K,
    i: int,
)
    requires
        s.authorities == s.validators.map_values(convert),
        s.validators.len() <= 0x1_0000_0000,
        0 <= i < s.validators.len(),
    ensures
        s.keys_updated().authorities.len() == s.validators.len(),
        s.keys_updated().authorities[i] == if takes_key(s, i) {
            s.next_key_for[s.validators[i]]
        } else {
            convert(s.validators[i])
        },
{
    law_key_update_uses_up_pending_keys(s);
    law_key_update_sets_authorities(s, i);
}

// ---------------------------------------------------------------------------------------------
// Rotation
// ---------------------------------------------------------------------------------------------

/// The listener leaves alone what `part` picks out of the state.
pub open spec fn listener_keeps<T: Trait, P>(part: spec_fn(StateOf<T>) -> P) -> bool {
    forall|before: StateOf<T>, normal_rotation: bool, time_elapsed: int, after: StateOf<T>| #[trigger]
        T::OnSessionChange::reacts(before, normal_rotation, time_elapsed, after) ==> part(after)
            == part(before)
}

/// The listener leaves the session manager alone.
pub open spec fn quiet<T: Trait>() -> bool {
    listener_keeps::<T, StateOf<T>>(|s: StateOf<T>| s)
}

/// What the listener left behind in a rotation.
proof fn lemma_told<T: Trait>(
    before: StateOf<T>,
    normal_rotation: bool,
    is_final_block: bool,
    after: StateOf<T>,
) -> (told: StateOf<T>)
    requires
        rotated::<T>(before, normal_rotation, is_final_block, after),
    ensures
        T::OnSessionChange::reacts(
            before.next_session(is_final_block),
            normal_rotation,
            before.now - before.current_start,
            told,
        ),
        after == told.keys_updated(),
        same_but_for_keys(told, after),
{
    let told = choose|told: StateOf<T>|
        {
            &&& #[trigger] T::OnSessionChange::reacts(
                before.next_session(is_final_block),
                normal_rotation,
                before.now - before.current_start,
                told,
            )
            &&& after == told.keys_updated()
        };
    law_key_update_uses_up_pending_keys(told);
    told
}

/// What the listener left behind in a check that found cause to rotate.
proof fn lemma_told_in_check<T: Trait>(before: StateOf<T>, after: StateOf<T>) -> (told: StateOf<
    T,
>)
    requires
        checked::<T>(before, after),
        before.rotation_due(T::Moment::limit()),
    ensures
        T::OnSessionChange::reacts(
            before.next_session(before.is_final_block()),
            match before.forcing_new_session {
                Some(normal_rotation) => normal_rotation,
                None => !before.broken_validation(T::Moment::limit()),
            },
            before.now - before.current_start,
            told,
        ),
        after == (SessionState {
            forcing_new_session: if before.forcing_new_session is Some {
                None
            } else {
                told.forcing_new_session
            },
            ..told.keys_updated()
        }),
        same_but_for_keys(told, told.keys_updated()),
{
    let broken = before.broken_validation(T::Moment::limit());
    let is_final_block = before.is_final_block();
    match before.forcing_new_session {
        Some(normal_rotation) => {
            let mid = choose|mid: StateOf<T>|
                {
                    &&& #[trigger] rotated::<T>(before, normal_rotation, is_final_block, mid)
                    &&& after == (SessionState { forcing_new_session: None, ..mid })
                };
            lemma_told::<T>(before, normal_rotation, is_final_block, mid)
        },
        None => lemma_told::<T>(before, !broken, is_final_block, after),
    }
}

/// Where nobody interferes, a rotation begins the next session and updates the session keys, and
/// that is all: the state after it is fixed by the state before it.
pub proof fn law_quiet_rotation<T: Trait>(
    before: StateOf<T>,
    normal_rotation: bool,
    is_final_block: bool,
    after: StateOf<T>,
)
    requires
        quiet::<T>(),
        rotated::<T>(before, normal_rotation, is_final_block, after),
    ensures
        after == before.next_session(is_final_block).keys_updated(),
{
    let _ = lemma_told::<T>(before, normal_rotation, is_final_block, after);
}

/// Whoever listens, no validator has a pending key after a rotation.
pub proof fn law_rotation_leaves_no_pending_key<T: Trait>(
    before: StateOf<T>,
    normal_rotation: bool,
    is_final_block: bool,
    after: StateOf<T>,
)
    requires
        rotated::<T>(before, normal_rotation, is_final_block, after),
    ensures
        forall|i: int|
            0 <= i < after.validators.len() ==> !after.next_key_for.contains_key(
                #[trigger] after.validators[i],
            ),
{
    let told = lemma_told::<T>(before, normal_rotation, is_final_block, after);
    law_key_update_uses_up_pending_keys(told);
    assert forall|i: int| 0 <= i < after.validators.len() implies !after.next_key_for.contains_key(
        #[trigger] after.validators[i],
    ) by {
        assert(told.validators.to_set().contains(after.validators[i]));
    }
}

/// The check at the end of a block changes nothing unless the session is forced to rotate, is at
/// its final block, or has broken validation.
pub proof fn law_check_without_cause_changes_nothing<T: Trait>(
    before: StateOf<T>,
    after: StateOf<T>,
)
    requires
        checked::<T>(before, after),
        !before.rotation_due(T::Moment::limit()),
    ensures
        after == before,
{
}

/// Where nobody interferes, the check leaves behind what it says here: with a cause, the next
/// session, its keys updated and no order left to force another; without one, the same state.
pub proof fn law_quiet_check<T: Trait>(before: StateOf<T>, after: StateOf<T>)
    requires
        quiet::<T>(),
        checked::<T>(before, after),
    ensures
        after == if before.rotation_due(T::Moment::limit()) {
            SessionState {
                forcing_new_session: None,
                ..before.next_session(before.is_final_block()).keys_updated()
            }
        } else {
            before
        },
{
    if before.rotation_due(T::Moment::limit()) {
        let _ = lemma_told_in_check::<T>(before, after);
    }
}

/// The session index goes up by one exactly if there is cause, and the new session starts now;
/// unless the listener does something about either.
pub proof fn law_index_counts_rotations<T: Trait>(before: StateOf<T>, after: StateOf<T>)
    requires
        listener_keeps::<T, (int, int)>(|s: StateOf<T>| (s.current_index, s.current_start)),
        checked::<T>(before, after),
    ensures
        before.rotation_due(T::Moment::limit()) ==> after.current_index == before.current_index + 1
            && after.current_start == before.now,
        !before.rotation_due(T::Moment::limit()) ==> after.current_index == before.current_index
            && after.current_start == before.current_start,
{
    if before.rotation_due(T::Moment::limit()) {
        let _ = lemma_told_in_check::<T>(before, after);
    }
}

/// Whoever listens, an order to force a new session is used up by the next check.
pub proof fn law_forcing_is_used_up<T: Trait>(before: StateOf<T>, after: StateOf<T>)
    requires
        checked::<T>(before, after),
        before.forcing_new_session is Some,
    ensures
        after.forcing_new_session is None,
{
}

/// A new length has no effect until the session changes. It is the length from then on, with
/// sessions counted from the block of the change; unless the listener does something about either.
pub proof fn law_new_length_waits_for_rotation<T: Trait>(
    s: StateOf<T>,
    new: int,
    after: StateOf<T>,
)
    requires
        listener_keeps::<T, (int, Option<int>, Option<int>)>(
            |s: StateOf<T>| (s.session_length, s.next_session_length, s.last_length_change),
        ),
        checked::<T>(SessionState { next_session_length: Some(new), ..s }, after),
    ensures
        ({
            let asked = SessionState { next_session_length: Some(new), ..s };
            &&& asked.session_length == s.session_length
            &&& asked.blocks_remaining() == s.blocks_remaining()
            &&& asked.rotation_due(T::Moment::limit()) == s.rotation_due(T::Moment::limit())
            &&& if s.rotation_due(T::Moment::limit()) {
                &&& after.session_length == new
                &&& after.next_session_length is None
                &&& after.last_length_change == Some(s.block_number)
            } else {
                &&& after.session_length == s.session_length
                &&& after.next_session_length == Some(new)
            }
        }),
{
    let asked = SessionState { next_session_length: Some(new), ..s };
    assert(asked.counted_from() == s.counted_from());
    if asked.rotation_due(T::Moment::limit()) {
        let _ = lemma_told_in_check::<T>(asked, after);
    }
}

/// A new key has no effect until the session changes. If the account then is a validator, also
/// one that the listener has only just named, it is an authority under its new key, at the
/// position where it stands first among the validators; unless the listener does something about
/// pending keys.
pub proof fn law_new_key_waits_for_rotation<T: Trait>(
    s: StateOf<T>,
    account: <T::AccountId as DeepView>::V,
    key: <T::SessionKey as DeepView>::V,
    after: StateOf<T>,
    i: int,
)
    requires
        listener_keeps::<
            T,
            Map<<T::AccountId as DeepView>::V, <T::SessionKey as DeepView>::V>,
        >(|s: StateOf<T>| s.next_key_for),
        checked::<T>(SessionState { next_key_for: s.next_key_for.insert(account, key), ..s }, after),
        after.validators.len() <= 0x1_0000_0000,
        0 <= i < after.validators.len(),
        i < after.authorities.len(),
        after.validators[i] == account,
        forall|j: int| 0 <= j < i ==> after.validators[j] != account,
    ensures
        s.rotation_due(T::Moment::limit()) ==> {
            &&& after.authorities[i] == key
            &&& !after.next_key_for.contains_key(account)
        },
        !s.rotation_due(T::Moment::limit()) ==> {
            &&& after.authorities == s.authorities
            &&& after.next_key_for.contains_key(account)
            &&& after.next_key_for[account] == key
        },
{
    let asked = SessionState { next_key_for: s.next_key_for.insert(account, key), ..s };
    assert(asked.counted_from() == s.counted_from());
    if asked.rotation_due(T::Moment::limit()) {
        let told = lemma_told_in_check::<T>(asked, after);
        law_key_update_uses_up_pending_keys(told);
        law_key_update_sets_authorities(told, i);
        assert(takes_key(told, i));
        assert(told.validators.to_set().contains(told.validators[i]));
    }
}

/// The key of an account that is no validator stays pending; unless the listener does something
/// about pending keys.
pub proof fn law_other_keys_stay_pending<T: Trait>(
    before: StateOf<T>,
    after: StateOf<T>,
    account: <T::AccountId as DeepView>::V,
)
    requires
        listener_keeps::<
            T,
            Map<<T::AccountId as DeepView>::V, <T::SessionKey as DeepView>::V>,
        >(|s: StateOf<T>| s.next_key_for),
        checked::<T>(before, after),
        !after.validators.contains(account),
    ensures
        after.next_key_for.contains_key(account) == before.next_key_for.contains_key(account),
        before.next_key_for.contains_key(account) ==> after.next_key_for[account]
            == before.next_key_for[account],
{
    if before.rotation_due(T::Moment::limit()) {
        let told = lemma_told_in_check::<T>(before, after);
        law_key_update_uses_up_pending_keys(told);
    }
}

/// What the listener makes of a rotation is fixed by what it hears.
pub open spec fn decided<T: Trait>() -> bool {
    forall|
        before: StateOf<T>,
        normal_rotation: bool,
        time_elapsed: int,
        a: StateOf<T>,
        b: StateOf<T>,
    |
        #[trigger] T::OnSessionChange::reacts(before, normal_rotation, time_elapsed, a)
            && #[trigger] T::OnSessionChange::reacts(before, normal_rotation, time_elapsed, b)
            ==> a == b
}

/// With a listener that always does the same, two checks from the same state end in the same
/// state, whichever of the functions makes them.
pub proof fn law_check_is_decided<T: Trait>(before: StateOf<T>, a: StateOf<T>, b: StateOf<T>)
    requires
        decided::<T>(),
        checked::<T>(before, a),
        checked::<T>(before, b),
    ensures
        a == b,
{
    if before.rotation_due(T::Moment::limit()) {
        let _ = lemma_told_in_check::<T>(before, a);
        let _ = lemma_told_in_check::<T>(before, b);
    }
}

/// Sessions have a length, now and next; they are counted from a block that has come; and the
/// session started at a time that has come.
pub open spec fn in_order<A, K>(s: SessionState<A, K>) -> bool {
    &&& 0 < s.session_length
    &&& s.next_session_length matches Some(length) ==> 0 < length
    &&& 0 <= s.counted_from() <= s.block_number
    &&& s.current_start <= s.now
}

/// What `in_order` is about.
pub open spec fn clockwork<A, K>(s: SessionState<A, K>) -> (
    int,
    Option<int>,
    Option<int>,
    int,
    int,
    int,
) {
    (
        s.session_length,
        s.next_session_length,
        s.last_length_change,
        s.block_number,
        s.current_start,
        s.now,
    )
}

/// A check keeps the session manager in order, and so does going on to a later block at a later
/// time; unless the listener does something about it.
pub proof fn law_check_keeps_order<T: Trait>(
    before: StateOf<T>,
    after: StateOf<T>,
    block_number: int,
    now: int,
)
    requires
        listener_keeps::<T, (int, Option<int>, Option<int>, int, int, int)>(
            |s: StateOf<T>| clockwork(s),
        ),
        checked::<T>(before, after),
        in_order(before),
        before.block_number <= block_number,
        before.now <= now,
    ensures
        in_order(after),
        in_order(SessionState { block_number, now, ..after }),
{
    if before.rotation_due(T::Moment::limit()) {
        let _ = lemma_told_in_check::<T>(before, after);
    }
}

/// Calls keep the session manager in order, provided that no call asks for sessions without
/// blocks.
pub proof fn law_calls_keep_order<A, K>(
    s: SessionState<A, K>,
    validators: Seq<A>,
    authorities: Seq<K>,
    next_key_for: Map<A, K>,
    forcing_new_session: Option<bool>,
    length: int,
)
    requires
        in_order(s),
        0 < length,
    ensures
        in_order(SessionState { next_key_for, ..s }),
        in_order(SessionState { next_session_length: Some(length), ..s }),
        in_order(SessionState { forcing_new_session, ..s }),
        in_order(SessionState { validators, authorities, ..s }),
{
}

/// The session that a check begins is a full one: in the next block, one block fewer remains than
/// the session's length; unless the listener does something about it.
pub proof fn law_check_begins_full_session<T: Trait>(before: StateOf<T>, after: StateOf<T>)
    requires
        listener_keeps::<T, (int, Option<int>)>(
            |s: StateOf<T>| (s.session_length, s.last_length_change),
        ),
        checked::<T>(before, after),
        in_order(before),
        before.rotation_due(T::Moment::limit()),
    ensures
        (SessionState { block_number: before.block_number + 1, ..after }).blocks_remaining()
            == after.session_length - 1,
{
    let _ = lemma_told_in_check::<T>(before, after);
    let begun = before.next_session(before.is_final_block());
    law_new_session_is_a_full_session(before);
    let first = SessionState { block_number: before.block_number + 1, ..after };
    let model = SessionState { block_number: before.block_number + 1, ..begun };
    assert(first.counted_from() == model.counted_from());
}

/// `next` is the state one block after `s`, with the check at the end of that block between them.
/// Accounts, keys and the time may have changed since.
pub open spec fn one_block_later<T: Trait>(s: StateOf<T>, next: StateOf<T>) -> bool {
    exists|after: StateOf<T>|
        {
            &&& #[trigger] checked::<T>(s, after)
            &&& next == (SessionState {
                block_number: s.block_number + 1,
                now: next.now,
                validators: next.validators,
                authorities: next.authorities,
                next_key_for: next.next_key_for,
                ..after
            })
        }
}

/// Nothing but the number of blocks decides when this session ends, and how long the next one is.
pub open spec fn undisturbed<T: Trait>(s: StateOf<T>) -> bool {
    &&& s.forcing_new_session is None
    &&& s.next_session_length is None
    &&& !s.broken_validation(T::Moment::limit())
}

/// Over any number of undisturbed blocks, the session rotates just at the ends of those that are
/// a whole number of session lengths away from where sessions are counted from: the index goes up
/// by as many multiples of the length as there are among them. This is so unless the listener
/// does something about lengths or the index.
pub proof fn law_undisturbed_sessions_rotate_at_multiples<T: Trait>(run: Seq<StateOf<T>>)
    requires
        listener_keeps::<T, (int, Option<int>, int)>(
            |s: StateOf<T>| (s.session_length, s.last_length_change, s.current_index),
        ),
        run.len() > 0,
        0 < run[0].session_length,
        forall|k: int|
            0 < k < run.len() ==> one_block_later::<T>(run[k - 1], #[trigger] run[k]),
        forall|k: int| 0 <= k < run.len() - 1 ==> undisturbed::<T>(#[trigger] run[k]),
    ensures
        ({
            let first = run[0];
            let last = run.last();
            let length = first.session_length;
            let since = first.counted_from();
            &&& last.session_length == length
            &&& last.last_length_change == first.last_length_change
            &&& last.block_number == first.block_number + run.len() - 1
            &&& last.current_index - first.current_index == (last.block_number - 1 - since)
                / length - (first.block_number - 1 - since) / length
        }),
    decreases run.len(),
{
    if run.len() > 1 {
        let shorter = run.drop_last();
        let s = shorter.last();
        let next = run.last();
        assert forall|k: int| 0 < k < shorter.len() implies one_block_later::<T>(
            shorter[k - 1],
            #[trigger] shorter[k],
        ) by {
            assert(one_block_later::<T>(run[k - 1], run[k]));
        }
        assert forall|k: int| 0 <= k < shorter.len() - 1 implies undisturbed::<T>(
            #[trigger] shorter[k],
        ) by {
            assert(undisturbed::<T>(run[k]));
        }
        law_undisturbed_sessions_rotate_at_multiples::<T>(shorter);
        assert(undisturbed::<T>(run[run.len() - 2]));
        assert(one_block_later::<T>(run[run.len() - 2], run[run.len() - 1]));
        let after = choose|after: StateOf<T>|
            {
                &&& #[trigger] checked::<T>(s, after)
                &&& next == (SessionState {
                    block_number: s.block_number + 1,
                    now: next.now,
                    validators: next.validators,
                    authorities: next.authorities,
                    next_key_for: next.next_key_for,
                    ..after
                })
            };
        if s.rotation_due(T::Moment::limit()) {
            let _ = lemma_told_in_check::<T>(s, after);
        }
        lemma_quotient_step(s.block_number - s.counted_from(), s.session_length);
    }
}

/// Quotients go up by one at multiples, and nowhere else.
proof fn lemma_quotient_step(x: int, length: int)
    requires
        0 < length,
    ensures
        x / length - (x - 1) / length == if x % length == 0 {
            1int
        } else {
            0
        },
{
    lemma_fundamental_div_mod(x, length);
    lemma_mod_bound(x, length);
    if x % length == 0 {
        assert(x - 1 == length * (x / length - 1) + (length - 1)) by (nonlinear_arith)
            requires
                x == length * (x / length),
        ;
        lemma_fundamental_div_mod_converse(x - 1, length, x / length - 1, length - 1);
    } else {
        assert(x - 1 == (x / length) * length + (x % length - 1)) by (nonlinear_arith)
            requires
                x == length * (x / length) + x % length,
        ;
        lemma_fundamental_div_mod_converse(x - 1, length, x / length, x % length - 1);
    }
}

// ---------------------------------------------------------------------------------------------
// Setting up
// ---------------------------------------------------------------------------------------------

/// All of `bytes` together read as the number `n`, and as no other.
pub open spec fn reads_as<N: SimpleArithmetic + Decode>(bytes: Seq<u8>, n: int) -> bool {
    &&& N::parse(bytes) == Some((N::numeral(n), bytes.len() as int))
    &&& forall|m: N|
        N::parse(bytes) == Some((#[trigger] m.deep_view(), bytes.len() as int)) <==> m.value() == n
}

/// The encoding of a number reads as the number.
proof fn lemma_number_reads_back<N: SimpleArithmetic + Codec>(n: int)
    requires
        0 <= n < N::limit(),
        N::encodable(N::numeral(n)),
    ensures
        reads_as::<N>(N::encoding(N::numeral(n)), n),
{
    let bytes = N::encoding(N::numeral(n));
    crate::codec::law_decode_undoes_encode::<N>(N::numeral(n), Seq::<u8>::empty());
    assert forall|m: N|
        N::parse(bytes) == Some((#[trigger] m.deep_view(), bytes.len() as int)) <==> m.value()
            == n by {
        m.lemma_in_range();
        m.lemma_numeral();
        if m.deep_view() == N::numeral(n) {
            N::lemma_numerals_differ(m.value(), n);
        }
    }
}

/// Of the values in the initial storage, each reads as the number, or the list, with which the
/// session manager begins.
pub proof fn law_initial_storage_reads_back<T: Runtime>(
    config: GenesisConfig<T>,
    block_number: int,
    now: int,
    block_period: int,
    authorities: Seq<<T::SessionKey as DeepView>::V>,
)
    requires
        config.storable(),
    ensures
        ({
            let entries = config.initial_storage();
            let s = config.initial_state(block_number, now, block_period, authorities);
            &&& reads_as::<T::BlockNumber>(entries[0].1, s.session_length)
            &&& reads_as::<T::BlockNumber>(entries[1].1, s.current_index)
            &&& reads_as::<T::Moment>(entries[2].1, s.current_start)
            &&& Vec::<T::AccountId>::parse(entries[3].1) == Some(
                (s.validators, entries[3].1.len() as int),
            )
            &&& reads_as::<T::Moment>(entries[4].1, s.broken_percent_late)
        }),
{
    config.session_length.lemma_in_range();
    config.session_length.lemma_numeral();
    config.broken_percent_late.lemma_in_range();
    config.broken_percent_late.lemma_numeral();
    lemma_number_reads_back::<T::BlockNumber>(config.session_length.value());
    lemma_number_reads_back::<T::BlockNumber>(0);
    lemma_number_reads_back::<T::Moment>(0);
    lemma_number_reads_back::<T::Moment>(config.broken_percent_late.value());
    crate::codec::law_decode_undoes_encode::<Vec<T::AccountId>>(
        config.validators.deep_view(),
        Seq::<u8>::empty(),
    );
}

/// The hash does nothing but `hashed`, and tells the keys of the session manager apart.
pub open spec fn hashes_apart<F: Fn(&[u8]) -> [u8; 16]>(
    hash: F,
    hashed: spec_fn(Seq<u8>) -> Seq<u8>,
) -> bool {
    &&& forall|plain: &[u8], h: [u8; 16]| #[trigger]
        call_ensures(hash, (plain,), h) ==> h@ == hashed(plain@)
    &&& forall|a: Seq<u8>, b: Seq<u8>|
        is_storage_key(a) && is_storage_key(b) && #[trigger] hashed(a) == #[trigger] hashed(b)
            ==> a == b
}

/// No two keys of the session manager are the same.
proof fn lemma_storage_keys_differ<T: Runtime>(config: GenesisConfig<T>, i: int, j: int)
    requires
        0 <= i < j < config.initial_storage().len(),
    ensures
        is_storage_key(config.initial_storage()[i].0),
        is_storage_key(config.initial_storage()[j].0),
        config.initial_storage()[i].0 != config.initial_storage()[j].0,
{
    reveal_strlit("ses:len");
    reveal_strlit("ses:ind");
    reveal_strlit("ses:current_start");
    reveal_strlit("ses:val");
    reveal_strlit("ses:broken_percent_late");
    // Two keys are longer than the others, which differ in their fifth letter.
    assert(current_start_key().len() == 17);
    assert(broken_percent_late_key().len() == 23);
    assert(session_length_key().len() == 7 && session_length_key()[4] == 'l' as u8);
    assert(current_index_key().len() == 7 && current_index_key()[4] == 'i' as u8);
    assert(validators_key().len() == 7 && validators_key()[4] == 'v' as u8);
}

/// Storage that was built from a configuration holds, under the hashed key of each value, bytes
/// that read as what the session manager begins with under that configuration: the configured
/// length, validators and percentage, session zero, and time zero.
pub proof fn law_built_storage_reads_back<T: Runtime, F: Fn(&[u8]) -> [u8; 16]>(
    config: GenesisConfig<T>,
    hash: F,
    hashed: spec_fn(Seq<u8>) -> Seq<u8>,
    entries: Seq<(Vec<u8>, Vec<u8>)>,
    block_number: int,
    now: int,
    block_period: int,
    authorities: Seq<<T::SessionKey as DeepView>::V>,
)
    requires
        config.storable(),
        config.built(hash, entries),
        hashes_apart(hash, hashed),
    ensures
        ({
            let storage = storage_of(entries);
            let s = config.initial_state(block_number, now, block_period, authorities);
            let validators = storage[hashed(validators_key())];
            &&& storage.contains_key(hashed(session_length_key()))
            &&& storage.contains_key(hashed(current_index_key()))
            &&& storage.contains_key(hashed(current_start_key()))
            &&& storage.contains_key(hashed(validators_key()))
            &&& storage.contains_key(hashed(broken_percent_late_key()))
            &&& reads_as::<T::BlockNumber>(
                storage[hashed(session_length_key())],
                s.session_length,
            )
            &&& reads_as::<T::BlockNumber>(storage[hashed(current_index_key())], s.current_index)
            &&& reads_as::<T::Moment>(storage[hashed(current_start_key())], s.current_start)
            &&& Vec::<T::AccountId>::parse(validators) == Some(
                (s.validators, validators.len() as int),
            )
            &&& reads_as::<T::Moment>(
                storage[hashed(broken_percent_late_key())],
                s.broken_percent_late,
            )
        }),
{
    law_initial_storage_reads_back(config, block_number, now, block_period, authorities);
    let plain = config.initial_storage();
    let views = Seq::new(entries.len(), |i: int| (entries[i].0@, entries[i].1@));
    assert forall|i: int| 0 <= i < 5 implies (#[trigger] views[i]).0 == hashed(plain[i].0)
        && views[i].1 == plain[i].1 by {
        let (key, value) = plain[i];
        assert(stores(hash, key, value, entries[i]));
    }
    assert forall|i: int, j: int| 0 <= i < j < 5 implies (#[trigger] views[i]).0 != (
    #[trigger] views[j]).0 by {
        lemma_storage_keys_differ(config, i, j);
    }
    assert forall|i: int| 0 <= i < 5 implies contents(views).contains_key((#[trigger] views[i]).0)
        && contents(views)[views[i].0] == views[i].1 by {
        lemma_distinct_entries(views, i);
    }
    assert(views[0].0 == hashed(session_length_key()));
    assert(views[1].0 == hashed(current_index_key()));
    assert(views[2].0 == hashed(current_start_key()));
    assert(views[3].0 == hashed(validators_key()));
    assert(views[4].0 == hashed(broken_percent_late_key()));
}

/// Among entries with different keys, each one counts.
proof fn lemma_distinct_entries<A, B>(entries: Seq<(A, B)>, i: int)
    requires
        0 <= i < entries.len(),
        forall|j: int, k: int|
            0 <= j < k < entries.len() ==> (#[trigger] entries[j]).0 != (#[trigger] entries[k]).0,
    ensures
        contents(entries).contains_key(entries[i].0),
        contents(entries)[entries[i].0] == entries[i].1,
    decreases entries.len(),
{
    let front = entries.drop_last();
    if i < front.len() {
        assert forall|j: int, k: int| 0 <= j < k < front.len() implies (#[trigger] front[j]).0 != (
        #[trigger] front[k]).0 by {
            assert(entries[j].0 != entries[k].0);
        }
        lemma_distinct_entries(front, i);
        assert(entries[i].0 != entries[entries.len() - 1].0);
    }
}

} // verus!
