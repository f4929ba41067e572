//! The calls that the session manager answers.

use crate::runtime::Runtime;
use crate::session::{DispatchResult, Module};
use crate::state::SessionState;
use crate::traits::{RefInto, SimpleArithmetic};
use vstd::prelude::*;

verus! {

/// The calls that anyone may make.
pub enum Call<T: Runtime> {
    SetKey(T::SessionKey),
}

/// The calls that only the runtime itself may make.
pub enum PrivCall<T: Runtime> {
    SetLength(T::BlockNumber),
    ForceNewSession(bool),
}

impl<T: Runtime> Call<T> {
    /// Makes the call in the name of `aux`.
    pub fn dispatch(self, session: &mut Module<T>, aux: &T::PublicAux) -> (result: DispatchResult)
        ensures
            result is Ok,
            match self {
                Call::SetKey(key) => final(session)@ == (SessionState {
                    next_key_for: old(session)@.next_key_for.insert(
                        aux.target().deep_view(),
                        key.deep_view(),
                    ),
                    ..old(session)@
                }),
            },
    {
        match self {
            Call::SetKey(key) => session.set_key(aux, key),
        }
    }
}

impl<T: Runtime> PrivCall<T> {
    /// Makes the call.
    pub fn dispatch(self, session: &mut Module<T>) -> (result: DispatchResult)
        ensures
            result is Ok,
            match self {
                PrivCall::SetLength(new) => final(session)@ == (SessionState {
                    next_session_length: Some(new.value()),
                    ..old(session)@
                }),
                PrivCall::ForceNewSession(normal_rotation) => final(session)@ == (SessionState {
                    forcing_new_session: Some(normal_rotation),
                    ..old(session)@
                }),
            },
    {
        match self {
            PrivCall::SetLength(new) => session.set_length(new),
            PrivCall::ForceNewSession(normal_rotation) => session.force_new_session(
                normal_rotation,
            ),
        }
    }
}

} // verus!
