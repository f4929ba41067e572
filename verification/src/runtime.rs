//! The types that the runtime around the session manager is built from.

use crate::codec::Codec;
use crate::traits::{As, Parameter, RefInto, SimpleArithmetic};
use vstd::prelude::*;

verus! {

pub trait Runtime: Sized {
    /// Names an account.
    type AccountId: Parameter;

    /// The key under which a validator acts as an authority.
    type SessionKey: Parameter;

    /// What a public call carries besides its arguments: at least the caller's account.
    type PublicAux: RefInto<Self::AccountId>;

    /// Counts blocks.
    type BlockNumber: SimpleArithmetic + As<u64> + Codec;

    /// Measures time.
    type Moment: SimpleArithmetic + As<u64> + As<Self::BlockNumber> + Codec;
}

} // verus!
