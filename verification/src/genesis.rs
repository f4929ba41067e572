//! How the session manager is set up.

use crate::codec::Encode;
use crate::runtime::Runtime;
use crate::state::{SessionState, StateOf};
use crate::storage_map::contents;
use crate::traits::{As, SimpleArithmetic};
use vstd::prelude::*;

verus! {

/// What the session manager is set up with.
pub struct GenesisConfig<T: Runtime> {
    pub session_length: T::BlockNumber,
    pub validators: Vec<T::AccountId>,
    pub broken_percent_late: T::Moment,
}

impl<T: Runtime> Default for GenesisConfig<T> {
    fn default() -> (config: Self)
        ensures
            config.session_length.value() == 1000int % T::BlockNumber::limit(),
            config.validators@.len() == 0,
            config.broken_percent_late.value() == 30,
    {
        let config: Self = GenesisConfig {
            session_length: <T::BlockNumber as As<u64>>::sa(1000u64),
            validators: Vec::new(),
            broken_percent_late: <T::Moment as As<u64>>::sa(30u64),
        };
        proof {
            config.broken_percent_late.lemma_in_range();
            vstd::arithmetic::div_mod::lemma_small_mod(30, T::Moment::limit() as nat);
        }
        config
    }
}

/// The bytes of a text without characters beyond ASCII.
pub open spec fn ascii(text: Seq<char>) -> Seq<u8> {
    Seq::new(text.len(), |i: int| text[i] as u8)
}

/// The key under which storage holds the length of a session.
pub open spec fn session_length_key() -> Seq<u8> {
    ascii("ses:len"@)
}

/// The key under which storage holds the index of the session.
pub open spec fn current_index_key() -> Seq<u8> {
    ascii("ses:ind"@)
}

/// The key under which storage holds the time when the session started.
pub open spec fn current_start_key() -> Seq<u8> {
    ascii("ses:current_start"@)
}

/// The key under which storage holds the validators.
pub open spec fn validators_key() -> Seq<u8> {
    ascii("ses:val"@)
}

/// The key under which storage holds the percentage of delay.
pub open spec fn broken_percent_late_key() -> Seq<u8> {
    ascii("ses:broken_percent_late"@)
}

/// One of the keys above.
pub open spec fn is_storage_key(bytes: Seq<u8>) -> bool {
    ||| bytes == session_length_key()
    ||| bytes == current_index_key()
    ||| bytes == current_start_key()
    ||| bytes == validators_key()
    ||| bytes == broken_percent_late_key()
}

/// The entry holds `value` under what `hash` makes of `key`.
pub open spec fn stores<F: Fn(&[u8]) -> [u8; 16]>(
    hash: F,
    key: Seq<u8>,
    value: Seq<u8>,
    entry: (Vec<u8>, Vec<u8>),
) -> bool {
    &&& exists|plain: &[u8], hashed: [u8; 16]|
        {
            &&& plain@ == key
            &&& #[trigger] call_ensures(hash, (plain,), hashed)
            &&& entry.0@ == hashed@
        }
    &&& entry.1@ == value
}

/// What storage holds after the entries have been put into it one after another.
pub open spec fn storage_of(entries: Seq<(Vec<u8>, Vec<u8>)>) -> Map<Seq<u8>, Seq<u8>> {
    contents(Seq::new(entries.len(), |i: int| (entries[i].0@, entries[i].1@)))
}

/// The bytes of `text`, hashed.
fn hashed_key<F: Fn(&[u8]) -> [u8; 16]>(hash: &F, text: &str) -> (key: Vec<u8>)
    requires
        text.is_ascii(),
        forall|plain: &[u8]|
            plain@ == ascii(text@) ==> #[trigger] call_requires(*hash, (plain,)),
    ensures
        exists|plain: &[u8], hashed: [u8; 16]|
            {
                &&& plain@ == ascii(text@)
                &&& #[trigger] call_ensures(*hash, (plain,), hashed)
                &&& key@ == hashed@
            },
{
    let plain: &[u8] = text.as_bytes();
    assert(plain@ =~= ascii(text@));
    let hashed: [u8; 16] = hash(plain);
    vstd::slice::slice_to_vec(hashed.as_slice())
}

impl<T: Runtime> GenesisConfig<T> {
    /// The format has room for the values.
    pub open spec fn storable(self) -> bool {
        &&& T::BlockNumber::encodable(self.session_length.deep_view())
        &&& T::BlockNumber::encodable(T::BlockNumber::numeral(0))
        &&& T::Moment::encodable(T::Moment::numeral(0))
        &&& Vec::<T::AccountId>::encodable(self.validators.deep_view())
        &&& T::Moment::encodable(self.broken_percent_late.deep_view())
    }

    /// The keys and values that storage begins with.
    pub open spec fn initial_storage(self) -> Seq<(Seq<u8>, Seq<u8>)> {
        seq![
            (session_length_key(), T::BlockNumber::encoding(self.session_length.deep_view())),
            (current_index_key(), T::BlockNumber::encoding(T::BlockNumber::numeral(0))),
            (current_start_key(), T::Moment::encoding(T::Moment::numeral(0))),
            (validators_key(), Vec::<T::AccountId>::encoding(self.validators.deep_view())),
            (
                broken_percent_late_key(),
                T::Moment::encoding(self.broken_percent_late.deep_view()),
            ),
        ]
    }

    /// The state that the session manager begins in, in a runtime at block `block_number` and
    /// time `now`, with blocks `block_period` apart.
    pub open spec fn initial_state(
        self,
        block_number: int,
        now: int,
        block_period: int,
        authorities: Seq<<T::SessionKey as DeepView>::V>,
    ) -> StateOf<T> {
        SessionState {
            validators: self.validators.deep_view(),
            session_length: self.session_length.value(),
            current_index: 0,
            current_start: 0,
            broken_percent_late: self.broken_percent_late.value(),
            forcing_new_session: None,
            last_length_change: None,
            next_key_for: Map::empty(),
            next_session_length: None,
            block_number,
            now,
            block_period,
            authorities,
        }
    }

    /// The entries are the initial storage, under keys hashed by `hash`.
    pub open spec fn built<F: Fn(&[u8]) -> [u8; 16]>(
        self,
        hash: F,
        entries: Seq<(Vec<u8>, Vec<u8>)>,
    ) -> bool {
        &&& entries.len() == self.initial_storage().len()
        &&& forall|i: int|
            0 <= i < entries.len() ==> {
                let (key, value) = self.initial_storage()[i];
                stores(hash, key, value, #[trigger] entries[i])
            }
    }

    /// The entries that storage begins with, under keys hashed by `hash`.
    pub fn build_storage<F: Fn(&[u8]) -> [u8; 16]>(self, hash: F) -> (storage: Result<
        Vec<(Vec<u8>, Vec<u8>)>,
        String,
    >)
        requires
            self.storable(),
            forall|plain: &[u8]|
                is_storage_key(plain@) ==> #[trigger] call_requires(hash, (plain,)),
        ensures
            storage matches Ok(entries) && self.built(hash, entries@),
    {
        proof {
            reveal_strlit("ses:len");
            reveal_strlit("ses:ind");
            reveal_strlit("ses:current_start");
            reveal_strlit("ses:val");
            reveal_strlit("ses:broken_percent_late");
        }
        let index: T::BlockNumber = <T::BlockNumber as As<u64>>::sa(0u64);
        let start: T::Moment = T::Moment::zero();
        proof {
            index.lemma_in_range();
            vstd::arithmetic::div_mod::lemma_small_mod(0, T::BlockNumber::limit() as nat);
            index.lemma_numeral();
            start.lemma_numeral();
        }
        let mut entries: Vec<(Vec<u8>, Vec<u8>)> = Vec::new();
        entries.push((hashed_key(&hash, "ses:len"), self.session_length.encode()));
        entries.push((hashed_key(&hash, "ses:ind"), index.encode()));
        entries.push((hashed_key(&hash, "ses:current_start"), start.encode()));
        entries.push((hashed_key(&hash, "ses:val"), self.validators.encode()));
        entries.push(
            (hashed_key(&hash, "ses:broken_percent_late"), self.broken_percent_late.encode()),
        );
        Ok(entries)
    }
}

} // verus!
