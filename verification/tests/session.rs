use session::calls::{Call, PrivCall};
use session::codec::Decode;
use session::genesis::GenesisConfig;
use session::runtime::Runtime;
use session::session::{Module, OnSessionChange, Trait};
use session::storage_map::StorageMap;
use session::traits::{As, Convert, Identity};

pub struct Test;

impl Runtime for Test {
    type AccountId = u64;
    type SessionKey = u64;
    type PublicAux = u64;
    type BlockNumber = u64;
    type Moment = u64;
}

impl Trait for Test {
    type ConvertAccountIdToSessionKey = Identity;
    type OnSessionChange = ();
}

fn setup<T: Runtime<AccountId = u64, SessionKey = u64, BlockNumber = u64, Moment = u64>>() -> Module<T> {
    Module::from_genesis(
        GenesisConfig { session_length: 2, validators: vec![1, 2, 3], broken_percent_late: 30 },
        1,
        0,
        5,
        vec![1, 2, 3],
    )
}

fn new_test_ext() -> Module<Test> {
    setup::<Test>()
}

#[test]
fn simple_setup_should_work() {
    let session = new_test_ext();
    assert_eq!(*session.authorities(), vec![1, 2, 3]);
    assert_eq!(session.length(), 2);
    assert_eq!(*session.validators(), vec![1, 2, 3]);
}

#[test]
fn should_identify_broken_validation() {
    let mut session = new_test_ext();
    session.set_block_number(2);
    assert_eq!(session.blocks_remaining(), 0);
    session.set_timestamp(0);
    assert_eq!(session.set_length(3), Ok(()));
    session.check_rotate_session();
    assert_eq!(session.current_index(), 1);
    assert_eq!(session.length(), 3);
    assert_eq!(session.current_start(), 0);
    assert_eq!(session.ideal_session_duration(), 15);
    // ideal end = 0 + 3 * 5 = 15
    // broken_limit = 15 * 130 / 100 = 19

    session.set_block_number(3);
    assert_eq!(session.blocks_remaining(), 2);
    session.set_timestamp(9); // earliest end = 9 + 2 * 5 = 19; OK.
    assert!(!session.broken_validation());
    session.check_rotate_session();

    session.set_block_number(4);
    assert_eq!(session.blocks_remaining(), 1);
    session.set_timestamp(15); // another 1 second late. earliest end = 15 + 1 * 5 = 20; broken.
    assert!(session.broken_validation());
    session.check_rotate_session();
    assert_eq!(session.current_index(), 2);
}

#[test]
fn should_work_with_early_exit() {
    let mut session = new_test_ext();
    session.set_block_number(1);
    assert_eq!(session.set_length(10), Ok(()));
    assert_eq!(session.blocks_remaining(), 1);
    session.check_rotate_session();

    session.set_block_number(2);
    assert_eq!(session.blocks_remaining(), 0);
    session.check_rotate_session();
    assert_eq!(session.length(), 10);

    session.set_block_number(7);
    assert_eq!(session.current_index(), 1);
    assert_eq!(session.blocks_remaining(), 5);
    assert_eq!(session.force_new_session(false), Ok(()));
    session.check_rotate_session();

    session.set_block_number(8);
    assert_eq!(session.current_index(), 2);
    assert_eq!(session.blocks_remaining(), 9);
    session.check_rotate_session();

    session.set_block_number(17);
    assert_eq!(session.current_index(), 2);
    assert_eq!(session.blocks_remaining(), 0);
    session.check_rotate_session();

    session.set_block_number(18);
    assert_eq!(session.current_index(), 3);
}

#[test]
fn session_length_change_should_work() {
    let mut session = new_test_ext();
    // Block 1: Change to length 3; no visible change.
    session.set_block_number(1);
    assert_eq!(session.set_length(3), Ok(()));
    session.check_rotate_session();
    assert_eq!(session.length(), 2);
    assert_eq!(session.current_index(), 0);

    // Block 2: Length now changed to 3. Index incremented.
    session.set_block_number(2);
    assert_eq!(session.set_length(3), Ok(()));
    session.check_rotate_session();
    assert_eq!(session.length(), 3);
    assert_eq!(session.current_index(), 1);

    // Block 3: Length now changed to 3. Index incremented.
    session.set_block_number(3);
    session.check_rotate_session();
    assert_eq!(session.length(), 3);
    assert_eq!(session.current_index(), 1);

    // Block 4: Change to length 2; no visible change.
    session.set_block_number(4);
    assert_eq!(session.set_length(2), Ok(()));
    session.check_rotate_session();
    assert_eq!(session.length(), 3);
    assert_eq!(session.current_index(), 1);

    // Block 5: Length now changed to 2. Index incremented.
    session.set_block_number(5);
    session.check_rotate_session();
    assert_eq!(session.length(), 2);
    assert_eq!(session.current_index(), 2);

    // Block 6: No change.
    session.set_block_number(6);
    session.check_rotate_session();
    assert_eq!(session.length(), 2);
    assert_eq!(session.current_index(), 2);

    // Block 7: Next index.
    session.set_block_number(7);
    session.check_rotate_session();
    assert_eq!(session.length(), 2);
    assert_eq!(session.current_index(), 3);
}

#[test]
fn session_change_should_work() {
    let mut session = new_test_ext();
    // Block 1: No change
    session.set_block_number(1);
    session.check_rotate_session();
    assert_eq!(*session.authorities(), vec![1, 2, 3]);

    // Block 2: Session rollover, but no change.
    session.set_block_number(2);
    session.check_rotate_session();
    assert_eq!(*session.authorities(), vec![1, 2, 3]);

    // Block 3: Set new key for validator 2; no visible change.
    session.set_block_number(3);
    assert_eq!(session.set_key(&2, 5), Ok(()));
    assert_eq!(*session.authorities(), vec![1, 2, 3]);

    session.check_rotate_session();
    assert_eq!(*session.authorities(), vec![1, 2, 3]);

    // Block 4: Session rollover, authority 2 changes.
    session.set_block_number(4);
    session.check_rotate_session();
    assert_eq!(*session.authorities(), vec![1, 5, 3]);
}

/// Writes down what it hears: the validators become the kind of rotation, the time elapsed and an
/// account with a pending key.
pub struct Scribe;

pub struct Told;

impl Runtime for Told {
    type AccountId = u64;
    type SessionKey = u64;
    type PublicAux = u64;
    type BlockNumber = u64;
    type Moment = u64;
}

/// A key is a hundred more than the account.
pub struct Shifted;

impl Convert<u64, u64> for Shifted {
    fn converted(a: u64) -> u64 {
        a + 100
    }

    fn convert(a: u64) -> u64 {
        a + 100
    }
}

impl OnSessionChange<Told> for Scribe {
    fn on_session_change(session: &mut Module<Told>, normal_rotation: bool, time_elapsed: u64) {
        let kind: u64 = if normal_rotation { 1 } else { 0 };
        session.set_validators(&[kind, time_elapsed, 77]);
    }
}

impl Trait for Told {
    type ConvertAccountIdToSessionKey = Shifted;
    type OnSessionChange = Scribe;
}

#[test]
fn listener_hears_of_rotation_before_keys_are_updated() {
    let mut session = setup::<Told>();
    assert_eq!(session.set_key(&77, 700), Ok(()));
    assert_eq!(session.set_key(&2, 200), Ok(()));
    session.set_block_number(2);
    session.set_timestamp(10);
    session.check_rotate_session();
    assert_eq!(*session.validators(), vec![1, 10, 77]);
    // 77 became a validator while the session changed, so its pending key counts.
    assert_eq!(*session.authorities(), vec![101, 110, 700]);
    assert_eq!(session.current_start(), 10);

    // 2 is no validator any more: its key is still pending when it becomes one again.
    session.set_validators(&[2, 2]);
    assert_eq!(*session.authorities(), vec![102, 102]);
    session.update_session_keys();
    assert_eq!(*session.authorities(), vec![200, 102]);
    session.update_session_keys();
    assert_eq!(*session.authorities(), vec![200, 102]);
}

#[test]
fn broken_validation_is_an_exceptional_rotation() {
    let mut session = setup::<Told>();
    session.set_block_number(1);
    session.set_timestamp(9); // earliest end = 9 + 5 = 14, latest end = 13
    assert!(session.broken_validation());
    session.check_rotate_session();
    assert_eq!(*session.validators(), vec![0, 9, 77]);
    assert_eq!(session.last_length_change(), 1);
}

#[test]
fn forced_rotation_has_the_kind_that_was_asked_for() {
    let mut session = setup::<Told>();
    session.set_block_number(1);
    session.set_timestamp(3);
    assert_eq!(session.force_new_session(true), Ok(()));
    assert_eq!(session.forcing_new_session(), Some(true));
    session.check_rotate_session();
    assert_eq!(session.forcing_new_session(), None);
    assert_eq!(*session.validators(), vec![1, 3, 77]);

    assert_eq!(session.force_new_session(false), Ok(()));
    session.set_block_number(2);
    session.set_timestamp(7);
    session.check_rotate_session();
    assert_eq!(session.forcing_new_session(), None);
    assert_eq!(*session.validators(), vec![0, 4, 77]);
}

#[test]
fn nothing_happens_without_cause() {
    let mut session = new_test_ext();
    session.set_block_number(1);
    session.set_timestamp(5);
    assert_eq!(session.set_key(&1, 9), Ok(()));
    session.execute();
    assert_eq!(session.current_index(), 0);
    assert_eq!(session.current_start(), 0);
    assert_eq!(*session.authorities(), vec![1, 2, 3]);
    session.set_block_number(2);
    session.set_timestamp(10);
    session.execute();
    assert_eq!(session.current_index(), 1);
    assert_eq!(session.current_start(), 10);
    assert_eq!(*session.authorities(), vec![9, 2, 3]);
}

#[test]
fn remaining_blocks_count_down_to_the_final_block() {
    let mut session = new_test_ext();
    assert_eq!(session.set_length(4), Ok(()));
    session.set_block_number(2);
    session.rotate_session(true, true);
    assert_eq!(session.last_length_change(), 2);
    for k in 0..9u64 {
        session.set_block_number(2 + k);
        assert_eq!(session.blocks_remaining(), (8 - k) % 4);
    }
}

#[test]
fn final_block_at_the_same_length_keeps_the_count() {
    let mut session = new_test_ext();
    assert_eq!(session.last_length_change(), 0);
    session.set_block_number(2);
    session.rotate_session(true, true);
    assert_eq!(session.last_length_change(), 0);
    session.set_block_number(3);
    session.rotate_session(true, false);
    assert_eq!(session.last_length_change(), 3);
}

#[test]
fn starting_a_session_tells_nobody() {
    let mut session = setup::<Told>();
    session.set_timestamp(4);
    assert_eq!(session.set_key(&1, 9), Ok(()));
    assert_eq!(session.start_next_session(false), 4);
    assert_eq!(session.current_index(), 1);
    assert_eq!(session.current_start(), 4);
    assert_eq!(session.last_length_change(), 1);
    assert_eq!(*session.validators(), vec![1, 2, 3]);
    assert_eq!(*session.authorities(), vec![1, 2, 3]);
}

#[test]
fn blocks_on_time_are_not_broken() {
    let mut session: Module<Test> = Module::from_genesis(
        GenesisConfig { session_length: 4, validators: vec![], broken_percent_late: 0 },
        0,
        0,
        5,
        vec![],
    );
    for block in 1..4u64 {
        session.set_block_number(block);
        session.set_timestamp(block * 5);
        assert!(!session.broken_validation());
        session.set_timestamp(block * 5 + 1);
        assert!(session.broken_validation());
    }
    assert_eq!(session.validator_count(), 0);
    assert_eq!(session.broken_percent_late(), 0);
}

#[test]
fn a_position_without_authority_is_passed_over() {
    let mut session: Module<Test> = Module::from_genesis(
        GenesisConfig { session_length: 4, validators: vec![1, 2], broken_percent_late: 0 },
        0,
        0,
        5,
        vec![10],
    );
    assert_eq!(session.validator_count(), 2);
    assert_eq!(session.set_key(&2, 20), Ok(()));
    session.update_session_keys();
    assert_eq!(*session.authorities(), vec![10]);
}

#[test]
fn the_last_key_counts() {
    let mut session = new_test_ext();
    assert_eq!(session.set_key(&3, 30), Ok(()));
    assert_eq!(session.set_key(&3, 31), Ok(()));
    session.update_session_keys();
    assert_eq!(*session.authorities(), vec![1, 2, 31]);
}

#[test]
fn calls_reach_the_session_manager() {
    let mut session = new_test_ext();
    assert_eq!(Call::SetKey(8).dispatch(&mut session, &1), Ok(()));
    assert_eq!(PrivCall::SetLength(6).dispatch(&mut session), Ok(()));
    assert_eq!(PrivCall::ForceNewSession(true).dispatch(&mut session), Ok(()));
    session.check_rotate_session();
    assert_eq!(*session.authorities(), vec![8, 2, 3]);
    assert_eq!(session.length(), 6);
    assert_eq!(session.current_index(), 1);
}

#[test]
fn default_configuration() {
    let config: GenesisConfig<Test> = GenesisConfig::default();
    assert_eq!(config.session_length, 1000);
    assert_eq!(config.validators, vec![]);
    assert_eq!(config.broken_percent_late, 30);
}

fn toy_hash(key: &[u8]) -> [u8; 16] {
    let mut hash = [0u8; 16];
    for (i, byte) in key.iter().enumerate() {
        hash[i % 16] = hash[i % 16].wrapping_mul(31).wrapping_add(*byte);
    }
    hash
}

#[test]
fn storage_begins_with_the_configuration() {
    let config: GenesisConfig<Test> =
        GenesisConfig { session_length: 2, validators: vec![1, 2, 3], broken_percent_late: 30 };
    let storage = config.build_storage(|key| toy_hash(key)).unwrap();
    let find = |key: &[u8]| -> Vec<u8> {
        storage.iter().find(|entry| entry.0 == toy_hash(key).to_vec()).unwrap().1.clone()
    };
    assert_eq!(storage.len(), 5);
    assert_eq!(u64::decode(&mut &find(b"ses:len")[..]), Some(2));
    assert_eq!(u64::decode(&mut &find(b"ses:ind")[..]), Some(0));
    assert_eq!(u64::decode(&mut &find(b"ses:current_start")[..]), Some(0));
    assert_eq!(Vec::<u64>::decode(&mut &find(b"ses:val")[..]), Some(vec![1, 2, 3]));
    assert_eq!(u64::decode(&mut &find(b"ses:broken_percent_late")[..]), Some(30));
    assert_eq!(find(b"ses:len"), vec![2, 0, 0, 0, 0, 0, 0, 0]);
}

/// Block counts are wider than times.
pub struct Narrow;

impl Runtime for Narrow {
    type AccountId = u32;
    type SessionKey = u32;
    type PublicAux = u32;
    type BlockNumber = u64;
    type Moment = u32;
}

#[test]
fn block_counts_are_cut_off_as_times() {
    let session: Module<Narrow> = Module::from_genesis(
        GenesisConfig {
            session_length: 0x1_0000_0003,
            validators: vec![],
            broken_percent_late: 30,
        },
        0,
        0,
        5,
        vec![],
    );
    assert_eq!(session.ideal_session_duration(), 15);
    assert_eq!(<u32 as As<u64>>::sa(0x1_0000_0003), 3);
    assert_eq!(<u64 as As<u32>>::sa(7), 7);
}

#[test]
fn stored_values_are_taken_once() {
    let mut map: StorageMap<u64, u64> = StorageMap::new();
    map.insert(1, 10);
    map.insert(2, 20);
    map.insert(1, 11);
    assert_eq!(map.take(&3), None);
    assert_eq!(map.take(&1), Some(11));
    assert_eq!(map.take(&1), None);
    assert_eq!(map.take(&2), Some(20));
}

#[test]
fn time_and_delay_decide_what_is_broken() {
    let broken = |late: u64, now: u64| -> bool {
        let session: Module<Test> = Module::from_genesis(
            GenesisConfig { session_length: 10, validators: vec![], broken_percent_late: late },
            4,
            now,
            5,
            vec![],
        );
        assert_eq!(session.blocks_remaining(), 6);
        session.broken_validation()
    };
    // ideal end = 50, earliest end = now + 30
    assert!(!broken(0, 20));
    assert!(broken(0, 21));
    assert!(broken(0, 1000));
    assert!(!broken(10, 25));
    assert!(broken(10, 26));
    assert!(!broken(20, 26));
    // the allowed delay is rounded down: 50 * 101 / 100 = 50
    assert!(broken(1, 21));
}

#[test]
fn sessions_stay_in_order_over_many_blocks() {
    let mut session = new_test_ext();
    for block in 1..200u64 {
        session.set_block_number(block);
        session.set_timestamp(block * 5);
        if block % 7 == 0 {
            assert_eq!(session.set_length(block % 5 + 1), Ok(()));
        }
        if block % 31 == 0 {
            assert_eq!(session.force_new_session(true), Ok(()));
        }
        let before = session.current_index();
        session.check_rotate_session();
        assert!(session.length() > 0);
        assert!(session.last_length_change() <= block);
        assert!(session.current_start() <= block * 5);
        if session.current_index() != before {
            assert_eq!(session.current_index(), before + 1);
            session.set_block_number(block + 1);
            assert_eq!(session.blocks_remaining(), session.length() - 1);
        }
    }
}

#[test]
fn undisturbed_sessions_rotate_at_multiples_of_their_length() {
    let mut session: Module<Test> = Module::from_genesis(
        GenesisConfig { session_length: 4, validators: vec![1], broken_percent_late: 30 },
        1,
        0,
        5,
        vec![1],
    );
    for block in 1..50u64 {
        session.set_block_number(block);
        session.set_timestamp(block * 5);
        let before = session.current_index();
        session.check_rotate_session();
        assert_eq!(session.current_index() == before + 1, block % 4 == 0);
        assert_eq!(session.current_index(), block / 4);
        assert_eq!(session.last_length_change(), 0);
    }
}

#[test]
fn execute_ends_like_the_check() {
    let mut a = setup::<Told>();
    let mut b = setup::<Told>();
    for block in 1..12u64 {
        a.set_block_number(block);
        b.set_block_number(block);
        a.set_timestamp(block * 6);
        b.set_timestamp(block * 6);
        a.execute();
        b.check_rotate_session();
        assert_eq!(a.current_index(), b.current_index());
        assert_eq!(a.current_start(), b.current_start());
        assert_eq!(a.last_length_change(), b.last_length_change());
        assert_eq!(a.validators(), b.validators());
        assert_eq!(a.authorities(), b.authorities());
    }
    assert!(a.current_index() > 0);
}
