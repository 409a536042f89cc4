use ledger_snapshot::account::Account;
use ledger_snapshot::blockhash_queue::{BlockhashQueue, HashAgeEntry};
use ledger_snapshot::codec::{decode, Codec, Keyed};
use ledger_snapshot::epoch_rewards::{EpochRewards, RewardInfo, RewardKind, StakeReward};
use ledger_snapshot::epoch_stakes::{EpochAuthorizedVoter, EpochStake, NodeVoteAccountsEntry};
use ledger_snapshot::error::SnapshotError;
use ledger_snapshot::fees::{FeeCalculator, FeeRateGovernor};
use ledger_snapshot::hard_forks::HardFork;
use ledger_snapshot::header::ScalarHeader;
use ledger_snapshot::inflation::Inflation;
use ledger_snapshot::key::Key;
use ledger_snapshot::persistence::IncrementalSnapshotPersistence;
use ledger_snapshot::rent::{EpochSchedule, Rent, RentCollector};
use ledger_snapshot::repeat::distinct_keys;
use ledger_snapshot::stakes::{
    Delegation, DelegationEntry, StakeHistoryRecord, Stakes, VoteAccountEntry, VoterStake,
};
use ledger_snapshot::writer::{put_bytes_field, put_fixed64_field, put_varint_field};

fn key(n: u8) -> Key {
    Key::from_array(&[n; 32])
}

fn account(lamports: u64) -> Account {
    Account { lamports, data: vec![1, 2, 3], owner: key(7), executable: true, rent_epoch: 9 }
}

fn delegation(voter: u8, stake: u64) -> Delegation {
    Delegation {
        voter_pubkey: key(voter),
        stake,
        activation_epoch: 3,
        deactivation_epoch: u64::MAX,
        warmup_cooldown_rate: 0x3fd0_0000_0000_0000,
    }
}

fn stakes() -> Stakes {
    Stakes {
        epoch: 4,
        vote_accounts: vec![
            VoteAccountEntry { pubkey: key(20), stake: 1000, vote_account: account(1) },
            VoteAccountEntry { pubkey: key(21), stake: 2000, vote_account: account(2) },
        ],
        stake_delegations: vec![
            DelegationEntry { pubkey: key(30), delegation: delegation(20, 600) },
            DelegationEntry { pubkey: key(31), delegation: delegation(20, 400) },
            DelegationEntry { pubkey: key(32), delegation: delegation(21, 2000) },
        ],
        stake_history: vec![
            StakeHistoryRecord { epoch: 3, effective: 10, activating: 20, deactivating: 30 },
            StakeHistoryRecord { epoch: 2, effective: 11, activating: 21, deactivating: 31 },
        ],
    }
}

fn header() -> ScalarHeader {
    ScalarHeader {
        epoch: 1,
        block_height: 2,
        slot: 3,
        parent_slot: 2,
        hash: key(1),
        parent_hash: key(2),
        epoch_accounts_hash: Some(key(3)),
        signature_count: 4,
        capitalization: 5,
        transaction_count: 6,
        tick_height: 7,
        max_tick_height: 8,
        hashes_per_tick: Some(9),
        ticks_per_slot: 10,
        ns_per_slot: 400_000_000,
        slots_per_year: 0x4192_cd62_0000_0000,
        genesis_creation_time: -5,
        collector_id: key(4),
        collector_fees: 11,
        collected_rent: 12,
        accounts_data_size: 13,
        is_delta: true,
    }
}

fn round_trip<T: Codec + PartialEq + std::fmt::Debug>(x: &T) {
    let bytes = x.encode().unwrap();
    let back = decode::<T>(&bytes).unwrap();
    assert_eq!(&back, x);
}

fn malformed<T: Codec + std::fmt::Debug>(bytes: &[u8]) {
    assert_eq!(decode::<T>(bytes).err(), Some(SnapshotError::MalformedSnapshot));
}

#[test]
fn account_encodes_to_expected_bytes() {
    let mut expected: Vec<u8> = vec![0x08, 0xf4, 0x03, 0x12, 0x03, 1, 2, 3, 0x1a, 0x20];
    expected.extend_from_slice(&[7u8; 32]);
    expected.extend_from_slice(&[0x20, 0x01, 0x28, 0x09]);
    assert_eq!(account(500).encode().unwrap(), expected);
}

#[test]
fn account_round_trips() {
    round_trip(&account(500));
    round_trip(&Account {
        lamports: u64::MAX,
        data: Vec::new(),
        owner: key(0),
        executable: false,
        rent_epoch: 0,
    });
    round_trip(&Account {
        lamports: 0,
        data: vec![0xab; 300],
        owner: key(255),
        executable: true,
        rent_epoch: u64::MAX,
    });
}

#[test]
fn account_without_a_required_field_is_malformed() {
    let full = account(500).encode().unwrap();
    // without the rent epoch
    malformed::<Account>(&full[..full.len() - 2]);
    // without anything
    malformed::<Account>(&[]);
    // cut in the middle of a field
    malformed::<Account>(&full[..full.len() - 1]);
}

fn account_with_owner(owner: &[u8]) -> Vec<u8> {
    let mut out: Vec<u8> = Vec::new();
    put_varint_field(&mut out, 1, 500);
    put_bytes_field(&mut out, 2, &[1, 2, 3]);
    put_bytes_field(&mut out, 3, owner);
    put_varint_field(&mut out, 4, 1);
    put_varint_field(&mut out, 5, 9);
    out
}

#[test]
fn key_of_31_or_33_bytes_is_malformed() {
    assert_eq!(decode::<Account>(&account_with_owner(&[7u8; 32])).unwrap(), account(500));
    malformed::<Account>(&account_with_owner(&[7u8; 31]));
    malformed::<Account>(&account_with_owner(&[7u8; 33]));
    malformed::<Account>(&account_with_owner(&[]));
}

#[test]
fn flag_other_than_zero_or_one_is_malformed() {
    let mut out: Vec<u8> = Vec::new();
    put_varint_field(&mut out, 1, 500);
    put_bytes_field(&mut out, 2, &[1, 2, 3]);
    put_bytes_field(&mut out, 3, &[7u8; 32]);
    put_varint_field(&mut out, 4, 2);
    put_varint_field(&mut out, 5, 9);
    malformed::<Account>(&out);
}

#[test]
fn unknown_fields_are_ignored() {
    let mut bytes = account(500).encode().unwrap();
    put_varint_field(&mut bytes, 99, 1);
    put_bytes_field(&mut bytes, 100, b"from a later schema");
    put_fixed64_field(&mut bytes, 101, 5);
    bytes.extend_from_slice(&[0x9d, 0x06, 1, 2, 3, 4]);
    assert_eq!(decode::<Account>(&bytes).unwrap(), account(500));
}

#[test]
fn fields_may_come_in_any_order() {
    let mut out: Vec<u8> = Vec::new();
    put_varint_field(&mut out, 5, 9);
    put_varint_field(&mut out, 4, 1);
    put_bytes_field(&mut out, 3, &[7u8; 32]);
    put_bytes_field(&mut out, 2, &[1, 2, 3]);
    put_varint_field(&mut out, 1, 500);
    assert_eq!(decode::<Account>(&out).unwrap(), account(500));
}

#[test]
fn scalar_records_round_trip() {
    round_trip(&FeeCalculator { lamports_per_signature: 5000 });
    round_trip(&FeeRateGovernor {
        lamports_per_signature: 1,
        target_signatures_per_slot: 2,
        min_lamports_per_signature: 3,
        max_lamports_per_signature: 4,
        burn_percent: 100,
    });
    round_trip(&Inflation {
        initial: 0x3fc0_0000_0000_0000,
        terminal: 0x3f90_0000_0000_0000,
        taper: u64::MAX,
        foundation: 0,
        foundation_term: 0x7ff8_0000_0000_0001,
    });
    round_trip(&Rent { lamports_per_byte_year: 3480, exemption_threshold: 1 << 62, burn_percent: 0 });
    round_trip(&EpochSchedule {
        slots_per_epoch: 432_000,
        leader_schedule_slot_offset: 432_000,
        warmup: false,
        first_normal_epoch: 0,
        first_normal_slot: 0,
    });
    round_trip(&HardFork { slot: 10, count: 1 });
    round_trip(&IncrementalSnapshotPersistence {
        full_slot: 100,
        full_hash: key(1),
        full_capitalization: 5,
        incremental_slot: 150,
        incremental_hash: key(2),
        incremental_capitalization: 6,
    });
    round_trip(&delegation(20, 600));
    round_trip(&header());
}

#[test]
fn rent_collector_round_trips() {
    round_trip(&RentCollector {
        epoch: 7,
        epoch_schedule: EpochSchedule {
            slots_per_epoch: 32,
            leader_schedule_slot_offset: 32,
            warmup: true,
            first_normal_epoch: 14,
            first_normal_slot: 524_256,
        },
        slots_per_year: 0x4192_cd62_0000_0000,
        rent: Rent { lamports_per_byte_year: 3480, exemption_threshold: 1 << 62, burn_percent: 50 },
    });
}

#[test]
fn inflation_encodes_to_expected_bytes() {
    let inflation =
        Inflation { initial: 1, terminal: 2, taper: 3, foundation: 4, foundation_term: 0x0100 };
    let expected: Vec<u8> = vec![
        0x09, 1, 0, 0, 0, 0, 0, 0, 0, 0x11, 2, 0, 0, 0, 0, 0, 0, 0, 0x19, 3, 0, 0, 0, 0, 0, 0,
        0, 0x21, 4, 0, 0, 0, 0, 0, 0, 0, 0x29, 0, 1, 0, 0, 0, 0, 0, 0,
    ];
    assert_eq!(inflation.encode().unwrap(), expected);
}

#[test]
fn hard_fork_encodes_to_expected_bytes() {
    assert_eq!(HardFork { slot: 10, count: 300 }.encode().unwrap(), vec![0x08, 10, 0x10, 0xac, 2]);
}

#[test]
fn burn_percent_above_100_is_malformed() {
    let mut governor = FeeRateGovernor {
        lamports_per_signature: 1,
        target_signatures_per_slot: 2,
        min_lamports_per_signature: 3,
        max_lamports_per_signature: 4,
        burn_percent: 101,
    };
    malformed::<FeeRateGovernor>(&governor.encode().unwrap());
    governor.burn_percent = 100;
    round_trip(&governor);
    let rent = Rent { lamports_per_byte_year: 1, exemption_threshold: 2, burn_percent: 255 };
    malformed::<Rent>(&rent.encode().unwrap());
}

#[test]
fn header_with_wide_duration_overflows() {
    let mut h = header();
    h.ns_per_slot = 1u128 << 64;
    assert_eq!(h.encode().err(), Some(SnapshotError::RangeOverflow));
    h.ns_per_slot = u128::MAX;
    assert_eq!(h.encode().err(), Some(SnapshotError::RangeOverflow));
    h.ns_per_slot = u64::MAX as u128;
    round_trip(&h);
}

#[test]
fn header_keeps_absent_fields_absent() {
    let mut h = header();
    h.epoch_accounts_hash = None;
    h.hashes_per_tick = None;
    round_trip(&h);
    h.hashes_per_tick = Some(0);
    round_trip(&h);
}

#[test]
fn header_keeps_signed_time() {
    let mut h = header();
    for t in [i64::MIN, -1, 0, 1, i64::MAX] {
        h.genesis_creation_time = t;
        round_trip(&h);
    }
}

#[test]
fn stakes_round_trip() {
    round_trip(&stakes());
    round_trip(&Stakes {
        epoch: 0,
        vote_accounts: Vec::new(),
        stake_delegations: Vec::new(),
        stake_history: Vec::new(),
    });
}

#[test]
fn duplicate_delegation_key_is_malformed() {
    let mut s = stakes();
    s.stake_delegations.push(DelegationEntry { pubkey: key(30), delegation: delegation(21, 1) });
    malformed::<Stakes>(&s.encode().unwrap());
}

#[test]
fn duplicate_vote_account_key_is_malformed() {
    let mut s = stakes();
    s.vote_accounts.push(VoteAccountEntry { pubkey: key(21), stake: 5, vote_account: account(9) });
    malformed::<Stakes>(&s.encode().unwrap());
}

#[test]
fn duplicate_history_epoch_is_malformed() {
    let mut s = stakes();
    s.stake_history.push(StakeHistoryRecord {
        epoch: 3,
        effective: 0,
        activating: 0,
        deactivating: 0,
    });
    malformed::<Stakes>(&s.encode().unwrap());
}

#[test]
fn keys_that_agree_in_one_half_are_not_duplicates() {
    let mut a = [0u8; 32];
    let mut b = [0u8; 32];
    a[20] = 1;
    b[20] = 2;
    let first = Key::from_array(&a);
    let second = Key::from_array(&b);
    assert_eq!(first.lo, second.lo);
    assert!(distinct_keys(&vec![first, second, key(1)]));
    assert!(!distinct_keys(&vec![first, second, first]));
    assert!(distinct_keys(&Vec::new()));
    assert!(distinct_keys(&vec![key(1), key(2), key(3)]));
    assert!(!distinct_keys(&vec![key(1), key(2), key(1)]));
    let mut s = stakes();
    s.stake_delegations = vec![
        DelegationEntry { pubkey: first, delegation: delegation(20, 1) },
        DelegationEntry { pubkey: second, delegation: delegation(20, 2) },
    ];
    round_trip(&s);
}

#[test]
fn keys_are_what_entries_are_found_by() {
    let s = stakes();
    assert_eq!(s.vote_accounts[0].key(), key(20));
    assert_eq!(s.stake_delegations[1].key(), key(31));
    assert_eq!(s.stake_history[0].key(), Key::from_number(3));
}

fn age(hash: u8, index: u64) -> HashAgeEntry {
    HashAgeEntry {
        hash: key(hash),
        hash_index: index,
        timestamp: 1_700_000_000 + index,
        fee_calculator: Some(FeeCalculator { lamports_per_signature: 5000 }),
    }
}

fn queue(max_age: u64, entries: usize) -> BlockhashQueue {
    let mut ages = Vec::new();
    for i in 0..entries {
        ages.push(age(i as u8 + 1, i as u64));
    }
    BlockhashQueue { last_hash_index: entries as u64, last_hash: Some(key(1)), max_age, ages }
}

#[test]
fn queue_round_trips() {
    round_trip(&queue(300, 3));
    round_trip(&BlockhashQueue { last_hash_index: 0, last_hash: None, max_age: 300, ages: vec![] });
    let mut q = queue(300, 2);
    q.ages[1].fee_calculator = None;
    round_trip(&q);
}

#[test]
fn queue_with_more_entries_than_capacity_violates_invariant() {
    // max_age + 1 entries are the most that a queue holds
    round_trip(&queue(1, 2));
    round_trip(&queue(0, 1));
    assert_eq!(
        decode::<BlockhashQueue>(&queue(1, 3).encode().unwrap()).err(),
        Some(SnapshotError::InvariantViolation)
    );
    assert_eq!(
        decode::<BlockhashQueue>(&queue(0, 2).encode().unwrap()).err(),
        Some(SnapshotError::InvariantViolation)
    );
    round_trip(&queue(u64::MAX, 3));
}

#[test]
fn queue_with_duplicate_hash_is_malformed() {
    let mut q = queue(300, 3);
    q.ages[2].hash = q.ages[0].hash;
    malformed::<BlockhashQueue>(&q.encode().unwrap());
    // the structure is judged before the capacity
    let mut q = queue(1, 3);
    q.ages[2].hash = q.ages[0].hash;
    malformed::<BlockhashQueue>(&q.encode().unwrap());
}

#[test]
fn queue_with_short_last_hash_is_malformed() {
    let mut out: Vec<u8> = Vec::new();
    put_varint_field(&mut out, 1, 0);
    put_bytes_field(&mut out, 2, &[0u8; 31]);
    put_varint_field(&mut out, 3, 300);
    malformed::<BlockhashQueue>(&out);
}

fn epoch_stake(epoch: u64) -> EpochStake {
    EpochStake {
        epoch,
        total_stake: 3000,
        stakes: stakes(),
        node_id_to_vote_accounts: vec![
            NodeVoteAccountsEntry {
                node_id: key(40),
                total_stake: 1000,
                vote_accounts: vec![key(20)],
            },
            NodeVoteAccountsEntry {
                node_id: key(41),
                total_stake: 2000,
                vote_accounts: vec![key(21), key(22)],
            },
        ],
        epoch_authorized_voters: vec![
            EpochAuthorizedVoter { vote_account: key(20), authorized_voter: key(50) },
            EpochAuthorizedVoter { vote_account: key(21), authorized_voter: key(51) },
        ],
    }
}

#[test]
fn epoch_stakes_round_trip() {
    round_trip(&epoch_stake(4));
    let mut e = epoch_stake(5);
    e.node_id_to_vote_accounts[0].vote_accounts.clear();
    round_trip(&e);
}

#[test]
fn duplicate_node_or_voter_is_malformed() {
    let mut e = epoch_stake(4);
    e.node_id_to_vote_accounts[1].node_id = key(40);
    malformed::<EpochStake>(&e.encode().unwrap());
    let mut e = epoch_stake(4);
    e.epoch_authorized_voters[1].vote_account = key(20);
    malformed::<EpochStake>(&e.encode().unwrap());
}

#[test]
fn vote_account_key_of_wrong_length_is_malformed() {
    let mut out: Vec<u8> = Vec::new();
    put_bytes_field(&mut out, 1, &[40u8; 32]);
    put_varint_field(&mut out, 2, 1000);
    put_bytes_field(&mut out, 3, &[20u8; 32]);
    assert!(decode::<NodeVoteAccountsEntry>(&out).is_ok());
    put_bytes_field(&mut out, 3, &[21u8; 33]);
    malformed::<NodeVoteAccountsEntry>(&out);
}

#[test]
fn nested_error_is_passed_on() {
    let mut e = epoch_stake(4);
    e.stakes.stake_delegations.push(DelegationEntry {
        pubkey: key(30),
        delegation: delegation(21, 1),
    });
    malformed::<EpochStake>(&e.encode().unwrap());
}

fn reward(lamports: i64) -> StakeReward {
    StakeReward {
        stake_pubkey: key(30),
        stake_account: account(1500),
        stake_reward_info: RewardInfo {
            reward_kind: RewardKind::Staking,
            lamports,
            post_balance: 1500,
            commission: Some(10),
        },
    }
}

#[test]
fn rewards_round_trip() {
    round_trip(&reward(500));
    round_trip(&reward(0));
    round_trip(&reward(i64::MAX));
    for kind in [RewardKind::Fee, RewardKind::Rent, RewardKind::Staking, RewardKind::Voting] {
        let mut r = reward(1);
        r.stake_reward_info.reward_kind = kind;
        r.stake_reward_info.commission = None;
        round_trip(&r);
    }
    round_trip(&EpochRewards { start_block_height: 77, stake_rewards: vec![reward(1), reward(2)] });
    round_trip(&EpochRewards { start_block_height: 77, stake_rewards: Vec::new() });
}

#[test]
fn reward_kinds_have_fixed_codes() {
    assert_eq!(RewardKind::Fee.to_code(), 0);
    assert_eq!(RewardKind::Rent.to_code(), 1);
    assert_eq!(RewardKind::Staking.to_code(), 2);
    assert_eq!(RewardKind::Voting.to_code(), 3);
    for c in 0..4 {
        assert_eq!(RewardKind::from_code(c).unwrap().to_code(), c);
    }
    assert_eq!(RewardKind::from_code(4), None);
    assert_eq!(RewardKind::from_code(u64::MAX), None);
}

#[test]
fn reward_info_encodes_to_expected_bytes() {
    let info = RewardInfo {
        reward_kind: RewardKind::Staking,
        lamports: 500,
        post_balance: 1500,
        commission: Some(10),
    };
    assert_eq!(
        info.encode().unwrap(),
        vec![0x08, 0x02, 0x10, 0xf4, 0x03, 0x18, 0xdc, 0x0b, 0x20, 0x0a]
    );
    let info = RewardInfo { commission: None, ..info };
    assert_eq!(info.encode().unwrap(), vec![0x08, 0x02, 0x10, 0xf4, 0x03, 0x18, 0xdc, 0x0b]);
}

#[test]
fn negative_reward_overflows() {
    assert_eq!(reward(-1).encode().err(), Some(SnapshotError::RangeOverflow));
    assert_eq!(reward(i64::MIN).encode().err(), Some(SnapshotError::RangeOverflow));
    let rewards = EpochRewards { start_block_height: 1, stake_rewards: vec![reward(1), reward(-1)] };
    assert_eq!(rewards.encode().err(), Some(SnapshotError::RangeOverflow));
}

fn reward_info_bytes(kind: u64, lamports: u64, commission: u64) -> Vec<u8> {
    let mut out: Vec<u8> = Vec::new();
    put_varint_field(&mut out, 1, kind);
    put_varint_field(&mut out, 2, lamports);
    put_varint_field(&mut out, 3, 1500);
    put_varint_field(&mut out, 4, commission);
    out
}

#[test]
fn reward_outside_its_domain_is_malformed() {
    assert!(decode::<RewardInfo>(&reward_info_bytes(3, i64::MAX as u64, 255)).is_ok());
    malformed::<RewardInfo>(&reward_info_bytes(4, 500, 10));
    malformed::<RewardInfo>(&reward_info_bytes(2, (i64::MAX as u64) + 1, 10));
    malformed::<RewardInfo>(&reward_info_bytes(2, 500, 256));
}

#[test]
fn delegated_stake_is_summed_per_voter() {
    let s = stakes();
    assert_eq!(s.delegated_to(&key(20)), 1000);
    assert_eq!(s.delegated_to(&key(21)), 2000);
    assert_eq!(s.delegated_to(&key(22)), 0);
    assert_eq!(
        s.voter_stakes(),
        vec![
            VoterStake { voter: key(20), stake: 1000 },
            VoterStake { voter: key(21), stake: 2000 },
        ]
    );
}

#[test]
fn delegated_stake_does_not_wrap() {
    let mut s = stakes();
    s.stake_delegations = vec![
        DelegationEntry { pubkey: key(30), delegation: delegation(20, u64::MAX) },
        DelegationEntry { pubkey: key(31), delegation: delegation(20, u64::MAX) },
        DelegationEntry { pubkey: key(32), delegation: delegation(20, 2) },
    ];
    assert_eq!(s.delegated_to(&key(20)), 2 * (u64::MAX as u128) + 2);
    assert_eq!(s.voter_stakes()[1], VoterStake { voter: key(21), stake: 0 });
}

#[test]
fn derived_stakes_survive_the_round_trip() {
    let s = stakes();
    let back = decode::<Stakes>(&s.encode().unwrap()).unwrap();
    assert_eq!(back.voter_stakes(), s.voter_stakes());
}

#[test]
fn delegation_to_an_unknown_voter_is_kept() {
    let mut s = stakes();
    s.stake_delegations.push(DelegationEntry { pubkey: key(33), delegation: delegation(99, 5) });
    round_trip(&s);
    assert_eq!(s.delegated_to(&key(99)), 5);
}

#[test]
fn known_field_of_another_kind_is_malformed() {
    // the balance once more, as a run of bytes
    let mut bytes = account(500).encode().unwrap();
    put_bytes_field(&mut bytes, 1, &[1, 2]);
    malformed::<Account>(&bytes);
    // the rent epoch as eight bytes
    let mut bytes = account(500).encode().unwrap();
    put_fixed64_field(&mut bytes, 5, 9);
    malformed::<Account>(&bytes);
    // the same fields under numbers that the schema does not use
    let mut bytes = account(500).encode().unwrap();
    put_bytes_field(&mut bytes, 6, &[1, 2]);
    put_fixed64_field(&mut bytes, 7, 9);
    assert_eq!(decode::<Account>(&bytes).unwrap(), account(500));
}

#[test]
fn optional_field_of_another_kind_is_not_taken_as_absent() {
    let mut h = header();
    h.hashes_per_tick = None;
    let mut bytes = h.encode().unwrap();
    assert_eq!(decode::<ScalarHeader>(&bytes).unwrap(), h);
    put_bytes_field(&mut bytes, 13, &[9]);
    malformed::<ScalarHeader>(&bytes);
}

#[test]
fn repeated_field_of_another_kind_is_malformed() {
    let mut bytes = stakes().encode().unwrap();
    put_varint_field(&mut bytes, 3, 1);
    malformed::<Stakes>(&bytes);
}

#[test]
fn repeated_vote_account_of_a_node_is_malformed() {
    let mut e = epoch_stake(4);
    e.node_id_to_vote_accounts[1].vote_accounts = vec![key(21), key(22), key(21)];
    malformed::<NodeVoteAccountsEntry>(&e.node_id_to_vote_accounts[1].encode().unwrap());
    malformed::<EpochStake>(&e.encode().unwrap());
}

#[test]
fn unknown_field_in_the_middle_is_ignored() {
    let mut out: Vec<u8> = Vec::new();
    put_varint_field(&mut out, 1, 500);
    put_varint_field(&mut out, 40, 7);
    put_bytes_field(&mut out, 2, &[1, 2, 3]);
    put_bytes_field(&mut out, 41, b"later");
    put_bytes_field(&mut out, 3, &[7u8; 32]);
    put_fixed64_field(&mut out, 42, 9);
    put_varint_field(&mut out, 4, 1);
    put_varint_field(&mut out, 5, 9);
    assert_eq!(decode::<Account>(&out).unwrap(), account(500));
}
