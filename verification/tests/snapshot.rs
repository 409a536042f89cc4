use ledger_snapshot::account::Account;
use ledger_snapshot::bank::Bank;
use ledger_snapshot::blockhash_queue::{BlockhashQueue, HashAgeEntry};
use ledger_snapshot::codec::Codec;
use ledger_snapshot::epoch_rewards::{
    EpochRewardStatus, EpochRewards, RewardInfo, RewardKind, StakeReward,
};
use ledger_snapshot::epoch_stakes::{EpochAuthorizedVoter, EpochStake, NodeVoteAccountsEntry};
use ledger_snapshot::error::SnapshotError;
use ledger_snapshot::fees::{FeeCalculator, FeeRateGovernor};
use ledger_snapshot::hard_forks::HardFork;
use ledger_snapshot::header::ScalarHeader;
use ledger_snapshot::inflation::Inflation;
use ledger_snapshot::key::Key;
use ledger_snapshot::ledger::{rebuild_ledger, Ledger};
use ledger_snapshot::persistence::IncrementalSnapshotPersistence;
use ledger_snapshot::reader::{read_record, Value};
use ledger_snapshot::rent::{EpochSchedule, Rent, RentCollector};
use ledger_snapshot::snapshot::{
    normalize_snapshot, rebuild_bank, snapshot_bank, SCHEMA_VERSION,
};
use ledger_snapshot::stakes::{
    Delegation, DelegationEntry, StakeHistoryRecord, Stakes, VoteAccountEntry, VoterStake,
};
use ledger_snapshot::writer::{put_bytes_field, put_fixed64_field, put_varint_field};

fn key(n: u8) -> Key {
    Key::from_array(&[n; 32])
}

fn account(lamports: u64) -> Account {
    Account { lamports, data: vec![1, 2, 3], owner: key(7), executable: false, rent_epoch: 9 }
}

fn schedule() -> EpochSchedule {
    EpochSchedule {
        slots_per_epoch: 32,
        leader_schedule_slot_offset: 32,
        warmup: true,
        first_normal_epoch: 14,
        first_normal_slot: 524_256,
    }
}

fn stakes() -> Stakes {
    Stakes {
        epoch: 4,
        vote_accounts: vec![VoteAccountEntry {
            pubkey: key(20),
            stake: 1000,
            vote_account: account(1),
        }],
        stake_delegations: vec![DelegationEntry {
            pubkey: key(30),
            delegation: Delegation {
                voter_pubkey: key(20),
                stake: 1000,
                activation_epoch: 3,
                deactivation_epoch: u64::MAX,
                warmup_cooldown_rate: 0x3fd0_0000_0000_0000,
            },
        }],
        stake_history: vec![StakeHistoryRecord {
            epoch: 3,
            effective: 10,
            activating: 20,
            deactivating: 30,
        }],
    }
}

fn bank() -> Bank {
    Bank {
        header: ScalarHeader {
            epoch: 1,
            block_height: 21,
            slot: 21,
            parent_slot: 20,
            hash: key(1),
            parent_hash: key(2),
            epoch_accounts_hash: None,
            signature_count: 4,
            capitalization: 5,
            transaction_count: 6,
            tick_height: 7,
            max_tick_height: 8,
            hashes_per_tick: None,
            ticks_per_slot: 64,
            ns_per_slot: 400_000_000,
            slots_per_year: 0x4192_cd62_0000_0000,
            genesis_creation_time: 1_600_000_000,
            collector_id: key(4),
            collector_fees: 11,
            collected_rent: 12,
            accounts_data_size: 13,
            is_delta: true,
        },
        ancestors: vec![21, 20, 19],
        hard_forks: vec![HardFork { slot: 10, count: 1 }, HardFork { slot: 20, count: 1 }],
        inflation: Inflation {
            initial: 0x3fc0_0000_0000_0000,
            terminal: 0x3f90_0000_0000_0000,
            taper: 0x3fc3_3333_3333_3333,
            foundation: 0,
            foundation_term: 0,
        },
        fee_rate_governor: FeeRateGovernor {
            lamports_per_signature: 5000,
            target_signatures_per_slot: 20_000,
            min_lamports_per_signature: 2500,
            max_lamports_per_signature: 50_000,
            burn_percent: 50,
        },
        incremental_snapshot_persistence: None,
        rent_collector: RentCollector {
            epoch: 1,
            epoch_schedule: schedule(),
            slots_per_year: 0x4192_cd62_0000_0000,
            rent: Rent {
                lamports_per_byte_year: 3480,
                exemption_threshold: 0x4000_0000_0000_0000,
                burn_percent: 50,
            },
        },
        epoch_schedule: schedule(),
        blockhash_queue: BlockhashQueue {
            last_hash_index: 1,
            last_hash: Some(key(61)),
            max_age: 300,
            ages: vec![
                HashAgeEntry {
                    hash: key(60),
                    hash_index: 0,
                    timestamp: 1_600_000_000,
                    fee_calculator: Some(FeeCalculator { lamports_per_signature: 5000 }),
                },
                HashAgeEntry {
                    hash: key(61),
                    hash_index: 1,
                    timestamp: 1_600_000_001,
                    fee_calculator: None,
                },
            ],
        },
        stakes: stakes(),
        epoch_stakes: vec![
            EpochStake {
                epoch: 0,
                total_stake: 1000,
                stakes: stakes(),
                node_id_to_vote_accounts: vec![NodeVoteAccountsEntry {
                    node_id: key(40),
                    total_stake: 1000,
                    vote_accounts: vec![key(20)],
                }],
                epoch_authorized_voters: vec![EpochAuthorizedVoter {
                    vote_account: key(20),
                    authorized_voter: key(50),
                }],
            },
            EpochStake {
                epoch: 1,
                total_stake: 0,
                stakes: Stakes {
                    epoch: 1,
                    vote_accounts: Vec::new(),
                    stake_delegations: Vec::new(),
                    stake_history: Vec::new(),
                },
                node_id_to_vote_accounts: Vec::new(),
                epoch_authorized_voters: Vec::new(),
            },
        ],
        epoch_reward_status: EpochRewardStatus::Inactive,
    }
}

fn reward(lamports: i64) -> StakeReward {
    StakeReward {
        stake_pubkey: key(30),
        stake_account: account(1500),
        stake_reward_info: RewardInfo {
            reward_kind: RewardKind::Staking,
            lamports,
            post_balance: 1500,
            commission: Some(10),
        },
    }
}

fn snapshot_of(version: Option<u64>, bank_bytes: Option<&[u8]>) -> Vec<u8> {
    let mut out: Vec<u8> = Vec::new();
    if let Some(v) = version {
        put_varint_field(&mut out, 1, v);
    }
    if let Some(b) = bank_bytes {
        put_bytes_field(&mut out, 2, b);
    }
    out
}

#[test]
fn end_to_end_scenario() {
    let mut state = bank();
    state.epoch_reward_status = EpochRewardStatus::Active(EpochRewards {
        start_block_height: 22,
        stake_rewards: vec![reward(500)],
    });
    let bytes = snapshot_bank(&state).unwrap();
    let back = rebuild_bank(&bytes).unwrap();
    assert_eq!(back.hard_forks.len(), 2);
    assert_eq!(back.hard_forks[0], HardFork { slot: 10, count: 1 });
    assert_eq!(back.hard_forks[1], HardFork { slot: 20, count: 1 });
    assert_eq!(back.stakes.stake_delegations.len(), 1);
    assert_eq!(back.stakes.stake_delegations[0], state.stakes.stake_delegations[0]);
    assert_eq!(back.stakes.stake_delegations[0].pubkey, key(30));
    assert_eq!(back.stakes.stake_delegations[0].delegation.voter_pubkey, key(20));
    assert_eq!(back.stakes.stake_delegations[0].delegation.stake, 1000);
    match &back.epoch_reward_status {
        EpochRewardStatus::Active(rewards) => {
            assert_eq!(rewards.start_block_height, 22);
            assert_eq!(rewards.stake_rewards.len(), 1);
            assert_eq!(rewards.stake_rewards[0].stake_reward_info.lamports, 500);
            assert_eq!(rewards.stake_rewards[0].stake_pubkey, key(30));
        },
        EpochRewardStatus::Inactive => panic!("the distribution must be active"),
    }
    assert_eq!(back, state);
}

#[test]
fn snapshot_round_trips() {
    let state = bank();
    let bytes = snapshot_bank(&state).unwrap();
    assert_eq!(rebuild_bank(&bytes).unwrap(), state);
}

#[test]
fn snapshot_starts_with_its_version() {
    let bytes = snapshot_bank(&bank()).unwrap();
    assert_eq!(bytes[0], 0x08);
    assert_eq!(bytes[1] as u64, SCHEMA_VERSION);
    assert_eq!(bytes[2], 0x12);
    let rec = read_record(&bytes).unwrap();
    assert_eq!(rec.entries.len(), 2);
    assert_eq!(rec.varint(1), Some(1));
    assert_eq!(rec.bytes(2).unwrap(), &bank().encode().unwrap()[..]);
}

#[test]
fn snapshot_key_agrees_with_prost() {
    let bytes = snapshot_bank(&bank()).unwrap();
    let mut rest: &[u8] = &bytes;
    let (tag, wire_type) = prost::encoding::decode_key(&mut rest).unwrap();
    assert_eq!(tag, 1);
    assert_eq!(wire_type, prost::encoding::WireType::Varint);
    assert_eq!(prost::encoding::decode_varint(&mut rest).unwrap(), SCHEMA_VERSION);
    let (tag, wire_type) = prost::encoding::decode_key(&mut rest).unwrap();
    assert_eq!(tag, 2);
    assert_eq!(wire_type, prost::encoding::WireType::LengthDelimited);
    let len = prost::encoding::decode_varint(&mut rest).unwrap();
    assert_eq!(len as usize, rest.len());
}

#[test]
fn reencoding_is_stable() {
    let mut state = bank();
    state.incremental_snapshot_persistence = Some(IncrementalSnapshotPersistence {
        full_slot: 10,
        full_hash: key(70),
        full_capitalization: 5,
        incremental_slot: 21,
        incremental_hash: key(71),
        incremental_capitalization: 6,
    });
    let first = snapshot_bank(&state).unwrap();
    let decoded = rebuild_bank(&first).unwrap();
    let second = snapshot_bank(&decoded).unwrap();
    assert_eq!(rebuild_bank(&second).unwrap(), decoded);
    assert_eq!(second, first);
}

#[test]
fn reencoding_drops_what_the_schema_does_not_know() {
    let mut inner = bank().encode().unwrap();
    put_varint_field(&mut inner, 500, 1);
    let mut bytes = snapshot_of(Some(1), Some(&inner));
    put_bytes_field(&mut bytes, 77, b"later");
    let decoded = rebuild_bank(&bytes).unwrap();
    assert_eq!(decoded, bank());
    let again = snapshot_bank(&decoded).unwrap();
    assert!(again.len() < bytes.len());
    assert_eq!(rebuild_bank(&again).unwrap(), decoded);
}

#[test]
fn inactive_distribution_is_written_as_absent() {
    let state = bank();
    let inner = state.encode().unwrap();
    let rec = read_record(&inner).unwrap();
    assert_eq!(rec.bytes(12), None);
    let back = rebuild_bank(&snapshot_bank(&state).unwrap()).unwrap();
    assert_eq!(back.epoch_reward_status, EpochRewardStatus::Inactive);
}

#[test]
fn active_distribution_without_rewards_stays_active() {
    let mut state = bank();
    state.epoch_reward_status =
        EpochRewardStatus::Active(EpochRewards { start_block_height: 22, stake_rewards: vec![] });
    let inner = state.encode().unwrap();
    let rec = read_record(&inner).unwrap();
    assert!(rec.bytes(12).is_some());
    let back = rebuild_bank(&snapshot_bank(&state).unwrap()).unwrap();
    assert_eq!(
        back.epoch_reward_status,
        EpochRewardStatus::Active(EpochRewards { start_block_height: 22, stake_rewards: vec![] })
    );
}

#[test]
fn full_snapshot_has_no_persistence_record() {
    let state = bank();
    let rec_bytes = state.encode().unwrap();
    let rec = read_record(&rec_bytes).unwrap();
    assert_eq!(rec.bytes(6), None);
    let back = rebuild_bank(&snapshot_bank(&state).unwrap()).unwrap();
    assert_eq!(back.incremental_snapshot_persistence, None);
}

#[test]
fn wide_duration_fails_with_range_overflow() {
    let mut state = bank();
    state.header.ns_per_slot = 1u128 << 64;
    assert_eq!(snapshot_bank(&state).err(), Some(SnapshotError::RangeOverflow));
    state.header.ns_per_slot = (1u128 << 64) - 1;
    let back = rebuild_bank(&snapshot_bank(&state).unwrap()).unwrap();
    assert_eq!(back.header.ns_per_slot, u64::MAX as u128);
}

#[test]
fn negative_reward_fails_with_range_overflow() {
    let mut state = bank();
    state.epoch_reward_status = EpochRewardStatus::Active(EpochRewards {
        start_block_height: 22,
        stake_rewards: vec![reward(500), reward(-500)],
    });
    assert_eq!(snapshot_bank(&state).err(), Some(SnapshotError::RangeOverflow));
}

#[test]
fn newer_version_is_unsupported() {
    let inner = bank().encode().unwrap();
    assert_eq!(
        rebuild_bank(&snapshot_of(Some(SCHEMA_VERSION + 1), Some(&inner))).err(),
        Some(SnapshotError::UnsupportedVersion)
    );
    assert_eq!(
        rebuild_bank(&snapshot_of(Some(u64::MAX), None)).err(),
        Some(SnapshotError::UnsupportedVersion)
    );
    assert_eq!(rebuild_bank(&snapshot_of(Some(SCHEMA_VERSION), Some(&inner))).unwrap(), bank());
    assert_eq!(rebuild_bank(&snapshot_of(Some(0), Some(&inner))).unwrap(), bank());
}

#[test]
fn missing_top_level_fields_are_malformed() {
    let inner = bank().encode().unwrap();
    assert_eq!(
        rebuild_bank(&snapshot_of(None, Some(&inner))).err(),
        Some(SnapshotError::MalformedSnapshot)
    );
    assert_eq!(
        rebuild_bank(&snapshot_of(Some(1), None)).err(),
        Some(SnapshotError::MalformedSnapshot)
    );
    assert_eq!(rebuild_bank(&[]).err(), Some(SnapshotError::MalformedSnapshot));
}

#[test]
fn truncated_snapshot_is_malformed() {
    let bytes = snapshot_bank(&bank()).unwrap();
    for cut in [1, 2, 3, bytes.len() / 2, bytes.len() - 1] {
        assert_eq!(rebuild_bank(&bytes[..cut]).err(), Some(SnapshotError::MalformedSnapshot));
    }
}

#[test]
fn missing_required_record_is_malformed() {
    // a ledger state that holds a header and nothing else
    let mut inner: Vec<u8> = Vec::new();
    put_bytes_field(&mut inner, 1, &bank().header.encode().unwrap());
    assert_eq!(
        rebuild_bank(&snapshot_of(Some(1), Some(&inner))).err(),
        Some(SnapshotError::MalformedSnapshot)
    );
    assert_eq!(
        rebuild_bank(&snapshot_of(Some(1), Some(&[]))).err(),
        Some(SnapshotError::MalformedSnapshot)
    );
}

#[test]
fn duplicate_epoch_is_malformed() {
    let mut state = bank();
    state.epoch_stakes[1].epoch = 0;
    let bytes = snapshot_bank(&state).unwrap();
    assert_eq!(rebuild_bank(&bytes).err(), Some(SnapshotError::MalformedSnapshot));
}

#[test]
fn duplicate_delegation_is_malformed() {
    let mut state = bank();
    let again = state.stakes.stake_delegations[0];
    state.stakes.stake_delegations.push(again);
    let bytes = snapshot_bank(&state).unwrap();
    assert_eq!(rebuild_bank(&bytes).err(), Some(SnapshotError::MalformedSnapshot));
}

#[test]
fn overfull_queue_violates_invariant() {
    let mut state = bank();
    state.blockhash_queue.max_age = 0;
    let bytes = snapshot_bank(&state).unwrap();
    assert_eq!(rebuild_bank(&bytes).err(), Some(SnapshotError::InvariantViolation));
    state.blockhash_queue.max_age = 1;
    let bytes = snapshot_bank(&state).unwrap();
    assert_eq!(rebuild_bank(&bytes).unwrap(), state);
}

#[test]
fn burn_percent_out_of_range_is_malformed() {
    let mut state = bank();
    state.fee_rate_governor.burn_percent = 101;
    let bytes = snapshot_bank(&state).unwrap();
    assert_eq!(rebuild_bank(&bytes).err(), Some(SnapshotError::MalformedSnapshot));
}

#[test]
fn ancestors_and_hard_forks_keep_their_order() {
    let mut state = bank();
    state.ancestors = vec![5, 1, 9, 0];
    state.hard_forks = vec![
        HardFork { slot: 20, count: 2 },
        HardFork { slot: 10, count: 1 },
        HardFork { slot: 20, count: 3 },
    ];
    let back = rebuild_bank(&snapshot_bank(&state).unwrap()).unwrap();
    assert_eq!(back.ancestors, vec![5, 1, 9, 0]);
    assert_eq!(back.hard_forks, state.hard_forks);
}

#[test]
fn errors_have_messages() {
    assert_eq!(SnapshotError::RangeOverflow.message(), "value out of representable range");
    assert_eq!(SnapshotError::MalformedSnapshot.message(), "malformed snapshot");
    assert_eq!(
        SnapshotError::InvariantViolation.message(),
        "snapshot violates a ledger invariant"
    );
    assert_eq!(SnapshotError::UnsupportedVersion.message(), "unsupported snapshot version");
}

#[test]
fn normalizing_keeps_the_state_and_drops_the_rest() {
    let canonical = snapshot_bank(&bank()).unwrap();
    assert_eq!(normalize_snapshot(&canonical).unwrap(), canonical);
    let mut inner = bank().encode().unwrap();
    put_varint_field(&mut inner, 500, 1);
    let mut padded: Vec<u8> = Vec::new();
    put_bytes_field(&mut padded, 2, &inner);
    put_varint_field(&mut padded, 1, 0);
    put_varint_field(&mut padded, 1, 1);
    put_bytes_field(&mut padded, 9, b"later");
    assert_eq!(normalize_snapshot(&padded).unwrap(), canonical);
    assert_eq!(normalize_snapshot(&[]).err(), Some(SnapshotError::MalformedSnapshot));
    assert_eq!(
        normalize_snapshot(&snapshot_of(Some(2), Some(&inner))).err(),
        Some(SnapshotError::UnsupportedVersion)
    );
}

#[test]
fn reward_field_of_another_kind_is_not_taken_as_inactive() {
    let mut inner = bank().encode().unwrap();
    put_varint_field(&mut inner, 12, 22);
    assert_eq!(
        rebuild_bank(&snapshot_of(Some(1), Some(&inner))).err(),
        Some(SnapshotError::MalformedSnapshot)
    );
}

#[test]
fn packed_ancestors_are_malformed() {
    let mut state = bank();
    state.ancestors = Vec::new();
    let mut inner = state.encode().unwrap();
    put_bytes_field(&mut inner, 2, &[21, 20, 19]);
    assert_eq!(
        rebuild_bank(&snapshot_of(Some(1), Some(&inner))).err(),
        Some(SnapshotError::MalformedSnapshot)
    );
}

#[test]
fn top_level_field_of_another_kind_is_malformed() {
    let inner = bank().encode().unwrap();
    // the version as a run of bytes
    let mut bytes = snapshot_of(Some(1), Some(&inner));
    put_bytes_field(&mut bytes, 1, &[1]);
    assert_eq!(rebuild_bank(&bytes).err(), Some(SnapshotError::MalformedSnapshot));
    // the ledger state as a varint
    let mut bytes = snapshot_of(Some(1), Some(&inner));
    put_varint_field(&mut bytes, 2, 5);
    assert_eq!(rebuild_bank(&bytes).err(), Some(SnapshotError::MalformedSnapshot));
    let mut bytes = snapshot_of(Some(1), None);
    put_fixed64_field(&mut bytes, 2, 5);
    assert_eq!(rebuild_bank(&bytes).err(), Some(SnapshotError::MalformedSnapshot));
}

#[test]
fn newer_version_is_judged_before_its_content() {
    // a later schema may hold anything under the number of the ledger state
    let mut bytes = snapshot_of(Some(SCHEMA_VERSION + 1), None);
    put_varint_field(&mut bytes, 2, 5);
    assert_eq!(rebuild_bank(&bytes).err(), Some(SnapshotError::UnsupportedVersion));
    // the last version field decides
    let inner = bank().encode().unwrap();
    let mut bytes = snapshot_of(Some(SCHEMA_VERSION + 1), Some(&inner));
    put_varint_field(&mut bytes, 1, SCHEMA_VERSION);
    assert_eq!(rebuild_bank(&bytes).unwrap(), bank());
}

#[test]
fn entries_in_another_order_hold_the_same_members() {
    let mut state = bank();
    state.stakes.stake_delegations.push(DelegationEntry {
        pubkey: key(31),
        delegation: Delegation {
            voter_pubkey: key(20),
            stake: 7,
            activation_epoch: 3,
            deactivation_epoch: 9,
            warmup_cooldown_rate: 0,
        },
    });
    let mut other = state.clone();
    other.stakes.stake_delegations.reverse();
    other.epoch_stakes.reverse();
    other.blockhash_queue.ages.reverse();
    let first = rebuild_bank(&snapshot_bank(&state).unwrap()).unwrap();
    let second = rebuild_bank(&snapshot_bank(&other).unwrap()).unwrap();
    assert_ne!(first, second);
    assert_eq!(first.header, second.header);
    assert_eq!(first.hard_forks, second.hard_forks);
    for entry in &first.stakes.stake_delegations {
        assert!(second.stakes.stake_delegations.contains(entry));
    }
    for entry in &second.stakes.stake_delegations {
        assert!(first.stakes.stake_delegations.contains(entry));
    }
    for entry in &first.epoch_stakes {
        assert!(second.epoch_stakes.contains(entry));
    }
    for entry in &first.blockhash_queue.ages {
        assert!(second.blockhash_queue.ages.contains(entry));
    }
}

#[test]
fn derived_views_are_rebuilt_after_decoding() {
    let state = bank();
    let ledger = rebuild_ledger(&snapshot_bank(&state).unwrap()).unwrap();
    assert_eq!(ledger.bank, state);
    assert_eq!(ledger.voter_stakes, vec![VoterStake { voter: key(20), stake: 1000 }]);
    assert_eq!(
        ledger.epoch_voter_stakes,
        vec![vec![VoterStake { voter: key(20), stake: 1000 }], Vec::new()]
    );
    assert_eq!(ledger, Ledger::new(state));
    assert_eq!(rebuild_ledger(&[]).err(), Some(SnapshotError::MalformedSnapshot));
}

/// The record without its fields under `number`, and with `payload` under
/// that number at its end where there is one.
fn replace_field(record: &[u8], number: u32, payload: Option<&[u8]>) -> Vec<u8> {
    let rec = read_record(record).unwrap();
    let mut out: Vec<u8> = Vec::new();
    for e in &rec.entries {
        if e.number == number {
            continue;
        }
        match e.value {
            Value::Varint(v) => put_varint_field(&mut out, e.number, v),
            Value::Fixed64(v) => put_fixed64_field(&mut out, e.number, v),
            Value::Bytes(b) => put_bytes_field(&mut out, e.number, b),
            Value::Fixed32(_) => panic!("the sample holds no four-byte field"),
        }
    }
    if let Some(p) = payload {
        put_bytes_field(&mut out, number, p);
    }
    out
}

fn overfull() -> Bank {
    let mut state = bank();
    state.blockhash_queue.max_age = 0;
    state
}

fn decode_bank_record(inner: &[u8]) -> Result<Bank, SnapshotError> {
    rebuild_bank(&snapshot_of(Some(1), Some(inner)))
}

fn stakes_with_long_key() -> Vec<u8> {
    let delegation = stakes().stake_delegations[0].delegation;
    let mut entry: Vec<u8> = Vec::new();
    put_bytes_field(&mut entry, 1, &[30u8; 33]);
    put_bytes_field(&mut entry, 2, &delegation.encode().unwrap());
    let mut out: Vec<u8> = Vec::new();
    put_varint_field(&mut out, 1, 4);
    put_bytes_field(&mut out, 3, &entry);
    out
}

fn rewards_with_kind(kind: u64) -> Vec<u8> {
    let mut info: Vec<u8> = Vec::new();
    put_varint_field(&mut info, 1, kind);
    put_varint_field(&mut info, 2, 500);
    put_varint_field(&mut info, 3, 1500);
    let mut one: Vec<u8> = Vec::new();
    put_bytes_field(&mut one, 1, &[30u8; 32]);
    put_bytes_field(&mut one, 2, &account(1500).encode().unwrap());
    put_bytes_field(&mut one, 3, &info);
    let mut out: Vec<u8> = Vec::new();
    put_varint_field(&mut out, 1, 22);
    put_bytes_field(&mut out, 2, &one);
    out
}

#[test]
fn replacing_a_field_by_itself_changes_nothing() {
    let inner = bank().encode().unwrap();
    let same = replace_field(&inner, 10, Some(&stakes().encode().unwrap()));
    assert_eq!(decode_bank_record(&same).unwrap(), bank());
    let with_rewards = replace_field(&inner, 12, Some(&rewards_with_kind(2)));
    assert!(matches!(
        decode_bank_record(&with_rewards).unwrap().epoch_reward_status,
        EpochRewardStatus::Active(_)
    ));
}

#[test]
fn overfull_queue_alone_violates_invariant() {
    let inner = overfull().encode().unwrap();
    assert_eq!(decode_bank_record(&inner).err(), Some(SnapshotError::InvariantViolation));
}

#[test]
fn long_key_beside_overfull_queue_is_malformed() {
    let long = stakes_with_long_key();
    let inner = replace_field(&bank().encode().unwrap(), 10, Some(&long));
    assert_eq!(decode_bank_record(&inner).err(), Some(SnapshotError::MalformedSnapshot));
    let inner = replace_field(&overfull().encode().unwrap(), 10, Some(&long));
    assert_eq!(decode_bank_record(&inner).err(), Some(SnapshotError::MalformedSnapshot));
}

#[test]
fn missing_stake_bundle_beside_overfull_queue_is_malformed() {
    let inner = replace_field(&bank().encode().unwrap(), 10, None);
    assert_eq!(decode_bank_record(&inner).err(), Some(SnapshotError::MalformedSnapshot));
    let inner = replace_field(&overfull().encode().unwrap(), 10, None);
    assert_eq!(decode_bank_record(&inner).err(), Some(SnapshotError::MalformedSnapshot));
}

#[test]
fn reward_kind_of_4_beside_overfull_queue_is_malformed() {
    let inner = replace_field(&bank().encode().unwrap(), 12, Some(&rewards_with_kind(4)));
    assert_eq!(decode_bank_record(&inner).err(), Some(SnapshotError::MalformedSnapshot));
    let inner = replace_field(&overfull().encode().unwrap(), 12, Some(&rewards_with_kind(4)));
    assert_eq!(decode_bank_record(&inner).err(), Some(SnapshotError::MalformedSnapshot));
}

#[test]
fn repeated_key_beside_overfull_queue_is_malformed() {
    // an epoch twice
    let mut state = overfull();
    state.epoch_stakes[1].epoch = 0;
    assert_eq!(
        rebuild_bank(&snapshot_bank(&state).unwrap()).err(),
        Some(SnapshotError::MalformedSnapshot)
    );
    // a delegation twice
    let mut state = overfull();
    let again = state.stakes.stake_delegations[0];
    state.stakes.stake_delegations.push(again);
    assert_eq!(
        rebuild_bank(&snapshot_bank(&state).unwrap()).err(),
        Some(SnapshotError::MalformedSnapshot)
    );
    // a delegation twice in the stakes of an epoch
    let mut state = overfull();
    let again = state.epoch_stakes[0].stakes.stake_delegations[0];
    state.epoch_stakes[0].stakes.stake_delegations.push(again);
    assert_eq!(
        rebuild_bank(&snapshot_bank(&state).unwrap()).err(),
        Some(SnapshotError::MalformedSnapshot)
    );
    // an ancestor twice
    let mut state = overfull();
    state.ancestors = vec![21, 20, 21];
    assert_eq!(
        rebuild_bank(&snapshot_bank(&state).unwrap()).err(),
        Some(SnapshotError::MalformedSnapshot)
    );
}

#[test]
fn missing_or_malformed_part_beside_overfull_queue_is_malformed() {
    let inner = overfull().encode().unwrap();
    // every required record but the queue, missing in turn
    for number in [1, 4, 5, 7, 8, 10] {
        let cut = replace_field(&inner, number, None);
        assert_eq!(decode_bank_record(&cut).err(), Some(SnapshotError::MalformedSnapshot));
    }
    // a hard fork and the stakes of an epoch that do not decode
    for number in [3, 11] {
        let bad = replace_field(&inner, number, Some(&[0x08]));
        assert_eq!(decode_bank_record(&bad).err(), Some(SnapshotError::MalformedSnapshot));
    }
    // a fee rate governor that burns more than all
    let mut state = overfull();
    state.fee_rate_governor.burn_percent = 101;
    assert_eq!(
        rebuild_bank(&snapshot_bank(&state).unwrap()).err(),
        Some(SnapshotError::MalformedSnapshot)
    );
    // a queue that is itself malformed and over its bound
    let mut state = overfull();
    state.blockhash_queue.ages[1].hash = state.blockhash_queue.ages[0].hash;
    assert_eq!(
        rebuild_bank(&snapshot_bank(&state).unwrap()).err(),
        Some(SnapshotError::MalformedSnapshot)
    );
    // without the queue
    let cut = replace_field(&inner, 9, None);
    assert_eq!(decode_bank_record(&cut).err(), Some(SnapshotError::MalformedSnapshot));
}

#[test]
fn repeated_ancestor_is_malformed() {
    let mut state = bank();
    state.ancestors = vec![21, 20, 21];
    assert_eq!(
        rebuild_bank(&snapshot_bank(&state).unwrap()).err(),
        Some(SnapshotError::MalformedSnapshot)
    );
    state.ancestors = Vec::new();
    assert_eq!(rebuild_bank(&snapshot_bank(&state).unwrap()).unwrap(), state);
}

#[test]
fn unknown_field_anywhere_is_ignored() {
    let inner = bank().encode().unwrap();
    let rec = read_record(&inner).unwrap();
    for position in 0..=rec.entries.len() {
        let mut out: Vec<u8> = Vec::new();
        for (i, e) in rec.entries.iter().enumerate() {
            if i == position {
                put_varint_field(&mut out, 500, 1);
            }
            match e.value {
                Value::Varint(v) => put_varint_field(&mut out, e.number, v),
                Value::Fixed64(v) => put_fixed64_field(&mut out, e.number, v),
                Value::Bytes(b) => put_bytes_field(&mut out, e.number, b),
                Value::Fixed32(_) => panic!("the sample holds no four-byte field"),
            }
        }
        if position == rec.entries.len() {
            put_varint_field(&mut out, 500, 1);
        }
        let mut top: Vec<u8> = Vec::new();
        put_bytes_field(&mut top, 9, b"later");
        put_varint_field(&mut top, 1, 1);
        put_fixed64_field(&mut top, 7, 3);
        put_bytes_field(&mut top, 2, &out);
        assert_eq!(rebuild_bank(&top).unwrap(), bank());
    }
}

#[test]
fn decoding_never_gives_a_range_overflow() {
    let bytes = snapshot_bank(&bank()).unwrap();
    for cut in 0..bytes.len() {
        if let Err(e) = rebuild_bank(&bytes[..cut]) {
            assert_ne!(e, SnapshotError::RangeOverflow);
        }
    }
}
