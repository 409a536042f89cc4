//! The reward distribution that is in progress for the current epoch.

use crate::account::{Account, AccountView};
use crate::codec::{
    all_encodable, all_fit, all_valid, get_all, get_nested, lemma_nested_errors,
    lemma_parse_all_errors, lemma_parse_all_ok, lemma_parse_all_round_trip, lemma_parsed_valid,
    lemma_round_trip, models, nested, nested_fits, parse_all, put_all, put_nested, wire, wires,
    Codec,
};
use crate::error::SnapshotError;
use crate::key::{get_key, last_key, lemma_key_round_trip, put_key_field, wrong_length, Key};
use crate::reader::Record;
use crate::repeat::{lemma_matching_after_bytes, lemma_repeated_bytes_ok};
use crate::scalar::{get_bounded, get_bounded_opt, last_bounded, last_bounded_opt, required};
use crate::wire::{
    all_bytes, bytes_field, fields_bytes, fields_ok, last_bytes, last_varint,
    lemma_fields_bytes_concat, lemma_fields_bytes_push, lemma_fields_bytes_push_opt,
    lemma_fields_ok_concat, lemma_matching_empty, lemma_matching_push, lemma_matching_push_opt,
    opt_varint_field, push_opt, repeated_bytes, varint_field, Field, Kind,
};
use crate::writer::{put_opt_varint_field, put_varint_field};
use vstd::prelude::*;

verus! {

/// Largest lamport amount of a reward: the largest signed 64-bit value.
pub const MAX_REWARD_LAMPORTS: u64 = 0x7fff_ffff_ffff_ffff;

/// Largest code of a reward kind.
pub const MAX_REWARD_KIND: u64 = 3;

/// Largest commission.
pub const MAX_COMMISSION: u64 = 255;

/// What a reward is paid for.
#[derive(Clone, Copy, Debug, PartialEq, Eq, Structural)]
pub enum RewardKind {
    Fee,
    Rent,
    Staking,
    Voting,
}

impl RewardKind {
    /// The number that stands for the kind on the wire.
    pub open spec fn code(self) -> u64 {
        match self {
            RewardKind::Fee => 0,
            RewardKind::Rent => 1,
            RewardKind::Staking => 2,
            RewardKind::Voting => 3,
        }
    }

    /// The kind that a number stands for; numbers above 3 stand for none.
    pub open spec fn of_code(c: u64) -> Option<RewardKind> {
        if c == 0 {
            Some(RewardKind::Fee)
        } else if c == 1 {
            Some(RewardKind::Rent)
        } else if c == 2 {
            Some(RewardKind::Staking)
        } else if c == 3 {
            Some(RewardKind::Voting)
        } else {
            None
        }
    }

    /// The number that stands for the kind on the wire.
    pub fn to_code(&self) -> (c: u64)
        ensures
            c == self.code(),
            c <= MAX_REWARD_KIND,
            RewardKind::of_code(c) == Some(*self),
    {
        match self {
            RewardKind::Fee => 0,
            RewardKind::Rent => 1,
            RewardKind::Staking => 2,
            RewardKind::Voting => 3,
        }
    }

    /// The kind that a number stands for, or `None` for a number above 3.
    pub fn from_code(c: u64) -> (k: Option<RewardKind>)
        ensures
            k == RewardKind::of_code(c),
    {
        if c == 0 {
            Some(RewardKind::Fee)
        } else if c == 1 {
            Some(RewardKind::Rent)
        } else if c == 2 {
            Some(RewardKind::Staking)
        } else if c == 3 {
            Some(RewardKind::Voting)
        } else {
            None
        }
    }
}

/// The last varint field with this number, read as a reward kind.
pub open spec fn last_kind(fs: Seq<Field>, number: u32) -> Option<RewardKind> {
    match last_varint(fs, number) {
        Some(c) => RewardKind::of_code(c),
        None => None,
    }
}

/// The last varint field with this number, read as a reward kind.
pub fn get_kind(rec: &Record, number: u32) -> (r: Option<RewardKind>)
    ensures
        r == last_kind(rec@, number),
{
    match rec.varint(number) {
        Some(c) => RewardKind::from_code(c),
        None => None,
    }
}

/// Kind and amount of one reward.
#[derive(Clone, Copy, Debug, PartialEq, Eq)]
pub struct RewardInfo {
    pub reward_kind: RewardKind,
    /// Amount in lamports. The wire holds it unsigned: a negative amount
    /// cannot be encoded.
    pub lamports: i64,
    /// Balance of the account after the reward.
    pub post_balance: u64,
    pub commission: Option<u8>,
}

/// The reward of one stake account, with the account as it was rewarded.
#[derive(Clone, Debug, PartialEq, Eq)]
pub struct StakeReward {
    pub stake_pubkey: Key,
    pub stake_account: Account,
    pub stake_reward_info: RewardInfo,
}

/// The mathematical content of a [`StakeReward`].
pub struct StakeRewardView {
    pub stake_pubkey: Key,
    pub stake_account: AccountView,
    pub stake_reward_info: RewardInfo,
}

/// A distribution in progress: the block height at which it started and the
/// rewards it pays, in order.
#[derive(Clone, Debug, PartialEq, Eq)]
pub struct EpochRewards {
    pub start_block_height: u64,
    pub stake_rewards: Vec<StakeReward>,
}

/// The mathematical content of an [`EpochRewards`].
pub struct EpochRewardsView {
    pub start_block_height: u64,
    pub stake_rewards: Seq<StakeRewardView>,
}

/// Whether a reward distribution is in progress.
#[derive(Clone, Debug, PartialEq, Eq)]
pub enum EpochRewardStatus {
    Active(EpochRewards),
    Inactive,
}

/// The mathematical content of an [`EpochRewardStatus`].
pub enum EpochRewardStatusView {
    Active(EpochRewardsView),
    Inactive,
}

impl EpochRewardStatusView {
    /// The distribution in progress, if any.
    pub open spec fn rewards(self) -> Option<EpochRewardsView> {
        match self {
            EpochRewardStatusView::Active(r) => Some(r),
            EpochRewardStatusView::Inactive => None,
        }
    }

    /// The status that an optional record stands for: active where the
    /// record is present, inactive where it is absent.
    pub open spec fn of_rewards(o: Option<EpochRewardsView>) -> EpochRewardStatusView {
        match o {
            Some(r) => EpochRewardStatusView::Active(r),
            None => EpochRewardStatusView::Inactive,
        }
    }
}

impl View for RewardInfo {
    type V = RewardInfo;

    open spec fn view(&self) -> RewardInfo {
        *self
    }
}

impl View for StakeReward {
    type V = StakeRewardView;

    open spec fn view(&self) -> StakeRewardView {
        StakeRewardView {
            stake_pubkey: self.stake_pubkey,
            stake_account: self.stake_account@,
            stake_reward_info: self.stake_reward_info,
        }
    }
}

impl View for EpochRewards {
    type V = EpochRewardsView;

    open spec fn view(&self) -> EpochRewardsView {
        EpochRewardsView {
            start_block_height: self.start_block_height,
            stake_rewards: models(self.stake_rewards@),
        }
    }
}

impl View for EpochRewardStatus {
    type V = EpochRewardStatusView;

    open spec fn view(&self) -> EpochRewardStatusView {
        match self {
            EpochRewardStatus::Active(r) => EpochRewardStatusView::Active(r@),
            EpochRewardStatus::Inactive => EpochRewardStatusView::Inactive,
        }
    }
}

/// The wire value of a commission that may be absent.
pub open spec fn commission_value(o: Option<u8>) -> Option<u64> {
    match o {
        Some(c) => Some(c as u64),
        None => None,
    }
}

/// The commission that a wire value stands for.
pub open spec fn commission_of(o: Option<u64>) -> Option<u8> {
    match o {
        Some(c) => Some(c as u8),
        None => None,
    }
}

impl Codec for RewardInfo {
    open spec fn kind_of(number: u32) -> Option<Kind> {
        if (1 <= number && number <= 4) {
            Some(Kind::Varint)
        } else {
            None
        }
    }

    fn kind(number: u32) -> (k: Option<Kind>) {
        if (1 <= number && number <= 4) {
            Some(Kind::Varint)
        } else {
            None
        }
    }

    open spec fn fields(m: RewardInfo) -> Seq<Field> {
        push_opt(
            Seq::empty()
                .push(varint_field(1, m.reward_kind.code()))
                .push(varint_field(2, m.lamports as u64))
                .push(varint_field(3, m.post_balance)),
            opt_varint_field(4, commission_value(m.commission)),
        )
    }

    /// Kind, amount and balance are required. The kind must be at most 3 and
    /// the amount at most the largest signed 64-bit value. The commission
    /// may be absent and must be at most 255 where present.
    open spec fn of_fields(fs: Seq<Field>) -> Result<RewardInfo, SnapshotError> {
        if last_kind(fs, 1) is None || last_bounded(fs, 2, MAX_REWARD_LAMPORTS) is None
            || last_varint(fs, 3) is None {
            Err(SnapshotError::MalformedSnapshot)
        } else {
            match last_bounded_opt(fs, 4, MAX_COMMISSION) {
                Err(e) => Err(e),
                Ok(c) => Ok(
                    RewardInfo {
                        reward_kind: last_kind(fs, 1)->Some_0,
                        lamports: last_bounded(fs, 2, MAX_REWARD_LAMPORTS)->Some_0 as i64,
                        post_balance: last_varint(fs, 3)->Some_0,
                        commission: commission_of(c),
                    },
                ),
            }
        }
    }

    open spec fn valid(m: RewardInfo) -> bool {
        true
    }

    /// The amount is not negative.
    open spec fn encodable(m: RewardInfo) -> bool {
        m.lamports >= 0
    }

    open spec fn fits(m: RewardInfo) -> bool {
        true
    }

    fn encode(&self) -> (r: Result<Vec<u8>, SnapshotError>) {
        broadcast use lemma_fields_bytes_push, lemma_fields_bytes_push_opt;

        if self.lamports < 0 {
            return Err(SnapshotError::RangeOverflow);
        }
        let mut out: Vec<u8> = Vec::new();
        put_varint_field(&mut out, 1, self.reward_kind.to_code());
        put_varint_field(&mut out, 2, self.lamports as u64);
        put_varint_field(&mut out, 3, self.post_balance);
        let commission: Option<u64> = match self.commission {
            Some(c) => Some(c as u64),
            None => None,
        };
        put_opt_varint_field(&mut out, 4, commission);
        assert(fields_bytes(Seq::<Field>::empty()) =~= Seq::<u8>::empty());
        assert(out@ =~= fields_bytes(Self::fields(self@)));
        Ok(out)
    }

    fn from_record(rec: &Record) -> (r: Result<RewardInfo, SnapshotError>) {
        let reward_kind = required(get_kind(rec, 1))?;
        let lamports = required(get_bounded(rec, 2, MAX_REWARD_LAMPORTS))?;
        let post_balance = required(rec.varint(3))?;
        let commission: Option<u8> = match get_bounded_opt(rec, 4, MAX_COMMISSION)? {
            Some(c) => Some(c as u8),
            None => None,
        };
        Ok(
            RewardInfo {
                reward_kind,
                lamports: lamports as i64,
                post_balance,
                commission,
            },
        )
    }

    proof fn lemma_fields_round_trip(m: RewardInfo) {
        broadcast use lemma_matching_push, lemma_matching_empty, lemma_matching_push_opt;

        assert(RewardKind::of_code(m.reward_kind.code()) == Some(m.reward_kind));
    }

    open spec fn can_fail_with(e: SnapshotError) -> bool {
        e == SnapshotError::MalformedSnapshot
    }

    proof fn lemma_error_kinds(fs: Seq<Field>) {
    }

    proof fn lemma_decoded_valid(fs: Seq<Field>) {
    }
}

impl Codec for StakeReward {
    open spec fn kind_of(number: u32) -> Option<Kind> {
        if (1 <= number && number <= 3) {
            Some(Kind::Bytes)
        } else {
            None
        }
    }

    fn kind(number: u32) -> (k: Option<Kind>) {
        if (1 <= number && number <= 3) {
            Some(Kind::Bytes)
        } else {
            None
        }
    }

    open spec fn fields(m: StakeRewardView) -> Seq<Field> {
        Seq::empty()
            .push(bytes_field(1, m.stake_pubkey.bytes()))
            .push(bytes_field(2, wire::<Account>(m.stake_account)))
            .push(bytes_field(3, wire::<RewardInfo>(m.stake_reward_info)))
    }

    /// Every field is required; the key must have 32 bytes. The account is
    /// decoded before the reward.
    open spec fn of_fields(fs: Seq<Field>) -> Result<StakeRewardView, SnapshotError> {
        if last_key(fs, 1) is None {
            Err(SnapshotError::MalformedSnapshot)
        } else {
            match nested::<Account>(fs, 2) {
                Err(e) => Err(e),
                Ok(stake_account) => match nested::<RewardInfo>(fs, 3) {
                    Err(e) => Err(e),
                    Ok(stake_reward_info) => Ok(
                        StakeRewardView {
                            stake_pubkey: last_key(fs, 1)->Some_0,
                            stake_account,
                            stake_reward_info,
                        },
                    ),
                },
            }
        }
    }

    open spec fn valid(m: StakeRewardView) -> bool {
        Account::valid(m.stake_account) && RewardInfo::valid(m.stake_reward_info)
    }

    open spec fn encodable(m: StakeRewardView) -> bool {
        Account::encodable(m.stake_account) && RewardInfo::encodable(m.stake_reward_info)
    }

    open spec fn fits(m: StakeRewardView) -> bool {
        nested_fits::<Account>(m.stake_account) && nested_fits::<RewardInfo>(m.stake_reward_info)
    }

    fn encode(&self) -> (r: Result<Vec<u8>, SnapshotError>) {
        broadcast use lemma_fields_bytes_push;

        let mut out: Vec<u8> = Vec::new();
        put_key_field(&mut out, 1, &self.stake_pubkey);
        put_nested(&mut out, 2, &self.stake_account)?;
        put_nested(&mut out, 3, &self.stake_reward_info)?;
        assert(fields_bytes(Seq::<Field>::empty()) =~= Seq::<u8>::empty());
        assert(out@ =~= fields_bytes(Self::fields(self@)));
        Ok(out)
    }

    fn from_record(rec: &Record) -> (r: Result<StakeReward, SnapshotError>) {
        let stake_pubkey = required(get_key(rec, 1))?;
        let stake_account = get_nested::<Account>(rec, 2)?;
        let stake_reward_info = get_nested::<RewardInfo>(rec, 3)?;
        Ok(StakeReward { stake_pubkey, stake_account, stake_reward_info })
    }

    proof fn lemma_fields_round_trip(m: StakeRewardView) {
        broadcast use lemma_matching_push, lemma_matching_empty;

        lemma_key_round_trip(m.stake_pubkey);
        lemma_round_trip::<Account>(m.stake_account);
        lemma_round_trip::<RewardInfo>(m.stake_reward_info);
    }

    open spec fn can_fail_with(e: SnapshotError) -> bool {
        e == SnapshotError::MalformedSnapshot
    }

    proof fn lemma_error_kinds(fs: Seq<Field>) {
        lemma_nested_errors::<Account>(fs, 2);
        lemma_nested_errors::<RewardInfo>(fs, 3);
    }

    proof fn lemma_decoded_valid(fs: Seq<Field>) {
        lemma_parsed_valid::<Account>(last_bytes(fs, 2)->Some_0);
        lemma_parsed_valid::<RewardInfo>(last_bytes(fs, 3)->Some_0);
    }
}

impl Codec for EpochRewards {
    open spec fn kind_of(number: u32) -> Option<Kind> {
        if number == 1 {
            Some(Kind::Varint)
        } else if number == 2 {
            Some(Kind::Bytes)
        } else {
            None
        }
    }

    fn kind(number: u32) -> (k: Option<Kind>) {
        if number == 1 {
            Some(Kind::Varint)
        } else if number == 2 {
            Some(Kind::Bytes)
        } else {
            None
        }
    }

    open spec fn fields(m: EpochRewardsView) -> Seq<Field> {
        Seq::empty().push(varint_field(1, m.start_block_height)) + repeated_bytes(
            2,
            wires::<StakeReward>(m.stake_rewards),
        )
    }

    /// The start height is required; every reward must decode.
    open spec fn of_fields(fs: Seq<Field>) -> Result<EpochRewardsView, SnapshotError> {
        if last_varint(fs, 1) is None {
            Err(SnapshotError::MalformedSnapshot)
        } else {
            match parse_all::<StakeReward>(all_bytes(fs, 2)) {
                Err(e) => Err(e),
                Ok(stake_rewards) => Ok(
                    EpochRewardsView {
                        start_block_height: last_varint(fs, 1)->Some_0,
                        stake_rewards,
                    },
                ),
            }
        }
    }

    open spec fn valid(m: EpochRewardsView) -> bool {
        all_valid::<StakeReward>(m.stake_rewards)
    }

    open spec fn encodable(m: EpochRewardsView) -> bool {
        all_encodable::<StakeReward>(m.stake_rewards)
    }

    open spec fn fits(m: EpochRewardsView) -> bool {
        all_fit::<StakeReward>(m.stake_rewards)
    }

    fn encode(&self) -> (r: Result<Vec<u8>, SnapshotError>) {
        broadcast use lemma_fields_bytes_push;

        let mut out: Vec<u8> = Vec::new();
        put_varint_field(&mut out, 1, self.start_block_height);
        put_all(&mut out, 2, &self.stake_rewards)?;
        proof {
            let m = self@;
            let a = Seq::<Field>::empty().push(varint_field(1, m.start_block_height));
            assert(fields_bytes(Seq::<Field>::empty()) =~= Seq::<u8>::empty());
            lemma_fields_bytes_concat(a, repeated_bytes(2, wires::<StakeReward>(m.stake_rewards)));
            assert(out@ =~= fields_bytes(Self::fields(m)));
        }
        Ok(out)
    }

    fn from_record(rec: &Record) -> (r: Result<EpochRewards, SnapshotError>) {
        let start_block_height = required(rec.varint(1))?;
        let stake_rewards = get_all::<StakeReward>(rec, 2)?;
        Ok(EpochRewards { start_block_height, stake_rewards })
    }

    proof fn lemma_fields_round_trip(m: EpochRewardsView) {
        broadcast use lemma_matching_push, lemma_matching_empty, lemma_matching_after_bytes;

        let a = Seq::<Field>::empty().push(varint_field(1, m.start_block_height));
        let w2 = wires::<StakeReward>(m.stake_rewards);
        let fs = Self::fields(m);
        lemma_repeated_bytes_ok(2, w2);
        assert(fields_ok(a));
        lemma_fields_ok_concat(a, repeated_bytes(2, w2));
        assert(all_bytes(fs, 2) =~= w2);
        lemma_parse_all_round_trip::<StakeReward>(m.stake_rewards);
    }

    open spec fn can_fail_with(e: SnapshotError) -> bool {
        e == SnapshotError::MalformedSnapshot
    }

    proof fn lemma_error_kinds(fs: Seq<Field>) {
        lemma_parse_all_errors::<StakeReward>(all_bytes(fs, 2));
    }

    proof fn lemma_decoded_valid(fs: Seq<Field>) {
        lemma_parse_all_ok::<StakeReward>(all_bytes(fs, 2));
    }
}

/// Key length: a stake account key that is not 32 bytes long makes the record a
/// malformed snapshot.
pub proof fn lemma_reward_key_length(fs: Seq<Field>)
    requires
        wrong_length(fs, 1),
    ensures
        StakeReward::of_fields(fs) == Err::<StakeRewardView, SnapshotError>(
            SnapshotError::MalformedSnapshot,
        ),
{
}

} // verus!
