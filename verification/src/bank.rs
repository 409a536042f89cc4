//! The ledger state as a whole.

use crate::blockhash_queue::{BlockhashQueue, BlockhashQueueView};
use crate::codec::{
    all_encodable, all_fit, all_valid, distinct, encodable_opt, fits_opt, get_all, get_nested,
    get_nested_opt, has_distinct_keys, lemma_nested_errors, lemma_nested_opt_errors,
    lemma_parse_all_errors, lemma_parse_all_ok, lemma_parse_all_round_trip, lemma_parsed_opt_valid,
    lemma_parsed_valid, lemma_round_trip, lemma_typed_insert, model_opt, models, nested,
    nested_fits, nested_opt, parse, parse_all, put_all, put_nested, put_nested_opt, typed,
    valid_opt, wire, wire_opt, wires, Codec,
};
use crate::epoch_rewards::{
    EpochRewardStatus, EpochRewardStatusView, EpochRewards, EpochRewardsView,
};
use crate::epoch_stakes::{EpochStake, EpochStakeView};
use crate::error::SnapshotError;
use crate::fees::FeeRateGovernor;
use crate::hard_forks::HardFork;
use crate::header::ScalarHeader;
use crate::inflation::Inflation;
use crate::persistence::IncrementalSnapshotPersistence;
use crate::reader::Record;
use crate::rent::{EpochSchedule, RentCollector};
use crate::repeat::{
    distinct_numbers, lemma_matching_after_bytes, lemma_matching_after_varints,
    lemma_repeated_bytes_ok, lemma_repeated_varints_ok, put_repeated_varints,
};
use crate::stakes::{Stakes, StakesView};
use crate::wire::{
    all_bytes, all_varints, bytes_field, fields_bytes, fields_ok, last_bytes,
    lemma_fields_bytes_concat, lemma_fields_bytes_push, lemma_fields_bytes_push_opt,
    lemma_fields_ok_concat, lemma_matching_empty, lemma_matching_insert, lemma_matching_push,
    lemma_matching_push_opt, matching, opt_bytes, opt_bytes_field, push_opt, repeated_bytes,
    repeated_varints, Field, Kind, Payload,
};
use vstd::prelude::*;

verus! {

/// The complete state of the ledger at one slot.
///
/// The codec copies the header as it stands; that a slot does not come
/// before its parent is not among the rules that it enforces.
#[derive(Clone, Debug, PartialEq, Eq)]
pub struct Bank {
    pub header: ScalarHeader,
    /// The slots that are ancestors of this one. A set: the order carries no
    /// meaning, and no slot occurs twice.
    pub ancestors: Vec<u64>,
    /// The hard forks, in the order in which they were registered.
    pub hard_forks: Vec<HardFork>,
    pub inflation: Inflation,
    pub fee_rate_governor: FeeRateGovernor,
    /// Present only in an incremental snapshot.
    pub incremental_snapshot_persistence: Option<IncrementalSnapshotPersistence>,
    pub rent_collector: RentCollector,
    pub epoch_schedule: EpochSchedule,
    pub blockhash_queue: BlockhashQueue,
    pub stakes: Stakes,
    /// The stakes of each retained epoch, keyed by epoch.
    pub epoch_stakes: Vec<EpochStake>,
    pub epoch_reward_status: EpochRewardStatus,
}

/// The mathematical content of a [`Bank`].
pub struct BankView {
    pub header: ScalarHeader,
    pub ancestors: Seq<u64>,
    pub hard_forks: Seq<HardFork>,
    pub inflation: Inflation,
    pub fee_rate_governor: FeeRateGovernor,
    pub incremental_snapshot_persistence: Option<IncrementalSnapshotPersistence>,
    pub rent_collector: RentCollector,
    pub epoch_schedule: EpochSchedule,
    pub blockhash_queue: BlockhashQueueView,
    pub stakes: StakesView,
    pub epoch_stakes: Seq<EpochStakeView>,
    pub epoch_reward_status: EpochRewardStatusView,
}

impl View for Bank {
    type V = BankView;

    open spec fn view(&self) -> BankView {
        BankView {
            header: self.header,
            ancestors: self.ancestors@,
            hard_forks: models(self.hard_forks@),
            inflation: self.inflation,
            fee_rate_governor: self.fee_rate_governor,
            incremental_snapshot_persistence: self.incremental_snapshot_persistence,
            rent_collector: self.rent_collector,
            epoch_schedule: self.epoch_schedule,
            blockhash_queue: self.blockhash_queue@,
            stakes: self.stakes@,
            epoch_stakes: models(self.epoch_stakes@),
            epoch_reward_status: self.epoch_reward_status@,
        }
    }
}

/// Field number of the reward distribution in progress.
pub const EPOCH_REWARDS_FIELD: u32 = 12;

impl BankView {
    /// The fields that occur at most once, in the order in which they are
    /// written.
    pub open spec fn single_fields(self) -> Seq<Field> {
        push_opt(
            push_opt(
                Seq::empty()
                    .push(bytes_field(1, wire::<ScalarHeader>(self.header)))
                    .push(bytes_field(4, wire::<Inflation>(self.inflation)))
                    .push(bytes_field(5, wire::<FeeRateGovernor>(self.fee_rate_governor))),
                opt_bytes_field(
                    6,
                    wire_opt::<IncrementalSnapshotPersistence>(
                        self.incremental_snapshot_persistence,
                    ),
                ),
            )
                .push(bytes_field(7, wire::<RentCollector>(self.rent_collector)))
                .push(bytes_field(8, wire::<EpochSchedule>(self.epoch_schedule)))
                .push(bytes_field(9, wire::<BlockhashQueue>(self.blockhash_queue)))
                .push(bytes_field(10, wire::<Stakes>(self.stakes))),
            opt_bytes_field(
                EPOCH_REWARDS_FIELD,
                wire_opt::<EpochRewards>(self.epoch_reward_status.rewards()),
            ),
        )
    }
}

/// What a lookup finds in the fields of a ledger state.
pub open spec fn bank_lookups(m: BankView, fs: Seq<Field>) -> bool {
    &&& last_bytes(fs, 1) == Some(wire::<ScalarHeader>(m.header))
    &&& last_bytes(fs, 4) == Some(wire::<Inflation>(m.inflation))
    &&& last_bytes(fs, 5) == Some(wire::<FeeRateGovernor>(m.fee_rate_governor))
    &&& last_bytes(fs, 6) == wire_opt::<IncrementalSnapshotPersistence>(
        m.incremental_snapshot_persistence,
    )
    &&& last_bytes(fs, 7) == Some(wire::<RentCollector>(m.rent_collector))
    &&& last_bytes(fs, 8) == Some(wire::<EpochSchedule>(m.epoch_schedule))
    &&& last_bytes(fs, 9) == Some(wire::<BlockhashQueue>(m.blockhash_queue))
    &&& last_bytes(fs, 10) == Some(wire::<Stakes>(m.stakes))
    &&& last_bytes(fs, EPOCH_REWARDS_FIELD) == wire_opt::<EpochRewards>(
        m.epoch_reward_status.rewards(),
    )
}

/// The fields that occur at most once hold each nested record under its
/// number, and nothing under the numbers of the repeated fields.
pub proof fn lemma_single_lookups(m: BankView)
    ensures
        bank_lookups(m, m.single_fields()),
        matching(m.single_fields(), 2, Kind::Varint) == Seq::<Payload>::empty(),
        matching(m.single_fields(), 3, Kind::Bytes) == Seq::<Payload>::empty(),
        matching(m.single_fields(), 11, Kind::Bytes) == Seq::<Payload>::empty(),
{
    broadcast use lemma_matching_push, lemma_matching_empty, lemma_matching_push_opt;

}

/// The fields of a ledger state hold each nested record under its number.
pub proof fn lemma_bank_lookups(m: BankView)
    ensures
        bank_lookups(m, Bank::fields(m)),
        all_varints(Bank::fields(m), 2) == m.ancestors,
        all_bytes(Bank::fields(m), 3) == wires::<HardFork>(m.hard_forks),
        all_bytes(Bank::fields(m), 11) == wires::<EpochStake>(m.epoch_stakes),
{
    broadcast use lemma_matching_after_bytes, lemma_matching_after_varints;

    let a = m.single_fields();
    let fs = Bank::fields(m);
    lemma_single_lookups(m);
    assert(matching(fs, 1, Kind::Bytes) == matching(a, 1, Kind::Bytes));
    assert(matching(fs, 4, Kind::Bytes) == matching(a, 4, Kind::Bytes));
    assert(matching(fs, 5, Kind::Bytes) == matching(a, 5, Kind::Bytes));
    assert(matching(fs, 6, Kind::Bytes) == matching(a, 6, Kind::Bytes));
    assert(matching(fs, 7, Kind::Bytes) == matching(a, 7, Kind::Bytes));
    assert(matching(fs, 8, Kind::Bytes) == matching(a, 8, Kind::Bytes));
    assert(matching(fs, 9, Kind::Bytes) == matching(a, 9, Kind::Bytes));
    assert(matching(fs, 10, Kind::Bytes) == matching(a, 10, Kind::Bytes));
    assert(matching(fs, EPOCH_REWARDS_FIELD, Kind::Bytes) == matching(
        a,
        EPOCH_REWARDS_FIELD,
        Kind::Bytes,
    ));
    assert(all_varints(fs, 2) =~= m.ancestors);
    assert(all_bytes(fs, 3) =~= wires::<HardFork>(m.hard_forks));
    assert(all_bytes(fs, 11) =~= wires::<EpochStake>(m.epoch_stakes));
}

/// The fields of a ledger state that fits can be written.
pub proof fn lemma_bank_fields_ok(m: BankView)
    requires
        Bank::fits(m),
    ensures
        fields_ok(Bank::fields(m)),
{
    let a = m.single_fields();
    let r2 = repeated_varints(2, m.ancestors);
    let w3 = wires::<HardFork>(m.hard_forks);
    let w11 = wires::<EpochStake>(m.epoch_stakes);
    lemma_repeated_varints_ok(2, m.ancestors);
    lemma_repeated_bytes_ok(3, w3);
    lemma_repeated_bytes_ok(11, w11);
    assert(fields_ok(a));
    lemma_fields_ok_concat(a, r2);
    lemma_fields_ok_concat(a + r2, repeated_bytes(3, w3));
    lemma_fields_ok_concat(a + r2 + repeated_bytes(3, w3), repeated_bytes(11, w11));
}

/// Each nested record of the ledger state is read back from its encoding.
pub open spec fn bank_parts(m: BankView) -> bool {
    &&& parse::<ScalarHeader>(wire::<ScalarHeader>(m.header)) == Ok::<ScalarHeader, SnapshotError>(
        m.header,
    )
    &&& parse::<Inflation>(wire::<Inflation>(m.inflation)) == Ok::<Inflation, SnapshotError>(
        m.inflation,
    )
    &&& parse::<FeeRateGovernor>(wire::<FeeRateGovernor>(m.fee_rate_governor)) == Ok::<
        FeeRateGovernor,
        SnapshotError,
    >(m.fee_rate_governor)
    &&& (m.incremental_snapshot_persistence matches Some(p) ==> parse::<
        IncrementalSnapshotPersistence,
    >(wire::<IncrementalSnapshotPersistence>(p)) == Ok::<
        IncrementalSnapshotPersistence,
        SnapshotError,
    >(p))
    &&& parse::<RentCollector>(wire::<RentCollector>(m.rent_collector)) == Ok::<
        RentCollector,
        SnapshotError,
    >(m.rent_collector)
    &&& parse::<EpochSchedule>(wire::<EpochSchedule>(m.epoch_schedule)) == Ok::<
        EpochSchedule,
        SnapshotError,
    >(m.epoch_schedule)
    &&& parse::<BlockhashQueue>(wire::<BlockhashQueue>(m.blockhash_queue)) == Ok::<
        BlockhashQueueView,
        SnapshotError,
    >(m.blockhash_queue)
    &&& parse::<Stakes>(wire::<Stakes>(m.stakes)) == Ok::<StakesView, SnapshotError>(m.stakes)
    &&& (m.epoch_reward_status.rewards() matches Some(r) ==> parse::<EpochRewards>(
        wire::<EpochRewards>(r),
    ) == Ok::<EpochRewardsView, SnapshotError>(r))
    &&& parse_all::<HardFork>(wires::<HardFork>(m.hard_forks)) == Ok::<
        Seq<HardFork>,
        SnapshotError,
    >(m.hard_forks)
    &&& parse_all::<EpochStake>(wires::<EpochStake>(m.epoch_stakes)) == Ok::<
        Seq<EpochStakeView>,
        SnapshotError,
    >(m.epoch_stakes)
}

/// Each nested record of a valid ledger state is read back from its encoding.
pub proof fn lemma_bank_parts(m: BankView)
    requires
        Bank::valid(m),
        Bank::encodable(m),
        Bank::fits(m),
    ensures
        bank_parts(m),
{
    lemma_round_trip::<ScalarHeader>(m.header);
    lemma_round_trip::<Inflation>(m.inflation);
    lemma_round_trip::<FeeRateGovernor>(m.fee_rate_governor);
    if m.incremental_snapshot_persistence is Some {
        lemma_round_trip::<IncrementalSnapshotPersistence>(
            m.incremental_snapshot_persistence->Some_0,
        );
    }
    lemma_round_trip::<RentCollector>(m.rent_collector);
    lemma_round_trip::<EpochSchedule>(m.epoch_schedule);
    lemma_round_trip::<BlockhashQueue>(m.blockhash_queue);
    lemma_round_trip::<Stakes>(m.stakes);
    if m.epoch_reward_status.rewards() is Some {
        lemma_round_trip::<EpochRewards>(m.epoch_reward_status.rewards()->Some_0);
    }
    lemma_parse_all_round_trip::<HardFork>(m.hard_forks);
    lemma_parse_all_round_trip::<EpochStake>(m.epoch_stakes);
}

/// Fields that hold the encoding of each part of a ledger state stand for
/// that state.
pub proof fn lemma_bank_assemble(m: BankView, fs: Seq<Field>)
    requires
        bank_lookups(m, fs),
        all_varints(fs, 2) == m.ancestors,
        all_bytes(fs, 3) == wires::<HardFork>(m.hard_forks),
        all_bytes(fs, 11) == wires::<EpochStake>(m.epoch_stakes),
        bank_parts(m),
        distinct::<EpochStake>(m.epoch_stakes),
        m.ancestors.no_duplicates(),
    ensures
        Bank::of_fields(fs) == Ok::<BankView, SnapshotError>(m),
{
    assert(nested::<ScalarHeader>(fs, 1) == Ok::<ScalarHeader, SnapshotError>(m.header));
    assert(nested::<Inflation>(fs, 4) == Ok::<Inflation, SnapshotError>(m.inflation));
    assert(nested::<FeeRateGovernor>(fs, 5) == Ok::<FeeRateGovernor, SnapshotError>(
        m.fee_rate_governor,
    ));
    assert(nested_opt::<IncrementalSnapshotPersistence>(fs, 6) == Ok::<
        Option<IncrementalSnapshotPersistence>,
        SnapshotError,
    >(m.incremental_snapshot_persistence));
    assert(nested::<RentCollector>(fs, 7) == Ok::<RentCollector, SnapshotError>(m.rent_collector));
    assert(nested::<EpochSchedule>(fs, 8) == Ok::<EpochSchedule, SnapshotError>(m.epoch_schedule));
    assert(nested::<BlockhashQueue>(fs, 9) == Ok::<BlockhashQueueView, SnapshotError>(
        m.blockhash_queue,
    ));
    assert(nested::<Stakes>(fs, 10) == Ok::<StakesView, SnapshotError>(m.stakes));
    assert(nested_opt::<EpochRewards>(fs, EPOCH_REWARDS_FIELD) == Ok::<
        Option<EpochRewardsView>,
        SnapshotError,
    >(m.epoch_reward_status.rewards()));
    assert(EpochRewardStatusView::of_rewards(m.epoch_reward_status.rewards())
        == m.epoch_reward_status);
}

impl Codec for Bank {
    open spec fn kind_of(number: u32) -> Option<Kind> {
        if number == 2 {
            Some(Kind::Varint)
        } else if number == 1 || (3 <= number && number <= 12) {
            Some(Kind::Bytes)
        } else {
            None
        }
    }

    fn kind(number: u32) -> (k: Option<Kind>) {
        if number == 2 {
            Some(Kind::Varint)
        } else if number == 1 || (3 <= number && number <= 12) {
            Some(Kind::Bytes)
        } else {
            None
        }
    }

    open spec fn fields(m: BankView) -> Seq<Field> {
        m.single_fields() + repeated_varints(2, m.ancestors) + repeated_bytes(
            3,
            wires::<HardFork>(m.hard_forks),
        ) + repeated_bytes(11, wires::<EpochStake>(m.epoch_stakes))
    }

    /// Header, inflation, fee rate governor, rent collector, epoch schedule,
    /// block hash queue and stake bundle are required; a missing one is a
    /// malformed snapshot. Structure is judged before any invariant. The
    /// nested records are decoded in this order, and the first that is
    /// malformed decides the error: header, inflation, fee rate governor,
    /// persistence, rent collector, epoch schedule, block hash queue, stake
    /// bundle, reward distribution, hard forks, epoch stakes. After that, an
    /// epoch that occurs twice among the epoch stakes, and a slot that occurs
    /// twice among the ancestors, is a malformed snapshot. Only a record
    /// that is well formed in all of this is refused
    /// for a queue that holds more entries than its bound allows. The reward
    /// distribution is active exactly where its field is present.
    open spec fn of_fields(fs: Seq<Field>) -> Result<BankView, SnapshotError> {
        let header = nested::<ScalarHeader>(fs, 1);
        let inflation = nested::<Inflation>(fs, 4);
        let governor = nested::<FeeRateGovernor>(fs, 5);
        let persistence = nested_opt::<IncrementalSnapshotPersistence>(fs, 6);
        let rent_collector = nested::<RentCollector>(fs, 7);
        let epoch_schedule = nested::<EpochSchedule>(fs, 8);
        let queue = nested::<BlockhashQueue>(fs, 9);
        let stakes = nested::<Stakes>(fs, 10);
        let rewards = nested_opt::<EpochRewards>(fs, EPOCH_REWARDS_FIELD);
        let hard_forks = parse_all::<HardFork>(all_bytes(fs, 3));
        let epoch_stakes = parse_all::<EpochStake>(all_bytes(fs, 11));
        if header is Err {
            Err(header->Err_0)
        } else if inflation is Err {
            Err(inflation->Err_0)
        } else if governor is Err {
            Err(governor->Err_0)
        } else if persistence is Err {
            Err(persistence->Err_0)
        } else if rent_collector is Err {
            Err(rent_collector->Err_0)
        } else if epoch_schedule is Err {
            Err(epoch_schedule->Err_0)
        } else if queue is Err && queue->Err_0 != SnapshotError::InvariantViolation {
            Err(queue->Err_0)
        } else if stakes is Err {
            Err(stakes->Err_0)
        } else if rewards is Err {
            Err(rewards->Err_0)
        } else if hard_forks is Err {
            Err(hard_forks->Err_0)
        } else if epoch_stakes is Err {
            Err(epoch_stakes->Err_0)
        } else if !distinct::<EpochStake>(epoch_stakes->Ok_0) {
            Err(SnapshotError::MalformedSnapshot)
        } else if !all_varints(fs, 2).no_duplicates() {
            Err(SnapshotError::MalformedSnapshot)
        } else if queue is Err {
            Err(queue->Err_0)
        } else {
            Ok(
                BankView {
                    header: header->Ok_0,
                    ancestors: all_varints(fs, 2),
                    hard_forks: hard_forks->Ok_0,
                    inflation: inflation->Ok_0,
                    fee_rate_governor: governor->Ok_0,
                    incremental_snapshot_persistence: persistence->Ok_0,
                    rent_collector: rent_collector->Ok_0,
                    epoch_schedule: epoch_schedule->Ok_0,
                    blockhash_queue: queue->Ok_0,
                    stakes: stakes->Ok_0,
                    epoch_stakes: epoch_stakes->Ok_0,
                    epoch_reward_status: EpochRewardStatusView::of_rewards(rewards->Ok_0),
                },
            )
        }
    }

    open spec fn valid(m: BankView) -> bool {
        &&& ScalarHeader::valid(m.header)
        &&& Inflation::valid(m.inflation)
        &&& FeeRateGovernor::valid(m.fee_rate_governor)
        &&& valid_opt::<IncrementalSnapshotPersistence>(m.incremental_snapshot_persistence)
        &&& RentCollector::valid(m.rent_collector)
        &&& EpochSchedule::valid(m.epoch_schedule)
        &&& BlockhashQueue::valid(m.blockhash_queue)
        &&& Stakes::valid(m.stakes)
        &&& valid_opt::<EpochRewards>(m.epoch_reward_status.rewards())
        &&& all_valid::<HardFork>(m.hard_forks)
        &&& all_valid::<EpochStake>(m.epoch_stakes)
        &&& distinct::<EpochStake>(m.epoch_stakes)
        &&& m.ancestors.no_duplicates()
    }

    open spec fn encodable(m: BankView) -> bool {
        &&& ScalarHeader::encodable(m.header)
        &&& Inflation::encodable(m.inflation)
        &&& FeeRateGovernor::encodable(m.fee_rate_governor)
        &&& encodable_opt::<IncrementalSnapshotPersistence>(m.incremental_snapshot_persistence)
        &&& RentCollector::encodable(m.rent_collector)
        &&& EpochSchedule::encodable(m.epoch_schedule)
        &&& BlockhashQueue::encodable(m.blockhash_queue)
        &&& Stakes::encodable(m.stakes)
        &&& encodable_opt::<EpochRewards>(m.epoch_reward_status.rewards())
        &&& all_encodable::<HardFork>(m.hard_forks)
        &&& all_encodable::<EpochStake>(m.epoch_stakes)
    }

    open spec fn fits(m: BankView) -> bool {
        &&& nested_fits::<ScalarHeader>(m.header)
        &&& nested_fits::<Inflation>(m.inflation)
        &&& nested_fits::<FeeRateGovernor>(m.fee_rate_governor)
        &&& fits_opt::<IncrementalSnapshotPersistence>(m.incremental_snapshot_persistence)
        &&& nested_fits::<RentCollector>(m.rent_collector)
        &&& nested_fits::<EpochSchedule>(m.epoch_schedule)
        &&& nested_fits::<BlockhashQueue>(m.blockhash_queue)
        &&& nested_fits::<Stakes>(m.stakes)
        &&& fits_opt::<EpochRewards>(m.epoch_reward_status.rewards())
        &&& all_fit::<HardFork>(m.hard_forks)
        &&& all_fit::<EpochStake>(m.epoch_stakes)
    }

    fn encode(&self) -> (r: Result<Vec<u8>, SnapshotError>) {
        broadcast use lemma_fields_bytes_push, lemma_fields_bytes_push_opt;

        let mut out: Vec<u8> = Vec::new();
        put_nested(&mut out, 1, &self.header)?;
        put_nested(&mut out, 4, &self.inflation)?;
        put_nested(&mut out, 5, &self.fee_rate_governor)?;
        assert(model_opt(self.incremental_snapshot_persistence)
            == self.incremental_snapshot_persistence);
        put_nested_opt(&mut out, 6, &self.incremental_snapshot_persistence)?;
        put_nested(&mut out, 7, &self.rent_collector)?;
        put_nested(&mut out, 8, &self.epoch_schedule)?;
        put_nested(&mut out, 9, &self.blockhash_queue)?;
        put_nested(&mut out, 10, &self.stakes)?;
        let ghost before = out@;
        match &self.epoch_reward_status {
            EpochRewardStatus::Active(rewards) => {
                put_nested(&mut out, EPOCH_REWARDS_FIELD, rewards)?;
            },
            EpochRewardStatus::Inactive => {},
        }
        assert(out@ =~= before + opt_bytes(
            opt_bytes_field(
                EPOCH_REWARDS_FIELD,
                wire_opt::<EpochRewards>(self@.epoch_reward_status.rewards()),
            ),
        ));
        put_repeated_varints(&mut out, 2, &self.ancestors);
        put_all(&mut out, 3, &self.hard_forks)?;
        put_all(&mut out, 11, &self.epoch_stakes)?;
        proof {
            let m = self@;
            let a = m.single_fields();
            let r2 = repeated_varints(2, m.ancestors);
            let r3 = repeated_bytes(3, wires::<HardFork>(m.hard_forks));
            let r11 = repeated_bytes(11, wires::<EpochStake>(m.epoch_stakes));
            assert(fields_bytes(Seq::<Field>::empty()) =~= Seq::<u8>::empty());
            lemma_fields_bytes_concat(a, r2);
            lemma_fields_bytes_concat(a + r2, r3);
            lemma_fields_bytes_concat(a + r2 + r3, r11);
            assert(out@ =~= fields_bytes(Self::fields(m)));
        }
        Ok(out)
    }

    fn from_record(rec: &Record) -> (r: Result<Bank, SnapshotError>) {
        let header = get_nested::<ScalarHeader>(rec, 1)?;
        let inflation = get_nested::<Inflation>(rec, 4)?;
        let fee_rate_governor = get_nested::<FeeRateGovernor>(rec, 5)?;
        let incremental_snapshot_persistence = get_nested_opt::<IncrementalSnapshotPersistence>(
            rec,
            6,
        )?;
        let rent_collector = get_nested::<RentCollector>(rec, 7)?;
        let epoch_schedule = get_nested::<EpochSchedule>(rec, 8)?;
        // a queue over its bound is reported last, after the structure of
        // every other part has been judged
        let queue = get_nested::<BlockhashQueue>(rec, 9);
        match &queue {
            Err(e) => {
                if *e != SnapshotError::InvariantViolation {
                    return Err(*e);
                }
            },
            Ok(_) => {},
        }
        let stakes = get_nested::<Stakes>(rec, 10)?;
        let rewards = get_nested_opt::<EpochRewards>(rec, EPOCH_REWARDS_FIELD)?;
        let hard_forks = get_all::<HardFork>(rec, 3)?;
        let epoch_stakes = get_all::<EpochStake>(rec, 11)?;
        if !has_distinct_keys(&epoch_stakes) {
            return Err(SnapshotError::MalformedSnapshot);
        }
        let ancestors = rec.all_varints(2);
        if !distinct_numbers(&ancestors) {
            return Err(SnapshotError::MalformedSnapshot);
        }
        let blockhash_queue = queue?;
        let epoch_reward_status = match rewards {
            Some(r) => EpochRewardStatus::Active(r),
            None => EpochRewardStatus::Inactive,
        };
        assert(model_opt(incremental_snapshot_persistence) == incremental_snapshot_persistence);
        Ok(
            Bank {
                header,
                ancestors,
                hard_forks,
                inflation,
                fee_rate_governor,
                incremental_snapshot_persistence,
                rent_collector,
                epoch_schedule,
                blockhash_queue,
                stakes,
                epoch_stakes,
                epoch_reward_status,
            },
        )
    }

    proof fn lemma_fields_round_trip(m: BankView) {
        lemma_bank_fields_ok(m);
        lemma_bank_lookups(m);
        lemma_bank_parts(m);
        lemma_bank_assemble(m, Self::fields(m));
    }

    /// Malformed, or well formed and against an invariant.
    open spec fn can_fail_with(e: SnapshotError) -> bool {
        e == SnapshotError::MalformedSnapshot || e == SnapshotError::InvariantViolation
    }

    proof fn lemma_error_kinds(fs: Seq<Field>) {
        lemma_nested_errors::<ScalarHeader>(fs, 1);
        lemma_nested_errors::<Inflation>(fs, 4);
        lemma_nested_errors::<FeeRateGovernor>(fs, 5);
        lemma_nested_opt_errors::<IncrementalSnapshotPersistence>(fs, 6);
        lemma_nested_errors::<RentCollector>(fs, 7);
        lemma_nested_errors::<EpochSchedule>(fs, 8);
        lemma_nested_errors::<BlockhashQueue>(fs, 9);
        lemma_nested_errors::<Stakes>(fs, 10);
        lemma_nested_opt_errors::<EpochRewards>(fs, EPOCH_REWARDS_FIELD);
        lemma_parse_all_errors::<HardFork>(all_bytes(fs, 3));
        lemma_parse_all_errors::<EpochStake>(all_bytes(fs, 11));
    }

    proof fn lemma_decoded_valid(fs: Seq<Field>) {
        lemma_parsed_valid::<ScalarHeader>(last_bytes(fs, 1)->Some_0);
        lemma_parsed_valid::<Inflation>(last_bytes(fs, 4)->Some_0);
        lemma_parsed_valid::<FeeRateGovernor>(last_bytes(fs, 5)->Some_0);
        lemma_parsed_opt_valid::<IncrementalSnapshotPersistence>(fs, 6);
        lemma_parsed_valid::<RentCollector>(last_bytes(fs, 7)->Some_0);
        lemma_parsed_valid::<EpochSchedule>(last_bytes(fs, 8)->Some_0);
        lemma_parsed_valid::<BlockhashQueue>(last_bytes(fs, 9)->Some_0);
        lemma_parsed_valid::<Stakes>(last_bytes(fs, 10)->Some_0);
        lemma_parsed_opt_valid::<EpochRewards>(fs, EPOCH_REWARDS_FIELD);
        lemma_parse_all_ok::<HardFork>(all_bytes(fs, 3));
        lemma_parse_all_ok::<EpochStake>(all_bytes(fs, 11));
    }
}

/// One of the parts of the ledger state does not decode for a reason of
/// structure: every failure of a part but that of a well-formed queue over
/// its bound.
pub open spec fn bank_part_malformed(fs: Seq<Field>) -> bool {
    ||| nested::<ScalarHeader>(fs, 1) is Err
    ||| nested::<Inflation>(fs, 4) is Err
    ||| nested::<FeeRateGovernor>(fs, 5) is Err
    ||| nested_opt::<IncrementalSnapshotPersistence>(fs, 6) is Err
    ||| nested::<RentCollector>(fs, 7) is Err
    ||| nested::<EpochSchedule>(fs, 8) is Err
    ||| nested::<BlockhashQueue>(fs, 9) == Err::<BlockhashQueueView, SnapshotError>(
        SnapshotError::MalformedSnapshot,
    )
    ||| nested::<Stakes>(fs, 10) is Err
    ||| nested_opt::<EpochRewards>(fs, EPOCH_REWARDS_FIELD) is Err
    ||| parse_all::<HardFork>(all_bytes(fs, 3)) is Err
    ||| parse_all::<EpochStake>(all_bytes(fs, 11)) is Err
    ||| !all_varints(fs, 2).no_duplicates()
}

/// Every part of the ledger state but the queue decodes, and no epoch and
/// no ancestor occurs twice.
pub open spec fn bank_parts_well_formed(fs: Seq<Field>) -> bool {
    &&& nested::<ScalarHeader>(fs, 1) is Ok
    &&& nested::<Inflation>(fs, 4) is Ok
    &&& nested::<FeeRateGovernor>(fs, 5) is Ok
    &&& nested_opt::<IncrementalSnapshotPersistence>(fs, 6) is Ok
    &&& nested::<RentCollector>(fs, 7) is Ok
    &&& nested::<EpochSchedule>(fs, 8) is Ok
    &&& nested::<Stakes>(fs, 10) is Ok
    &&& nested_opt::<EpochRewards>(fs, EPOCH_REWARDS_FIELD) is Ok
    &&& parse_all::<HardFork>(all_bytes(fs, 3)) is Ok
    &&& parse_all::<EpochStake>(all_bytes(fs, 11)) is Ok
    &&& distinct::<EpochStake>(parse_all::<EpochStake>(all_bytes(fs, 11))->Ok_0)
    &&& all_varints(fs, 2).no_duplicates()
}

/// No part of the ledger state but the queue is refused for anything but
/// its structure.
pub proof fn lemma_bank_part_errors(fs: Seq<Field>)
    ensures
        nested::<ScalarHeader>(fs, 1) matches Err(e) ==> e == SnapshotError::MalformedSnapshot,
        nested::<Inflation>(fs, 4) matches Err(e) ==> e == SnapshotError::MalformedSnapshot,
        nested::<FeeRateGovernor>(fs, 5) matches Err(e) ==> e == SnapshotError::MalformedSnapshot,
        nested_opt::<IncrementalSnapshotPersistence>(fs, 6) matches Err(e) ==> e
            == SnapshotError::MalformedSnapshot,
        nested::<RentCollector>(fs, 7) matches Err(e) ==> e == SnapshotError::MalformedSnapshot,
        nested::<EpochSchedule>(fs, 8) matches Err(e) ==> e == SnapshotError::MalformedSnapshot,
        nested::<BlockhashQueue>(fs, 9) matches Err(e) ==> e == SnapshotError::MalformedSnapshot
            || e == SnapshotError::InvariantViolation,
        nested::<Stakes>(fs, 10) matches Err(e) ==> e == SnapshotError::MalformedSnapshot,
        nested_opt::<EpochRewards>(fs, EPOCH_REWARDS_FIELD) matches Err(e) ==> e
            == SnapshotError::MalformedSnapshot,
        parse_all::<HardFork>(all_bytes(fs, 3)) matches Err(e) ==> e
            == SnapshotError::MalformedSnapshot,
        parse_all::<EpochStake>(all_bytes(fs, 11)) matches Err(e) ==> e
            == SnapshotError::MalformedSnapshot,
{
    lemma_nested_errors::<ScalarHeader>(fs, 1);
    lemma_nested_errors::<Inflation>(fs, 4);
    lemma_nested_errors::<FeeRateGovernor>(fs, 5);
    lemma_nested_opt_errors::<IncrementalSnapshotPersistence>(fs, 6);
    lemma_nested_errors::<RentCollector>(fs, 7);
    lemma_nested_errors::<EpochSchedule>(fs, 8);
    lemma_nested_errors::<BlockhashQueue>(fs, 9);
    lemma_nested_errors::<Stakes>(fs, 10);
    lemma_nested_opt_errors::<EpochRewards>(fs, EPOCH_REWARDS_FIELD);
    lemma_parse_all_errors::<HardFork>(all_bytes(fs, 3));
    lemma_parse_all_errors::<EpochStake>(all_bytes(fs, 11));
}

/// Structure before invariants: a ledger state with a part that is
/// malformed is a malformed snapshot, whatever its queue holds. This covers
/// a missing required record, a key or hash that is not 32 bytes long, a
/// number outside its domain and a repeated key, in whichever part.
pub proof fn lemma_bank_malformed_part_refused(fs: Seq<Field>)
    requires
        bank_part_malformed(fs),
    ensures
        Bank::of_fields(fs) == Err::<BankView, SnapshotError>(SnapshotError::MalformedSnapshot),
{
    lemma_bank_part_errors(fs);
}

/// Duplicate keys: a ledger state in which an epoch occurs twice among the
/// epoch stakes, or a slot among the ancestors, is a malformed snapshot,
/// whatever its queue holds.
pub proof fn lemma_bank_duplicate_refused(fs: Seq<Field>)
    requires
        (parse_all::<EpochStake>(all_bytes(fs, 11)) is Ok && !distinct::<EpochStake>(
            parse_all::<EpochStake>(all_bytes(fs, 11))->Ok_0,
        )) || !all_varints(fs, 2).no_duplicates(),
    ensures
        Bank::of_fields(fs) == Err::<BankView, SnapshotError>(SnapshotError::MalformedSnapshot),
{
    lemma_bank_part_errors(fs);
}

/// Invariants last: a ledger state is refused as against an invariant only
/// where every part is well formed, no epoch occurs twice, and the queue
/// itself is well formed and over its bound.
pub proof fn lemma_bank_violation_is_well_formed(fs: Seq<Field>)
    requires
        Bank::of_fields(fs) == Err::<BankView, SnapshotError>(SnapshotError::InvariantViolation),
    ensures
        bank_parts_well_formed(fs),
        nested::<BlockhashQueue>(fs, 9) == Err::<BlockhashQueueView, SnapshotError>(
            SnapshotError::InvariantViolation,
        ),
{
    lemma_bank_part_errors(fs);
}

/// Invariants last, the other way round: a ledger state whose parts are all
/// well formed, and whose queue is over its bound, is against an invariant.
pub proof fn lemma_bank_overfull_queue_refused(fs: Seq<Field>)
    requires
        bank_parts_well_formed(fs),
        nested::<BlockhashQueue>(fs, 9) == Err::<BlockhashQueueView, SnapshotError>(
            SnapshotError::InvariantViolation,
        ),
    ensures
        Bank::of_fields(fs) == Err::<BankView, SnapshotError>(SnapshotError::InvariantViolation),
{
}

/// Two states of the reward field, written: a state without a distribution
/// in progress is written without the field, and a state with one is
/// written with it.
pub proof fn lemma_reward_field_written(m: BankView)
    ensures
        m.epoch_reward_status is Inactive <==> last_bytes(Bank::fields(m), EPOCH_REWARDS_FIELD)
            is None,
{
    lemma_bank_lookups(m);
}

/// Two states of the reward field, read: a record without the field is read
/// as a state without a distribution in progress, and a record with it as a
/// state with one, be its list of rewards empty or not.
pub proof fn lemma_reward_field_read(fs: Seq<Field>)
    requires
        Bank::of_fields(fs) is Ok,
    ensures
        last_bytes(fs, EPOCH_REWARDS_FIELD) is None <==> Bank::of_fields(
            fs,
        )->Ok_0.epoch_reward_status is Inactive,
{
}

/// Forward compatibility: a field under a number that the schema does not
/// use, wherever it stands in the record, changes nothing of what the record
/// stands for, and leaves a record that has the kinds of the schema as it
/// is.
pub proof fn lemma_bank_unknown_field_ignored(a: Seq<Field>, f: Field, b: Seq<Field>)
    requires
        f.number > EPOCH_REWARDS_FIELD,
    ensures
        Bank::of_fields(a.push(f) + b) == Bank::of_fields(a + b),
        typed::<Bank>(a.push(f) + b) == typed::<Bank>(a + b),
{
    broadcast use lemma_matching_insert;

    let g = a.push(f) + b;
    let h = a + b;
    lemma_typed_insert::<Bank>(a, f, b);
    assert(last_bytes(g, 1) == last_bytes(h, 1));
    assert(last_bytes(g, 4) == last_bytes(h, 4));
    assert(last_bytes(g, 5) == last_bytes(h, 5));
    assert(last_bytes(g, 6) == last_bytes(h, 6));
    assert(last_bytes(g, 7) == last_bytes(h, 7));
    assert(last_bytes(g, 8) == last_bytes(h, 8));
    assert(last_bytes(g, 9) == last_bytes(h, 9));
    assert(last_bytes(g, 10) == last_bytes(h, 10));
    assert(last_bytes(g, EPOCH_REWARDS_FIELD) == last_bytes(h, EPOCH_REWARDS_FIELD));
    assert(all_bytes(g, 3) =~= all_bytes(h, 3));
    assert(all_bytes(g, 11) =~= all_bytes(h, 11));
    assert(all_varints(g, 2) =~= all_varints(h, 2));
}

} // verus!
