//! The stake bundle: vote accounts, stake delegations and stake history.

use crate::account::{Account, AccountView};
use crate::codec::{
    all_encodable, all_fit, all_valid, distinct, get_all, get_nested, has_distinct_keys,
    lemma_nested_errors, lemma_parse_all_errors, lemma_parse_all_ok, lemma_parse_all_round_trip,
    lemma_parsed_valid, lemma_round_trip, models, nested, nested_fits, parse_all, put_all,
    put_nested, wire, wires, Codec, Keyed,
};
use crate::error::SnapshotError;
use crate::key::{
    get_key, last_key, lemma_key_round_trip, number_key, put_key_field, wrong_length, Key,
};
use crate::reader::Record;
use crate::repeat::{lemma_matching_after_bytes, lemma_repeated_bytes_ok};
use crate::scalar::required;
use crate::wire::{
    all_bytes, bytes_field, fields_bytes, fields_ok, fixed64_field, last_bytes, last_fixed64,
    last_varint, lemma_fields_bytes_concat, lemma_fields_bytes_push, lemma_fields_ok_concat,
    lemma_matching_empty, lemma_matching_push, repeated_bytes, varint_field, Field, Kind,
};
use crate::writer::{put_fixed64_field, put_varint_field};
use vstd::prelude::*;

verus! {

/// A stake delegated to a validator's vote account.
#[derive(Clone, Copy, Debug, PartialEq, Eq)]
pub struct Delegation {
    pub voter_pubkey: Key,
    pub stake: u64,
    pub activation_epoch: u64,
    pub deactivation_epoch: u64,
    /// Bit pattern of the binary64 warm-up and cool-down rate.
    pub warmup_cooldown_rate: u64,
}

/// A stake delegation under the key of its stake account.
#[derive(Clone, Copy, Debug, PartialEq, Eq)]
pub struct DelegationEntry {
    pub pubkey: Key,
    pub delegation: Delegation,
}

/// The stake totals of one epoch.
#[derive(Clone, Copy, Debug, PartialEq, Eq)]
pub struct StakeHistoryRecord {
    pub epoch: u64,
    pub effective: u64,
    pub activating: u64,
    pub deactivating: u64,
}

/// A vote account with its stake weight, under its key.
#[derive(Clone, Debug, PartialEq, Eq)]
pub struct VoteAccountEntry {
    pub pubkey: Key,
    pub stake: u64,
    pub vote_account: Account,
}

/// The mathematical content of a [`VoteAccountEntry`].
pub struct VoteAccountEntryView {
    pub pubkey: Key,
    pub stake: u64,
    pub vote_account: AccountView,
}

/// Vote accounts, stake delegations and stake history as of one epoch. The
/// three sequences are keyed: by account key, by account key, by epoch.
///
/// Each sequence is judged by itself. A delegation whose voter has no entry
/// among the vote accounts is encoded and decoded as it stands: whether the
/// two sequences agree is for the owner of the ledger state to decide.
#[derive(Clone, Debug, PartialEq, Eq)]
pub struct Stakes {
    pub epoch: u64,
    pub vote_accounts: Vec<VoteAccountEntry>,
    pub stake_delegations: Vec<DelegationEntry>,
    pub stake_history: Vec<StakeHistoryRecord>,
}

/// The mathematical content of a [`Stakes`].
pub struct StakesView {
    pub epoch: u64,
    pub vote_accounts: Seq<VoteAccountEntryView>,
    pub stake_delegations: Seq<DelegationEntry>,
    pub stake_history: Seq<StakeHistoryRecord>,
}

impl View for Delegation {
    type V = Delegation;

    open spec fn view(&self) -> Delegation {
        *self
    }
}

impl View for DelegationEntry {
    type V = DelegationEntry;

    open spec fn view(&self) -> DelegationEntry {
        *self
    }
}

impl View for StakeHistoryRecord {
    type V = StakeHistoryRecord;

    open spec fn view(&self) -> StakeHistoryRecord {
        *self
    }
}

impl View for VoteAccountEntry {
    type V = VoteAccountEntryView;

    open spec fn view(&self) -> VoteAccountEntryView {
        VoteAccountEntryView {
            pubkey: self.pubkey,
            stake: self.stake,
            vote_account: self.vote_account@,
        }
    }
}

impl View for Stakes {
    type V = StakesView;

    open spec fn view(&self) -> StakesView {
        StakesView {
            epoch: self.epoch,
            vote_accounts: models(self.vote_accounts@),
            stake_delegations: models(self.stake_delegations@),
            stake_history: models(self.stake_history@),
        }
    }
}

impl Codec for Delegation {
    open spec fn kind_of(number: u32) -> Option<Kind> {
        if (2 <= number && number <= 4) {
            Some(Kind::Varint)
        } else if number == 1 {
            Some(Kind::Bytes)
        } else if number == 5 {
            Some(Kind::Fixed64)
        } else {
            None
        }
    }

    fn kind(number: u32) -> (k: Option<Kind>) {
        if (2 <= number && number <= 4) {
            Some(Kind::Varint)
        } else if number == 1 {
            Some(Kind::Bytes)
        } else if number == 5 {
            Some(Kind::Fixed64)
        } else {
            None
        }
    }

    open spec fn fields(m: Delegation) -> Seq<Field> {
        Seq::empty()
            .push(bytes_field(1, m.voter_pubkey.bytes()))
            .push(varint_field(2, m.stake))
            .push(varint_field(3, m.activation_epoch))
            .push(varint_field(4, m.deactivation_epoch))
            .push(fixed64_field(5, m.warmup_cooldown_rate))
    }

    /// Every field is required; the voter key must have 32 bytes.
    open spec fn of_fields(fs: Seq<Field>) -> Result<Delegation, SnapshotError> {
        if last_key(fs, 1) is Some && last_varint(fs, 2) is Some && last_varint(fs, 3) is Some
            && last_varint(fs, 4) is Some && last_fixed64(fs, 5) is Some {
            Ok(
                Delegation {
                    voter_pubkey: last_key(fs, 1)->Some_0,
                    stake: last_varint(fs, 2)->Some_0,
                    activation_epoch: last_varint(fs, 3)->Some_0,
                    deactivation_epoch: last_varint(fs, 4)->Some_0,
                    warmup_cooldown_rate: last_fixed64(fs, 5)->Some_0,
                },
            )
        } else {
            Err(SnapshotError::MalformedSnapshot)
        }
    }

    open spec fn valid(m: Delegation) -> bool {
        true
    }

    open spec fn encodable(m: Delegation) -> bool {
        true
    }

    open spec fn fits(m: Delegation) -> bool {
        true
    }

    fn encode(&self) -> (r: Result<Vec<u8>, SnapshotError>) {
        broadcast use lemma_fields_bytes_push;

        let mut out: Vec<u8> = Vec::new();
        put_key_field(&mut out, 1, &self.voter_pubkey);
        put_varint_field(&mut out, 2, self.stake);
        put_varint_field(&mut out, 3, self.activation_epoch);
        put_varint_field(&mut out, 4, self.deactivation_epoch);
        put_fixed64_field(&mut out, 5, self.warmup_cooldown_rate);
        assert(fields_bytes(Seq::<Field>::empty()) =~= Seq::<u8>::empty());
        assert(out@ =~= fields_bytes(Self::fields(self@)));
        Ok(out)
    }

    fn from_record(rec: &Record) -> (r: Result<Delegation, SnapshotError>) {
        let voter_pubkey = required(get_key(rec, 1))?;
        let stake = required(rec.varint(2))?;
        let activation_epoch = required(rec.varint(3))?;
        let deactivation_epoch = required(rec.varint(4))?;
        let warmup_cooldown_rate = required(rec.fixed64(5))?;
        Ok(
            Delegation {
                voter_pubkey,
                stake,
                activation_epoch,
                deactivation_epoch,
                warmup_cooldown_rate,
            },
        )
    }

    proof fn lemma_fields_round_trip(m: Delegation) {
        broadcast use lemma_matching_push, lemma_matching_empty;

        lemma_key_round_trip(m.voter_pubkey);
    }

    open spec fn can_fail_with(e: SnapshotError) -> bool {
        e == SnapshotError::MalformedSnapshot
    }

    proof fn lemma_error_kinds(fs: Seq<Field>) {
    }

    proof fn lemma_decoded_valid(fs: Seq<Field>) {
    }
}

impl Codec for DelegationEntry {
    open spec fn kind_of(number: u32) -> Option<Kind> {
        if number == 1 || number == 2 {
            Some(Kind::Bytes)
        } else {
            None
        }
    }

    fn kind(number: u32) -> (k: Option<Kind>) {
        if number == 1 || number == 2 {
            Some(Kind::Bytes)
        } else {
            None
        }
    }

    open spec fn fields(m: DelegationEntry) -> Seq<Field> {
        Seq::empty().push(bytes_field(1, m.pubkey.bytes())).push(
            bytes_field(2, wire::<Delegation>(m.delegation)),
        )
    }

    /// Both fields are required; the key must have 32 bytes.
    open spec fn of_fields(fs: Seq<Field>) -> Result<DelegationEntry, SnapshotError> {
        if last_key(fs, 1) is None {
            Err(SnapshotError::MalformedSnapshot)
        } else {
            match nested::<Delegation>(fs, 2) {
                Ok(d) => Ok(DelegationEntry { pubkey: last_key(fs, 1)->Some_0, delegation: d }),
                Err(e) => Err(e),
            }
        }
    }

    open spec fn valid(m: DelegationEntry) -> bool {
        Delegation::valid(m.delegation)
    }

    open spec fn encodable(m: DelegationEntry) -> bool {
        Delegation::encodable(m.delegation)
    }

    open spec fn fits(m: DelegationEntry) -> bool {
        nested_fits::<Delegation>(m.delegation)
    }

    fn encode(&self) -> (r: Result<Vec<u8>, SnapshotError>) {
        broadcast use lemma_fields_bytes_push;

        let mut out: Vec<u8> = Vec::new();
        put_key_field(&mut out, 1, &self.pubkey);
        put_nested(&mut out, 2, &self.delegation)?;
        assert(fields_bytes(Seq::<Field>::empty()) =~= Seq::<u8>::empty());
        assert(out@ =~= fields_bytes(Self::fields(self@)));
        Ok(out)
    }

    fn from_record(rec: &Record) -> (r: Result<DelegationEntry, SnapshotError>) {
        let pubkey = required(get_key(rec, 1))?;
        let delegation = get_nested::<Delegation>(rec, 2)?;
        Ok(DelegationEntry { pubkey, delegation })
    }

    proof fn lemma_fields_round_trip(m: DelegationEntry) {
        broadcast use lemma_matching_push, lemma_matching_empty;

        lemma_key_round_trip(m.pubkey);
        lemma_round_trip::<Delegation>(m.delegation);
    }

    open spec fn can_fail_with(e: SnapshotError) -> bool {
        e == SnapshotError::MalformedSnapshot
    }

    proof fn lemma_error_kinds(fs: Seq<Field>) {
        lemma_nested_errors::<Delegation>(fs, 2);
    }

    proof fn lemma_decoded_valid(fs: Seq<Field>) {
        lemma_parsed_valid::<Delegation>(last_bytes(fs, 2)->Some_0);
    }
}

impl Keyed for DelegationEntry {
    open spec fn key_of(m: DelegationEntry) -> Key {
        m.pubkey
    }

    fn key(&self) -> (k: Key) {
        self.pubkey
    }
}

impl Codec for StakeHistoryRecord {
    open spec fn kind_of(number: u32) -> Option<Kind> {
        if (1 <= number && number <= 4) {
            Some(Kind::Varint)
        } else {
            None
        }
    }

    fn kind(number: u32) -> (k: Option<Kind>) {
        if (1 <= number && number <= 4) {
            Some(Kind::Varint)
        } else {
            None
        }
    }

    open spec fn fields(m: StakeHistoryRecord) -> Seq<Field> {
        Seq::empty()
            .push(varint_field(1, m.epoch))
            .push(varint_field(2, m.effective))
            .push(varint_field(3, m.activating))
            .push(varint_field(4, m.deactivating))
    }

    /// Every field is required.
    open spec fn of_fields(fs: Seq<Field>) -> Result<StakeHistoryRecord, SnapshotError> {
        if last_varint(fs, 1) is Some && last_varint(fs, 2) is Some && last_varint(fs, 3) is Some
            && last_varint(fs, 4) is Some {
            Ok(
                StakeHistoryRecord {
                    epoch: last_varint(fs, 1)->Some_0,
                    effective: last_varint(fs, 2)->Some_0,
                    activating: last_varint(fs, 3)->Some_0,
                    deactivating: last_varint(fs, 4)->Some_0,
                },
            )
        } else {
            Err(SnapshotError::MalformedSnapshot)
        }
    }

    open spec fn valid(m: StakeHistoryRecord) -> bool {
        true
    }

    open spec fn encodable(m: StakeHistoryRecord) -> bool {
        true
    }

    open spec fn fits(m: StakeHistoryRecord) -> bool {
        true
    }

    fn encode(&self) -> (r: Result<Vec<u8>, SnapshotError>) {
        broadcast use lemma_fields_bytes_push;

        let mut out: Vec<u8> = Vec::new();
        put_varint_field(&mut out, 1, self.epoch);
        put_varint_field(&mut out, 2, self.effective);
        put_varint_field(&mut out, 3, self.activating);
        put_varint_field(&mut out, 4, self.deactivating);
        assert(fields_bytes(Seq::<Field>::empty()) =~= Seq::<u8>::empty());
        assert(out@ =~= fields_bytes(Self::fields(self@)));
        Ok(out)
    }

    fn from_record(rec: &Record) -> (r: Result<StakeHistoryRecord, SnapshotError>) {
        let epoch = required(rec.varint(1))?;
        let effective = required(rec.varint(2))?;
        let activating = required(rec.varint(3))?;
        let deactivating = required(rec.varint(4))?;
        Ok(StakeHistoryRecord { epoch, effective, activating, deactivating })
    }

    proof fn lemma_fields_round_trip(m: StakeHistoryRecord) {
        broadcast use lemma_matching_push, lemma_matching_empty;

    }

    open spec fn can_fail_with(e: SnapshotError) -> bool {
        e == SnapshotError::MalformedSnapshot
    }

    proof fn lemma_error_kinds(fs: Seq<Field>) {
    }

    proof fn lemma_decoded_valid(fs: Seq<Field>) {
    }
}

impl Keyed for StakeHistoryRecord {
    open spec fn key_of(m: StakeHistoryRecord) -> Key {
        number_key(m.epoch)
    }

    fn key(&self) -> (k: Key) {
        Key::from_number(self.epoch)
    }
}

impl Codec for VoteAccountEntry {
    open spec fn kind_of(number: u32) -> Option<Kind> {
        if number == 2 {
            Some(Kind::Varint)
        } else if number == 1 || number == 3 {
            Some(Kind::Bytes)
        } else {
            None
        }
    }

    fn kind(number: u32) -> (k: Option<Kind>) {
        if number == 2 {
            Some(Kind::Varint)
        } else if number == 1 || number == 3 {
            Some(Kind::Bytes)
        } else {
            None
        }
    }

    open spec fn fields(m: VoteAccountEntryView) -> Seq<Field> {
        Seq::empty()
            .push(bytes_field(1, m.pubkey.bytes()))
            .push(varint_field(2, m.stake))
            .push(bytes_field(3, wire::<Account>(m.vote_account)))
    }

    /// Every field is required; the key must have 32 bytes.
    open spec fn of_fields(fs: Seq<Field>) -> Result<VoteAccountEntryView, SnapshotError> {
        if last_key(fs, 1) is None || last_varint(fs, 2) is None {
            Err(SnapshotError::MalformedSnapshot)
        } else {
            match nested::<Account>(fs, 3) {
                Ok(a) => Ok(
                    VoteAccountEntryView {
                        pubkey: last_key(fs, 1)->Some_0,
                        stake: last_varint(fs, 2)->Some_0,
                        vote_account: a,
                    },
                ),
                Err(e) => Err(e),
            }
        }
    }

    open spec fn valid(m: VoteAccountEntryView) -> bool {
        Account::valid(m.vote_account)
    }

    open spec fn encodable(m: VoteAccountEntryView) -> bool {
        Account::encodable(m.vote_account)
    }

    open spec fn fits(m: VoteAccountEntryView) -> bool {
        nested_fits::<Account>(m.vote_account)
    }

    fn encode(&self) -> (r: Result<Vec<u8>, SnapshotError>) {
        broadcast use lemma_fields_bytes_push;

        let mut out: Vec<u8> = Vec::new();
        put_key_field(&mut out, 1, &self.pubkey);
        put_varint_field(&mut out, 2, self.stake);
        put_nested(&mut out, 3, &self.vote_account)?;
        assert(fields_bytes(Seq::<Field>::empty()) =~= Seq::<u8>::empty());
        assert(out@ =~= fields_bytes(Self::fields(self@)));
        Ok(out)
    }

    fn from_record(rec: &Record) -> (r: Result<VoteAccountEntry, SnapshotError>) {
        let pubkey = required(get_key(rec, 1))?;
        let stake = required(rec.varint(2))?;
        let vote_account = get_nested::<Account>(rec, 3)?;
        Ok(VoteAccountEntry { pubkey, stake, vote_account })
    }

    proof fn lemma_fields_round_trip(m: VoteAccountEntryView) {
        broadcast use lemma_matching_push, lemma_matching_empty;

        lemma_key_round_trip(m.pubkey);
        lemma_round_trip::<Account>(m.vote_account);
    }

    open spec fn can_fail_with(e: SnapshotError) -> bool {
        e == SnapshotError::MalformedSnapshot
    }

    proof fn lemma_error_kinds(fs: Seq<Field>) {
        lemma_nested_errors::<Account>(fs, 3);
    }

    proof fn lemma_decoded_valid(fs: Seq<Field>) {
        lemma_parsed_valid::<Account>(last_bytes(fs, 3)->Some_0);
    }
}

impl Keyed for VoteAccountEntry {
    open spec fn key_of(m: VoteAccountEntryView) -> Key {
        m.pubkey
    }

    fn key(&self) -> (k: Key) {
        self.pubkey
    }
}

impl Codec for Stakes {
    open spec fn kind_of(number: u32) -> Option<Kind> {
        if number == 1 {
            Some(Kind::Varint)
        } else if (2 <= number && number <= 4) {
            Some(Kind::Bytes)
        } else {
            None
        }
    }

    fn kind(number: u32) -> (k: Option<Kind>) {
        if number == 1 {
            Some(Kind::Varint)
        } else if (2 <= number && number <= 4) {
            Some(Kind::Bytes)
        } else {
            None
        }
    }

    open spec fn fields(m: StakesView) -> Seq<Field> {
        Seq::empty().push(varint_field(1, m.epoch)) + repeated_bytes(
            2,
            wires::<VoteAccountEntry>(m.vote_accounts),
        ) + repeated_bytes(3, wires::<DelegationEntry>(m.stake_delegations)) + repeated_bytes(
            4,
            wires::<StakeHistoryRecord>(m.stake_history),
        )
    }

    /// The epoch is required. Every entry of the three sequences must decode,
    /// and within each sequence no key may occur twice.
    open spec fn of_fields(fs: Seq<Field>) -> Result<StakesView, SnapshotError> {
        if last_varint(fs, 1) is None {
            Err(SnapshotError::MalformedSnapshot)
        } else {
            match parse_all::<VoteAccountEntry>(all_bytes(fs, 2)) {
                Err(e) => Err(e),
                Ok(votes) => match parse_all::<DelegationEntry>(all_bytes(fs, 3)) {
                    Err(e) => Err(e),
                    Ok(delegations) => match parse_all::<StakeHistoryRecord>(all_bytes(fs, 4)) {
                        Err(e) => Err(e),
                        Ok(history) => if distinct::<VoteAccountEntry>(votes) && distinct::<
                            DelegationEntry,
                        >(delegations) && distinct::<StakeHistoryRecord>(history) {
                            Ok(
                                StakesView {
                                    epoch: last_varint(fs, 1)->Some_0,
                                    vote_accounts: votes,
                                    stake_delegations: delegations,
                                    stake_history: history,
                                },
                            )
                        } else {
                            Err(SnapshotError::MalformedSnapshot)
                        },
                    },
                },
            }
        }
    }

    open spec fn valid(m: StakesView) -> bool {
        &&& all_valid::<VoteAccountEntry>(m.vote_accounts)
        &&& all_valid::<DelegationEntry>(m.stake_delegations)
        &&& all_valid::<StakeHistoryRecord>(m.stake_history)
        &&& distinct::<VoteAccountEntry>(m.vote_accounts)
        &&& distinct::<DelegationEntry>(m.stake_delegations)
        &&& distinct::<StakeHistoryRecord>(m.stake_history)
    }

    open spec fn encodable(m: StakesView) -> bool {
        &&& all_encodable::<VoteAccountEntry>(m.vote_accounts)
        &&& all_encodable::<DelegationEntry>(m.stake_delegations)
        &&& all_encodable::<StakeHistoryRecord>(m.stake_history)
    }

    open spec fn fits(m: StakesView) -> bool {
        &&& all_fit::<VoteAccountEntry>(m.vote_accounts)
        &&& all_fit::<DelegationEntry>(m.stake_delegations)
        &&& all_fit::<StakeHistoryRecord>(m.stake_history)
    }

    fn encode(&self) -> (r: Result<Vec<u8>, SnapshotError>) {
        broadcast use lemma_fields_bytes_push;

        let mut out: Vec<u8> = Vec::new();
        put_varint_field(&mut out, 1, self.epoch);
        put_all(&mut out, 2, &self.vote_accounts)?;
        put_all(&mut out, 3, &self.stake_delegations)?;
        put_all(&mut out, 4, &self.stake_history)?;
        proof {
            let m = self@;
            let a = Seq::<Field>::empty().push(varint_field(1, m.epoch));
            let r2 = repeated_bytes(2, wires::<VoteAccountEntry>(m.vote_accounts));
            let r3 = repeated_bytes(3, wires::<DelegationEntry>(m.stake_delegations));
            let r4 = repeated_bytes(4, wires::<StakeHistoryRecord>(m.stake_history));
            assert(fields_bytes(Seq::<Field>::empty()) =~= Seq::<u8>::empty());
            lemma_fields_bytes_concat(a, r2);
            lemma_fields_bytes_concat(a + r2, r3);
            lemma_fields_bytes_concat(a + r2 + r3, r4);
            assert(out@ =~= fields_bytes(Self::fields(m)));
        }
        Ok(out)
    }

    fn from_record(rec: &Record) -> (r: Result<Stakes, SnapshotError>) {
        let epoch = required(rec.varint(1))?;
        let vote_accounts = get_all::<VoteAccountEntry>(rec, 2)?;
        let stake_delegations = get_all::<DelegationEntry>(rec, 3)?;
        let stake_history = get_all::<StakeHistoryRecord>(rec, 4)?;
        if has_distinct_keys(&vote_accounts) && has_distinct_keys(&stake_delegations)
            && has_distinct_keys(&stake_history) {
            Ok(Stakes { epoch, vote_accounts, stake_delegations, stake_history })
        } else {
            Err(SnapshotError::MalformedSnapshot)
        }
    }

    proof fn lemma_fields_round_trip(m: StakesView) {
        broadcast use lemma_matching_push, lemma_matching_empty, lemma_matching_after_bytes;

        let a = Seq::<Field>::empty().push(varint_field(1, m.epoch));
        let w2 = wires::<VoteAccountEntry>(m.vote_accounts);
        let w3 = wires::<DelegationEntry>(m.stake_delegations);
        let w4 = wires::<StakeHistoryRecord>(m.stake_history);
        let fs = Self::fields(m);
        lemma_repeated_bytes_ok(2, w2);
        lemma_repeated_bytes_ok(3, w3);
        lemma_repeated_bytes_ok(4, w4);
        assert(fields_ok(a));
        lemma_fields_ok_concat(a, repeated_bytes(2, w2));
        lemma_fields_ok_concat(a + repeated_bytes(2, w2), repeated_bytes(3, w3));
        lemma_fields_ok_concat(
            a + repeated_bytes(2, w2) + repeated_bytes(3, w3),
            repeated_bytes(4, w4),
        );
        assert(all_bytes(fs, 2) =~= w2);
        assert(all_bytes(fs, 3) =~= w3);
        assert(all_bytes(fs, 4) =~= w4);
        lemma_parse_all_round_trip::<VoteAccountEntry>(m.vote_accounts);
        lemma_parse_all_round_trip::<DelegationEntry>(m.stake_delegations);
        lemma_parse_all_round_trip::<StakeHistoryRecord>(m.stake_history);
    }

    open spec fn can_fail_with(e: SnapshotError) -> bool {
        e == SnapshotError::MalformedSnapshot
    }

    proof fn lemma_error_kinds(fs: Seq<Field>) {
        lemma_parse_all_errors::<VoteAccountEntry>(all_bytes(fs, 2));
        lemma_parse_all_errors::<DelegationEntry>(all_bytes(fs, 3));
        lemma_parse_all_errors::<StakeHistoryRecord>(all_bytes(fs, 4));
    }

    proof fn lemma_decoded_valid(fs: Seq<Field>) {
        lemma_parse_all_ok::<VoteAccountEntry>(all_bytes(fs, 2));
        lemma_parse_all_ok::<DelegationEntry>(all_bytes(fs, 3));
        lemma_parse_all_ok::<StakeHistoryRecord>(all_bytes(fs, 4));
    }
}

/// Key length: a voter key that is not 32 bytes long makes the record a
/// malformed snapshot.
pub proof fn lemma_delegation_key_length(fs: Seq<Field>)
    requires
        wrong_length(fs, 1),
    ensures
        Delegation::of_fields(fs) == Err::<Delegation, SnapshotError>(
            SnapshotError::MalformedSnapshot,
        ),
{
}

/// Key length: a stake account key that is not 32 bytes long makes the record a
/// malformed snapshot.
pub proof fn lemma_delegation_entry_key_length(fs: Seq<Field>)
    requires
        wrong_length(fs, 1),
    ensures
        DelegationEntry::of_fields(fs) == Err::<DelegationEntry, SnapshotError>(
            SnapshotError::MalformedSnapshot,
        ),
{
}

/// Key length: a vote account key that is not 32 bytes long makes the record a
/// malformed snapshot.
pub proof fn lemma_vote_entry_key_length(fs: Seq<Field>)
    requires
        wrong_length(fs, 1),
    ensures
        VoteAccountEntry::of_fields(fs) == Err::<VoteAccountEntryView, SnapshotError>(
            SnapshotError::MalformedSnapshot,
        ),
{
}

/// The stake delegated to one vote account.
#[derive(Clone, Copy, Debug, PartialEq, Eq)]
pub struct VoterStake {
    pub voter: Key,
    pub stake: u128,
}

/// The total stake that the delegations give to `voter`.
pub open spec fn delegated_stake(ds: Seq<DelegationEntry>, voter: Key) -> nat
    decreases ds.len(),
{
    if ds.len() == 0 {
        0
    } else {
        let last = ds.last().delegation;
        delegated_stake(ds.drop_last(), voter) + if last.voter_pubkey == voter {
            last.stake as nat
        } else {
            0
        }
    }
}

/// For each vote account of the bundle, in order, the total stake that the
/// delegations of the bundle give to it. This view is derived from the two
/// keyed sequences alone and is never written to a snapshot.
pub open spec fn voter_stakes_of(m: StakesView) -> Seq<VoterStake> {
    Seq::new(
        m.vote_accounts.len(),
        |i: int|
            VoterStake {
                voter: m.vote_accounts[i].pubkey,
                stake: delegated_stake(m.stake_delegations, m.vote_accounts[i].pubkey) as u128,
            },
    )
}

/// No delegation gives more than 64 bits of stake, so a total stays within
/// 128 bits.
pub proof fn lemma_delegated_stake_bound(ds: Seq<DelegationEntry>, voter: Key)
    ensures
        delegated_stake(ds, voter) <= ds.len() * u64::MAX,
    decreases ds.len(),
{
    if ds.len() > 0 {
        lemma_delegated_stake_bound(ds.drop_last(), voter);
        assert((ds.len() - 1) * u64::MAX + u64::MAX == ds.len() * u64::MAX) by (nonlinear_arith);
    }
}

impl Stakes {
    /// The total stake that the delegations of the bundle give to `voter`.
    pub fn delegated_to(&self, voter: &Key) -> (total: u128)
        ensures
            total == delegated_stake(self@.stake_delegations, *voter),
    {
        let ghost ds = self@.stake_delegations;
        let n: usize = self.stake_delegations.len();
        let mut total: u128 = 0;
        let mut i: usize = 0;
        assert(ds.take(0) =~= Seq::<DelegationEntry>::empty());
        while i < n
            invariant
                n == self.stake_delegations@.len(),
                ds == self@.stake_delegations,
                i <= n,
                total == delegated_stake(ds.take(i as int), *voter),
            decreases n - i,
        {
            let entry = self.stake_delegations[i];
            proof {
                assert(ds.take(i + 1).drop_last() =~= ds.take(i as int));
                assert(ds.take(i + 1).last() == entry);
                lemma_delegated_stake_bound(ds.take(i + 1), *voter);
                assert((i + 1) * u64::MAX <= u128::MAX) by (nonlinear_arith)
                    requires
                        i + 1 <= usize::MAX,
                        usize::MAX <= u64::MAX,
                ;
            }
            if entry.delegation.voter_pubkey == *voter {
                total = total + entry.delegation.stake as u128;
            }
            i = i + 1;
        }
        assert(ds.take(n as int) =~= ds);
        total
    }

    /// For each vote account, in order, the total stake delegated to it.
    pub fn voter_stakes(&self) -> (index: Vec<VoterStake>)
        ensures
            index@ == voter_stakes_of(self@),
    {
        let n: usize = self.vote_accounts.len();
        let mut index: Vec<VoterStake> = Vec::new();
        let mut i: usize = 0;
        while i < n
            invariant
                n == self.vote_accounts@.len(),
                i <= n,
                index@ == voter_stakes_of(self@).take(i as int),
            decreases n - i,
        {
            let voter = self.vote_accounts[i].pubkey;
            let stake = self.delegated_to(&voter);
            index.push(VoterStake { voter, stake });
            assert(index@ =~= voter_stakes_of(self@).take(i + 1));
            i = i + 1;
        }
        assert(voter_stakes_of(self@).take(n as int) =~= voter_stakes_of(self@));
        index
    }
}

/// Duplicate keys: a stake bundle in which a key occurs twice among the
/// vote accounts, among the delegations or among the history is a malformed
/// snapshot, whatever else it holds.
pub proof fn lemma_stakes_duplicate_refused(fs: Seq<Field>)
    requires
        ({
            let votes = parse_all::<VoteAccountEntry>(all_bytes(fs, 2));
            let delegations = parse_all::<DelegationEntry>(all_bytes(fs, 3));
            let history = parse_all::<StakeHistoryRecord>(all_bytes(fs, 4));
            ||| votes is Ok && !distinct::<VoteAccountEntry>(votes->Ok_0)
            ||| delegations is Ok && !distinct::<DelegationEntry>(delegations->Ok_0)
            ||| history is Ok && !distinct::<StakeHistoryRecord>(history->Ok_0)
        }),
    ensures
        Stakes::of_fields(fs) == Err::<StakesView, SnapshotError>(SnapshotError::MalformedSnapshot),
{
    lemma_parse_all_errors::<VoteAccountEntry>(all_bytes(fs, 2));
    lemma_parse_all_errors::<DelegationEntry>(all_bytes(fs, 3));
    lemma_parse_all_errors::<StakeHistoryRecord>(all_bytes(fs, 4));
}

} // verus!
