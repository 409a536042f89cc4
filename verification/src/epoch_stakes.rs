//! The stakes retained for one epoch.

use crate::codec::{
    all_encodable, all_fit, all_valid, distinct, get_all, get_nested, has_distinct_keys,
    lemma_nested_errors, lemma_parse_all_errors, lemma_parse_all_ok, lemma_parse_all_round_trip,
    lemma_parsed_valid, lemma_round_trip, models, nested, nested_fits, parse_all, put_all,
    put_nested, wire, wires, Codec, Keyed,
};
use crate::error::SnapshotError;
use crate::key::{
    get_key, get_keys, keys_bytes, keys_of_wire, last_key, lemma_key_round_trip,
    lemma_keys_round_trip, lemma_keys_wrong_length, number_key, put_key_field, put_keys,
    wrong_length, Key,
};
use crate::reader::Record;
use crate::repeat::{distinct_keys, lemma_matching_after_bytes, lemma_repeated_bytes_ok};
use crate::scalar::required;
use crate::stakes::{Stakes, StakesView};
use crate::wire::{
    all_bytes, bytes_field, fields_bytes, fields_ok, last_bytes, last_varint,
    lemma_fields_bytes_concat, lemma_fields_bytes_push, lemma_fields_ok_concat,
    lemma_matching_empty, lemma_matching_push, repeated_bytes, varint_field, Field, Kind,
};
use crate::writer::put_varint_field;
use vstd::prelude::*;

verus! {

/// The vote accounts of one validator node and their total stake.
#[derive(Clone, Debug, PartialEq, Eq)]
pub struct NodeVoteAccountsEntry {
    pub node_id: Key,
    pub total_stake: u64,
    /// A set: the order of the keys carries no meaning, and no key occurs
    /// twice.
    pub vote_accounts: Vec<Key>,
}

/// The mathematical content of a [`NodeVoteAccountsEntry`].
pub struct NodeVoteAccountsEntryView {
    pub node_id: Key,
    pub total_stake: u64,
    pub vote_accounts: Seq<Key>,
}

/// The key that is authorized to vote for a vote account in one epoch.
#[derive(Clone, Copy, Debug, PartialEq, Eq)]
pub struct EpochAuthorizedVoter {
    pub vote_account: Key,
    pub authorized_voter: Key,
}

/// The stakes of one epoch: the total, the stake bundle, the vote accounts
/// of each node (keyed by node) and the authorized voter of each vote
/// account (keyed by vote account).
#[derive(Clone, Debug, PartialEq, Eq)]
pub struct EpochStake {
    pub epoch: u64,
    pub total_stake: u64,
    pub stakes: Stakes,
    pub node_id_to_vote_accounts: Vec<NodeVoteAccountsEntry>,
    pub epoch_authorized_voters: Vec<EpochAuthorizedVoter>,
}

/// The mathematical content of an [`EpochStake`].
pub struct EpochStakeView {
    pub epoch: u64,
    pub total_stake: u64,
    pub stakes: StakesView,
    pub node_id_to_vote_accounts: Seq<NodeVoteAccountsEntryView>,
    pub epoch_authorized_voters: Seq<EpochAuthorizedVoter>,
}

impl View for NodeVoteAccountsEntry {
    type V = NodeVoteAccountsEntryView;

    open spec fn view(&self) -> NodeVoteAccountsEntryView {
        NodeVoteAccountsEntryView {
            node_id: self.node_id,
            total_stake: self.total_stake,
            vote_accounts: self.vote_accounts@,
        }
    }
}

impl View for EpochAuthorizedVoter {
    type V = EpochAuthorizedVoter;

    open spec fn view(&self) -> EpochAuthorizedVoter {
        *self
    }
}

impl View for EpochStake {
    type V = EpochStakeView;

    open spec fn view(&self) -> EpochStakeView {
        EpochStakeView {
            epoch: self.epoch,
            total_stake: self.total_stake,
            stakes: self.stakes@,
            node_id_to_vote_accounts: models(self.node_id_to_vote_accounts@),
            epoch_authorized_voters: models(self.epoch_authorized_voters@),
        }
    }
}

impl Codec for NodeVoteAccountsEntry {
    open spec fn kind_of(number: u32) -> Option<Kind> {
        if number == 2 {
            Some(Kind::Varint)
        } else if number == 1 || number == 3 {
            Some(Kind::Bytes)
        } else {
            None
        }
    }

    fn kind(number: u32) -> (k: Option<Kind>) {
        if number == 2 {
            Some(Kind::Varint)
        } else if number == 1 || number == 3 {
            Some(Kind::Bytes)
        } else {
            None
        }
    }

    open spec fn fields(m: NodeVoteAccountsEntryView) -> Seq<Field> {
        Seq::empty().push(bytes_field(1, m.node_id.bytes())).push(varint_field(2, m.total_stake))
            + repeated_bytes(3, keys_bytes(m.vote_accounts))
    }

    /// Node and total are required; every key must have 32 bytes, and no
    /// vote account may occur twice.
    open spec fn of_fields(fs: Seq<Field>) -> Result<NodeVoteAccountsEntryView, SnapshotError> {
        if last_key(fs, 1) is Some && last_varint(fs, 2) is Some && keys_of_wire(all_bytes(fs, 3))
            is Some && keys_of_wire(all_bytes(fs, 3))->Some_0.no_duplicates() {
            Ok(
                NodeVoteAccountsEntryView {
                    node_id: last_key(fs, 1)->Some_0,
                    total_stake: last_varint(fs, 2)->Some_0,
                    vote_accounts: keys_of_wire(all_bytes(fs, 3))->Some_0,
                },
            )
        } else {
            Err(SnapshotError::MalformedSnapshot)
        }
    }

    open spec fn valid(m: NodeVoteAccountsEntryView) -> bool {
        m.vote_accounts.no_duplicates()
    }

    open spec fn encodable(m: NodeVoteAccountsEntryView) -> bool {
        true
    }

    open spec fn fits(m: NodeVoteAccountsEntryView) -> bool {
        true
    }

    fn encode(&self) -> (r: Result<Vec<u8>, SnapshotError>) {
        broadcast use lemma_fields_bytes_push;

        let mut out: Vec<u8> = Vec::new();
        put_key_field(&mut out, 1, &self.node_id);
        put_varint_field(&mut out, 2, self.total_stake);
        put_keys(&mut out, 3, &self.vote_accounts);
        proof {
            let m = self@;
            let a = Seq::<Field>::empty().push(bytes_field(1, m.node_id.bytes())).push(
                varint_field(2, m.total_stake),
            );
            assert(fields_bytes(Seq::<Field>::empty()) =~= Seq::<u8>::empty());
            lemma_fields_bytes_concat(a, repeated_bytes(3, keys_bytes(m.vote_accounts)));
            assert(out@ =~= fields_bytes(Self::fields(m)));
        }
        Ok(out)
    }

    fn from_record(rec: &Record) -> (r: Result<NodeVoteAccountsEntry, SnapshotError>) {
        let node_id = required(get_key(rec, 1))?;
        let total_stake = required(rec.varint(2))?;
        let vote_accounts = required(get_keys(rec, 3))?;
        if !distinct_keys(&vote_accounts) {
            return Err(SnapshotError::MalformedSnapshot);
        }
        Ok(NodeVoteAccountsEntry { node_id, total_stake, vote_accounts })
    }

    proof fn lemma_fields_round_trip(m: NodeVoteAccountsEntryView) {
        broadcast use lemma_matching_push, lemma_matching_empty, lemma_matching_after_bytes;

        let a = Seq::<Field>::empty().push(bytes_field(1, m.node_id.bytes())).push(
            varint_field(2, m.total_stake),
        );
        let w3 = keys_bytes(m.vote_accounts);
        let fs = Self::fields(m);
        lemma_key_round_trip(m.node_id);
        lemma_keys_round_trip(m.vote_accounts);
        lemma_repeated_bytes_ok(3, w3);
        assert(fields_ok(a));
        lemma_fields_ok_concat(a, repeated_bytes(3, w3));
        assert(all_bytes(fs, 3) =~= w3);
    }

    open spec fn can_fail_with(e: SnapshotError) -> bool {
        e == SnapshotError::MalformedSnapshot
    }

    proof fn lemma_error_kinds(fs: Seq<Field>) {
    }

    proof fn lemma_decoded_valid(fs: Seq<Field>) {
    }
}

impl Keyed for NodeVoteAccountsEntry {
    open spec fn key_of(m: NodeVoteAccountsEntryView) -> Key {
        m.node_id
    }

    fn key(&self) -> (k: Key) {
        self.node_id
    }
}

impl Codec for EpochAuthorizedVoter {
    open spec fn kind_of(number: u32) -> Option<Kind> {
        if number == 1 || number == 2 {
            Some(Kind::Bytes)
        } else {
            None
        }
    }

    fn kind(number: u32) -> (k: Option<Kind>) {
        if number == 1 || number == 2 {
            Some(Kind::Bytes)
        } else {
            None
        }
    }

    open spec fn fields(m: EpochAuthorizedVoter) -> Seq<Field> {
        Seq::empty().push(bytes_field(1, m.vote_account.bytes())).push(
            bytes_field(2, m.authorized_voter.bytes()),
        )
    }

    /// Both keys are required and must have 32 bytes.
    open spec fn of_fields(fs: Seq<Field>) -> Result<EpochAuthorizedVoter, SnapshotError> {
        if last_key(fs, 1) is Some && last_key(fs, 2) is Some {
            Ok(
                EpochAuthorizedVoter {
                    vote_account: last_key(fs, 1)->Some_0,
                    authorized_voter: last_key(fs, 2)->Some_0,
                },
            )
        } else {
            Err(SnapshotError::MalformedSnapshot)
        }
    }

    open spec fn valid(m: EpochAuthorizedVoter) -> bool {
        true
    }

    open spec fn encodable(m: EpochAuthorizedVoter) -> bool {
        true
    }

    open spec fn fits(m: EpochAuthorizedVoter) -> bool {
        true
    }

    fn encode(&self) -> (r: Result<Vec<u8>, SnapshotError>) {
        broadcast use lemma_fields_bytes_push;

        let mut out: Vec<u8> = Vec::new();
        put_key_field(&mut out, 1, &self.vote_account);
        put_key_field(&mut out, 2, &self.authorized_voter);
        assert(fields_bytes(Seq::<Field>::empty()) =~= Seq::<u8>::empty());
        assert(out@ =~= fields_bytes(Self::fields(self@)));
        Ok(out)
    }

    fn from_record(rec: &Record) -> (r: Result<EpochAuthorizedVoter, SnapshotError>) {
        let vote_account = required(get_key(rec, 1))?;
        let authorized_voter = required(get_key(rec, 2))?;
        Ok(EpochAuthorizedVoter { vote_account, authorized_voter })
    }

    proof fn lemma_fields_round_trip(m: EpochAuthorizedVoter) {
        broadcast use lemma_matching_push, lemma_matching_empty;

        lemma_key_round_trip(m.vote_account);
        lemma_key_round_trip(m.authorized_voter);
    }

    open spec fn can_fail_with(e: SnapshotError) -> bool {
        e == SnapshotError::MalformedSnapshot
    }

    proof fn lemma_error_kinds(fs: Seq<Field>) {
    }

    proof fn lemma_decoded_valid(fs: Seq<Field>) {
    }
}

impl Keyed for EpochAuthorizedVoter {
    open spec fn key_of(m: EpochAuthorizedVoter) -> Key {
        m.vote_account
    }

    fn key(&self) -> (k: Key) {
        self.vote_account
    }
}

impl Codec for EpochStake {
    open spec fn kind_of(number: u32) -> Option<Kind> {
        if number == 1 || number == 2 {
            Some(Kind::Varint)
        } else if (3 <= number && number <= 5) {
            Some(Kind::Bytes)
        } else {
            None
        }
    }

    fn kind(number: u32) -> (k: Option<Kind>) {
        if number == 1 || number == 2 {
            Some(Kind::Varint)
        } else if (3 <= number && number <= 5) {
            Some(Kind::Bytes)
        } else {
            None
        }
    }

    open spec fn fields(m: EpochStakeView) -> Seq<Field> {
        Seq::empty()
            .push(varint_field(1, m.epoch))
            .push(varint_field(2, m.total_stake))
            .push(bytes_field(3, wire::<Stakes>(m.stakes))) + repeated_bytes(
            4,
            wires::<NodeVoteAccountsEntry>(m.node_id_to_vote_accounts),
        ) + repeated_bytes(5, wires::<EpochAuthorizedVoter>(m.epoch_authorized_voters))
    }

    /// Epoch, total and stake bundle are required. The bundle is decoded
    /// first, then the nodes, then the voters; after that, a node or a vote
    /// account that occurs twice is a malformed snapshot.
    open spec fn of_fields(fs: Seq<Field>) -> Result<EpochStakeView, SnapshotError> {
        if last_varint(fs, 1) is None || last_varint(fs, 2) is None {
            Err(SnapshotError::MalformedSnapshot)
        } else {
            match nested::<Stakes>(fs, 3) {
                Err(e) => Err(e),
                Ok(stakes) => match parse_all::<NodeVoteAccountsEntry>(all_bytes(fs, 4)) {
                    Err(e) => Err(e),
                    Ok(nodes) => match parse_all::<EpochAuthorizedVoter>(all_bytes(fs, 5)) {
                        Err(e) => Err(e),
                        Ok(voters) => if distinct::<NodeVoteAccountsEntry>(nodes) && distinct::<
                            EpochAuthorizedVoter,
                        >(voters) {
                            Ok(
                                EpochStakeView {
                                    epoch: last_varint(fs, 1)->Some_0,
                                    total_stake: last_varint(fs, 2)->Some_0,
                                    stakes,
                                    node_id_to_vote_accounts: nodes,
                                    epoch_authorized_voters: voters,
                                },
                            )
                        } else {
                            Err(SnapshotError::MalformedSnapshot)
                        },
                    },
                },
            }
        }
    }

    open spec fn valid(m: EpochStakeView) -> bool {
        &&& Stakes::valid(m.stakes)
        &&& all_valid::<NodeVoteAccountsEntry>(m.node_id_to_vote_accounts)
        &&& all_valid::<EpochAuthorizedVoter>(m.epoch_authorized_voters)
        &&& distinct::<NodeVoteAccountsEntry>(m.node_id_to_vote_accounts)
        &&& distinct::<EpochAuthorizedVoter>(m.epoch_authorized_voters)
    }

    open spec fn encodable(m: EpochStakeView) -> bool {
        &&& Stakes::encodable(m.stakes)
        &&& all_encodable::<NodeVoteAccountsEntry>(m.node_id_to_vote_accounts)
        &&& all_encodable::<EpochAuthorizedVoter>(m.epoch_authorized_voters)
    }

    open spec fn fits(m: EpochStakeView) -> bool {
        &&& nested_fits::<Stakes>(m.stakes)
        &&& all_fit::<NodeVoteAccountsEntry>(m.node_id_to_vote_accounts)
        &&& all_fit::<EpochAuthorizedVoter>(m.epoch_authorized_voters)
    }

    fn encode(&self) -> (r: Result<Vec<u8>, SnapshotError>) {
        broadcast use lemma_fields_bytes_push;

        let mut out: Vec<u8> = Vec::new();
        put_varint_field(&mut out, 1, self.epoch);
        put_varint_field(&mut out, 2, self.total_stake);
        put_nested(&mut out, 3, &self.stakes)?;
        put_all(&mut out, 4, &self.node_id_to_vote_accounts)?;
        put_all(&mut out, 5, &self.epoch_authorized_voters)?;
        proof {
            let m = self@;
            let a = Seq::<Field>::empty()
                .push(varint_field(1, m.epoch))
                .push(varint_field(2, m.total_stake))
                .push(bytes_field(3, wire::<Stakes>(m.stakes)));
            let r4 = repeated_bytes(4, wires::<NodeVoteAccountsEntry>(m.node_id_to_vote_accounts));
            let r5 = repeated_bytes(5, wires::<EpochAuthorizedVoter>(m.epoch_authorized_voters));
            assert(fields_bytes(Seq::<Field>::empty()) =~= Seq::<u8>::empty());
            lemma_fields_bytes_concat(a, r4);
            lemma_fields_bytes_concat(a + r4, r5);
            assert(out@ =~= fields_bytes(Self::fields(m)));
        }
        Ok(out)
    }

    fn from_record(rec: &Record) -> (r: Result<EpochStake, SnapshotError>) {
        let epoch = required(rec.varint(1))?;
        let total_stake = required(rec.varint(2))?;
        let stakes = get_nested::<Stakes>(rec, 3)?;
        let node_id_to_vote_accounts = get_all::<NodeVoteAccountsEntry>(rec, 4)?;
        let epoch_authorized_voters = get_all::<EpochAuthorizedVoter>(rec, 5)?;
        if has_distinct_keys(&node_id_to_vote_accounts) && has_distinct_keys(
            &epoch_authorized_voters,
        ) {
            Ok(
                EpochStake {
                    epoch,
                    total_stake,
                    stakes,
                    node_id_to_vote_accounts,
                    epoch_authorized_voters,
                },
            )
        } else {
            Err(SnapshotError::MalformedSnapshot)
        }
    }

    proof fn lemma_fields_round_trip(m: EpochStakeView) {
        broadcast use lemma_matching_push, lemma_matching_empty, lemma_matching_after_bytes;

        let a = Seq::<Field>::empty()
            .push(varint_field(1, m.epoch))
            .push(varint_field(2, m.total_stake))
            .push(bytes_field(3, wire::<Stakes>(m.stakes)));
        let w4 = wires::<NodeVoteAccountsEntry>(m.node_id_to_vote_accounts);
        let w5 = wires::<EpochAuthorizedVoter>(m.epoch_authorized_voters);
        let fs = Self::fields(m);
        lemma_repeated_bytes_ok(4, w4);
        lemma_repeated_bytes_ok(5, w5);
        assert(fields_ok(a));
        lemma_fields_ok_concat(a, repeated_bytes(4, w4));
        lemma_fields_ok_concat(a + repeated_bytes(4, w4), repeated_bytes(5, w5));
        assert(all_bytes(fs, 4) =~= w4);
        assert(all_bytes(fs, 5) =~= w5);
        lemma_round_trip::<Stakes>(m.stakes);
        lemma_parse_all_round_trip::<NodeVoteAccountsEntry>(m.node_id_to_vote_accounts);
        lemma_parse_all_round_trip::<EpochAuthorizedVoter>(m.epoch_authorized_voters);
    }

    open spec fn can_fail_with(e: SnapshotError) -> bool {
        e == SnapshotError::MalformedSnapshot
    }

    proof fn lemma_error_kinds(fs: Seq<Field>) {
        lemma_nested_errors::<Stakes>(fs, 3);
        lemma_parse_all_errors::<NodeVoteAccountsEntry>(all_bytes(fs, 4));
        lemma_parse_all_errors::<EpochAuthorizedVoter>(all_bytes(fs, 5));
    }

    proof fn lemma_decoded_valid(fs: Seq<Field>) {
        lemma_parsed_valid::<Stakes>(last_bytes(fs, 3)->Some_0);
        lemma_parse_all_ok::<NodeVoteAccountsEntry>(all_bytes(fs, 4));
        lemma_parse_all_ok::<EpochAuthorizedVoter>(all_bytes(fs, 5));
    }
}

impl Keyed for EpochStake {
    open spec fn key_of(m: EpochStakeView) -> Key {
        number_key(m.epoch)
    }

    fn key(&self) -> (k: Key) {
        Key::from_number(self.epoch)
    }
}

/// Duplicate keys: epoch stakes in which a node or a vote account occurs
/// twice are a malformed snapshot, whatever else they hold.
pub proof fn lemma_epoch_stake_duplicate_refused(fs: Seq<Field>)
    requires
        ({
            let nodes = parse_all::<NodeVoteAccountsEntry>(all_bytes(fs, 4));
            let voters = parse_all::<EpochAuthorizedVoter>(all_bytes(fs, 5));
            ||| nodes is Ok && !distinct::<NodeVoteAccountsEntry>(nodes->Ok_0)
            ||| voters is Ok && !distinct::<EpochAuthorizedVoter>(voters->Ok_0)
        }),
    ensures
        EpochStake::of_fields(fs) == Err::<EpochStakeView, SnapshotError>(
            SnapshotError::MalformedSnapshot,
        ),
{
    lemma_nested_errors::<Stakes>(fs, 3);
    lemma_parse_all_errors::<NodeVoteAccountsEntry>(all_bytes(fs, 4));
    lemma_parse_all_errors::<EpochAuthorizedVoter>(all_bytes(fs, 5));
}

/// Key length: a key that is not 32 bytes long makes the record a
/// malformed snapshot.
pub proof fn lemma_voter_key_length(fs: Seq<Field>)
    requires
        wrong_length(fs, 1) || wrong_length(fs, 2),
    ensures
        EpochAuthorizedVoter::of_fields(fs) == Err::<EpochAuthorizedVoter, SnapshotError>(
            SnapshotError::MalformedSnapshot,
        ),
{
}

/// Key length: a node key, or one of the vote account keys of a node, that
/// is not 32 bytes long makes the record a malformed snapshot.
pub proof fn lemma_node_key_length(fs: Seq<Field>, i: int)
    requires
        wrong_length(fs, 1) || (0 <= i < all_bytes(fs, 3).len() && all_bytes(fs, 3)[i].len() != 32),
    ensures
        NodeVoteAccountsEntry::of_fields(fs) == Err::<NodeVoteAccountsEntryView, SnapshotError>(
            SnapshotError::MalformedSnapshot,
        ),
{
    if !wrong_length(fs, 1) {
        lemma_keys_wrong_length(all_bytes(fs, 3), i);
    }
}

/// Duplicate keys: a node whose vote accounts hold a key twice is a
/// malformed snapshot.
pub proof fn lemma_node_duplicate_refused(fs: Seq<Field>)
    requires
        keys_of_wire(all_bytes(fs, 3)) is Some,
        !keys_of_wire(all_bytes(fs, 3))->Some_0.no_duplicates(),
    ensures
        NodeVoteAccountsEntry::of_fields(fs) == Err::<NodeVoteAccountsEntryView, SnapshotError>(
            SnapshotError::MalformedSnapshot,
        ),
{
}

} // verus!
