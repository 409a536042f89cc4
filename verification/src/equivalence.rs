//! When two ledger states mean the same.
//!
//! Scalars, the hard-fork list and the reward list are compared as they
//! stand. Sets and keyed sequences are compared without regard to order.

use crate::bank::BankView;
use crate::blockhash_queue::BlockhashQueueView;
use crate::epoch_stakes::{EpochStakeView, NodeVoteAccountsEntryView};
use crate::stakes::StakesView;
use vstd::prelude::*;

verus! {

/// The two sequences hold the same items, in whatever order.
pub open spec fn same_members<T>(a: Seq<T>, b: Seq<T>) -> bool {
    a.to_set() == b.to_set()
}

/// The vote accounts of a node, compared as a set.
pub open spec fn nodes_equivalent(
    a: NodeVoteAccountsEntryView,
    b: NodeVoteAccountsEntryView,
) -> bool {
    &&& a.node_id == b.node_id
    &&& a.total_stake == b.total_stake
    &&& same_members(a.vote_accounts, b.vote_accounts)
}

/// Stake bundles, with each of the three sequences compared without order.
pub open spec fn stakes_equivalent(a: StakesView, b: StakesView) -> bool {
    &&& a.epoch == b.epoch
    &&& same_members(a.vote_accounts, b.vote_accounts)
    &&& same_members(a.stake_delegations, b.stake_delegations)
    &&& same_members(a.stake_history, b.stake_history)
}

/// The node entry has an equivalent in the sequence.
pub open spec fn node_among(
    x: NodeVoteAccountsEntryView,
    b: Seq<NodeVoteAccountsEntryView>,
) -> bool {
    exists|j: int| 0 <= j < b.len() && #[trigger] nodes_equivalent(x, b[j])
}

/// Every node entry of one sequence has an equivalent in the other.
pub open spec fn node_lists_equivalent(
    a: Seq<NodeVoteAccountsEntryView>,
    b: Seq<NodeVoteAccountsEntryView>,
) -> bool {
    &&& forall|i: int| 0 <= i < a.len() ==> node_among(#[trigger] a[i], b)
    &&& forall|j: int| 0 <= j < b.len() ==> node_among(#[trigger] b[j], a)
}

/// The stakes of one epoch, with every sequence compared without order.
pub open spec fn epoch_stakes_equivalent(a: EpochStakeView, b: EpochStakeView) -> bool {
    &&& a.epoch == b.epoch
    &&& a.total_stake == b.total_stake
    &&& stakes_equivalent(a.stakes, b.stakes)
    &&& node_lists_equivalent(a.node_id_to_vote_accounts, b.node_id_to_vote_accounts)
    &&& same_members(a.epoch_authorized_voters, b.epoch_authorized_voters)
}

/// The stakes of the epoch have an equivalent in the sequence.
pub open spec fn epoch_among(x: EpochStakeView, b: Seq<EpochStakeView>) -> bool {
    exists|j: int| 0 <= j < b.len() && #[trigger] epoch_stakes_equivalent(x, b[j])
}

/// Every epoch of one sequence has an equivalent in the other.
pub open spec fn epoch_lists_equivalent(a: Seq<EpochStakeView>, b: Seq<EpochStakeView>) -> bool {
    &&& forall|i: int| 0 <= i < a.len() ==> epoch_among(#[trigger] a[i], b)
    &&& forall|j: int| 0 <= j < b.len() ==> epoch_among(#[trigger] b[j], a)
}

/// Block hash queues, with the entries compared without order.
pub open spec fn queues_equivalent(a: BlockhashQueueView, b: BlockhashQueueView) -> bool {
    &&& a.last_hash_index == b.last_hash_index
    &&& a.last_hash == b.last_hash
    &&& a.max_age == b.max_age
    &&& same_members(a.ages, b.ages)
}

/// Two ledger states mean the same.
pub open spec fn equivalent(a: BankView, b: BankView) -> bool {
    &&& a.header == b.header
    &&& same_members(a.ancestors, b.ancestors)
    &&& a.hard_forks == b.hard_forks
    &&& a.inflation == b.inflation
    &&& a.fee_rate_governor == b.fee_rate_governor
    &&& a.incremental_snapshot_persistence == b.incremental_snapshot_persistence
    &&& a.rent_collector == b.rent_collector
    &&& a.epoch_schedule == b.epoch_schedule
    &&& queues_equivalent(a.blockhash_queue, b.blockhash_queue)
    &&& stakes_equivalent(a.stakes, b.stakes)
    &&& epoch_lists_equivalent(a.epoch_stakes, b.epoch_stakes)
    &&& a.epoch_reward_status == b.epoch_reward_status
}

/// Every node list is equivalent to itself.
pub proof fn lemma_node_lists_reflexive(a: Seq<NodeVoteAccountsEntryView>)
    ensures
        node_lists_equivalent(a, a),
{
    assert forall|i: int| 0 <= i < a.len() implies node_among(#[trigger] a[i], a) by {
        assert(nodes_equivalent(a[i], a[i]));
    }
}

/// Every list of epoch stakes is equivalent to itself.
pub proof fn lemma_epoch_lists_reflexive(a: Seq<EpochStakeView>)
    ensures
        epoch_lists_equivalent(a, a),
{
    assert forall|i: int| 0 <= i < a.len() implies epoch_among(#[trigger] a[i], a) by {
        lemma_node_lists_reflexive(a[i].node_id_to_vote_accounts);
        assert(epoch_stakes_equivalent(a[i], a[i]));
    }
}

/// Every ledger state is equivalent to itself.
pub proof fn lemma_equivalent_reflexive(a: BankView)
    ensures
        equivalent(a, a),
{
    lemma_epoch_lists_reflexive(a.epoch_stakes);
}

/// Equivalence does not depend on the order of the ancestors, nor on that
/// of any other set or keyed sequence: a state with the same ancestors in
/// another order is equivalent.
pub proof fn lemma_ancestor_order_ignored(a: BankView, ancestors: Seq<u64>)
    requires
        same_members(a.ancestors, ancestors),
    ensures
        equivalent(a, BankView { ancestors, ..a }),
{
    lemma_epoch_lists_reflexive(a.epoch_stakes);
}

} // verus!
