//! A decoded ledger state together with the views that are derived from it.
//!
//! A snapshot holds the keyed sequences of the ledger state and none of the
//! totals that can be computed from them. The totals are rebuilt after
//! decoding, as functions of the decoded sequences alone.

use crate::bank::{Bank, BankView};
use crate::error::SnapshotError;
use crate::snapshot::{parse_snapshot, rebuild_bank};
use crate::stakes::{voter_stakes_of, VoterStake};
use vstd::prelude::*;

verus! {

/// A ledger state with its derived views.
#[derive(Clone, Debug, PartialEq, Eq)]
pub struct Ledger {
    pub bank: Bank,
    /// For each vote account of the current stake bundle, in order, the
    /// stake delegated to it.
    pub voter_stakes: Vec<VoterStake>,
    /// The same for the stake bundle of each retained epoch, in the order of
    /// the epoch stakes.
    pub epoch_voter_stakes: Vec<Vec<VoterStake>>,
}

impl Ledger {
    /// The derived views are those of the ledger state.
    pub open spec fn consistent(&self) -> bool {
        &&& self.voter_stakes@ == voter_stakes_of(self.bank@.stakes)
        &&& self.epoch_voter_stakes@.len() == self.bank@.epoch_stakes.len()
        &&& forall|i: int|
            0 <= i < self.epoch_voter_stakes@.len() ==> (#[trigger] self.epoch_voter_stakes@[i])@
                == voter_stakes_of(self.bank@.epoch_stakes[i].stakes)
    }

    /// Derives the views of a ledger state.
    pub fn new(bank: Bank) -> (ledger: Ledger)
        ensures
            ledger.bank == bank,
            ledger.consistent(),
    {
        let voter_stakes = bank.stakes.voter_stakes();
        let n: usize = bank.epoch_stakes.len();
        let mut epoch_voter_stakes: Vec<Vec<VoterStake>> = Vec::new();
        let mut i: usize = 0;
        while i < n
            invariant
                n == bank.epoch_stakes@.len(),
                i <= n,
                epoch_voter_stakes@.len() == i,
                forall|j: int|
                    0 <= j < i ==> (#[trigger] epoch_voter_stakes@[j])@ == voter_stakes_of(
                        bank@.epoch_stakes[j].stakes,
                    ),
            decreases n - i,
        {
            let views = bank.epoch_stakes[i].stakes.voter_stakes();
            epoch_voter_stakes.push(views);
            i = i + 1;
        }
        Ledger { bank, voter_stakes, epoch_voter_stakes }
    }
}

/// Decodes a snapshot and rebuilds the derived views of the ledger state.
/// It fails exactly where [`rebuild_bank`] fails.
pub fn rebuild_ledger(bytes: &[u8]) -> (r: Result<Ledger, SnapshotError>)
    ensures
        match r {
            Ok(ledger) => parse_snapshot(bytes@) == Ok::<BankView, SnapshotError>(ledger.bank@)
                && ledger.consistent(),
            Err(e) => parse_snapshot(bytes@) == Err::<BankView, SnapshotError>(e),
        },
{
    let bank = rebuild_bank(bytes)?;
    Ok(Ledger::new(bank))
}

} // verus!
