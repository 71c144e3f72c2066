use crate::addr::Address;
use vstd::prelude::*;

verus! {

/// The error taxonomy of the escrow core.  Every error is terminal for the
/// requested operation: nothing is retried and nothing is partially applied.
#[derive(Clone, Copy, Debug, PartialEq, Eq, Structural)]
pub enum EscrowError {
    /// The request itself is malformed: a release names an address that holds
    /// no record, a creation names an organiser that is an escrow record (a
    /// record has no signing key and cannot fund anything), or a credit would
    /// push the ledger's total supply past what a balance can hold.
    InvalidInput,
    /// A record already sits at the derived address, so the creation collides
    /// instead of overwriting.
    DuplicateEscrow,
    /// The funding source does not hold the amount to be locked.
    InsufficientFunds,
    /// The record was already paid out once; a second release moves nothing.
    AlreadyReleased,
}

/// One escrow ledger entry: the persistent record holding the locked amount
/// and the release status for one task.
#[derive(Clone, Copy, Debug, PartialEq, Eq)]
pub struct EscrowAccount {
    /// The identity that funded the escrow.  Immutable after creation.
    pub organiser: Address,
    /// Native-currency units locked at creation.  Immutable after creation.
    pub amount: u64,
    /// `false` at creation, set to `true` exactly once by release.
    pub is_released: bool,
    /// Opaque 32-byte identifier binding the escrow to a task; it seeds the
    /// record's deterministic address.  Immutable after creation.
    pub task_hash: [u8; 32],
}

/// The mathematical model of one escrow record.
#[verifier::ext_equal]
pub struct RecordModel {
    pub organiser: Seq<u8>,
    pub amount: u64,
    pub is_released: bool,
    pub task_hash: Seq<u8>,
}

impl View for EscrowAccount {
    type V = RecordModel;

    open spec fn view(&self) -> RecordModel {
        RecordModel {
            organiser: self.organiser@,
            amount: self.amount,
            is_released: self.is_released,
            task_hash: self.task_hash@,
        }
    }
}

impl EscrowAccount {
    /// A freshly created record: the given organiser and amount, the given
    /// task hash, and the release flag clear.
    pub fn new(organiser: &Address, amount: u64, task_hash: &[u8; 32]) -> (r: EscrowAccount)
        ensures
            r@ == (RecordModel {
                organiser: organiser@,
                amount: amount,
                is_released: false,
                task_hash: task_hash@,
            }),
    {
        EscrowAccount { organiser: *organiser, amount, is_released: false, task_hash: *task_hash }
    }

    /// The one-shot release transition on the record itself: check the flag,
    /// then set it.  The sole guard of release is this check, and it comes
    /// before any balance moves, so a record can never pay out twice.
    pub fn mark_released(&mut self) -> (r: Result<(), EscrowError>)
        ensures
            old(self).is_released ==> r == Err::<(), EscrowError>(EscrowError::AlreadyReleased)
                && *final(self) == *old(self),
            !old(self).is_released ==> r == Ok::<(), EscrowError>(())
                && *final(self) == (EscrowAccount { is_released: true, ..*old(self) }),
    {
        if self.is_released {
            Err(EscrowError::AlreadyReleased)
        } else {
            self.is_released = true;
            Ok(())
        }
    }
}

} // verus!
