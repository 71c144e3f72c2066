use crate::addr::spec_derive_address;
use crate::ledger::spec_create;
use crate::ledger::spec_fund;
use crate::ledger::spec_release;
use crate::ledger::LedgerModel;
use crate::record::EscrowError;
use crate::record::RecordModel;
use vstd::prelude::*;

verus! {

/// Single release: on any ledger that holds a record at `escrow`, releasing
/// twice — to any recipients — fails the second time with `AlreadyReleased`
/// and moves no balance on that second call, whatever the first call did.
pub proof fn law_single_release(m: LedgerModel, escrow: Seq<u8>, r1: Seq<u8>, r2: Seq<u8>)
    requires
        m.records[escrow] is Some,
    ensures
        ({
            let m1 = spec_release(m, escrow, r1).0;
            &&& spec_release(m1, escrow, r2).1 == Err::<(), EscrowError>(
                EscrowError::AlreadyReleased,
            )
            &&& spec_release(m1, escrow, r2).0 == m1
        }),
{
}

/// Conservation on create: when a creation succeeds and the organiser is not
/// itself the derived address, the record's address gains exactly the locked
/// amount, the organiser loses exactly it, every other balance and the total
/// supply stand still.  (The model has no storage floor; a record's address
/// holds exactly what was moved into it.)
pub proof fn law_create_conserves(
    m: LedgerModel,
    organiser: Seq<u8>,
    amount: u64,
    task_hash: Seq<u8>,
)
    requires
        spec_create(m, organiser, amount, task_hash).1 is Ok,
        organiser != spec_derive_address(task_hash),
    ensures
        ({
            let m1 = spec_create(m, organiser, amount, task_hash).0;
            let addr = spec_derive_address(task_hash);
            &&& m1.balances[addr] == m.balances[addr] + amount
            &&& m1.balances[organiser] + amount == m.balances[organiser]
            &&& forall|k: Seq<u8>|
                k != organiser && k != addr ==> #[trigger] m1.balances[k] == m.balances[k]
            &&& m1.supply == m.supply
        }),
{
}

/// Conservation on release: when a release succeeds and the recipient is not
/// the record's own address, the record's address loses exactly the locked
/// amount, the recipient gains exactly it, every other balance and the total
/// supply stand still.  The hypothesis that the record's address holds the
/// locked amount is the ledger's own invariant: every well-formed ledger
/// keeps an unreleased record's address funded with at least its amount.
pub proof fn law_release_conserves(m: LedgerModel, escrow: Seq<u8>, recipient: Seq<u8>)
    requires
        spec_release(m, escrow, recipient).1 is Ok,
        recipient != escrow,
        m.balances[escrow] >= m.records[escrow]->Some_0.amount,
    ensures
        ({
            let m1 = spec_release(m, escrow, recipient).0;
            let amount = m.records[escrow]->Some_0.amount;
            &&& m1.balances[escrow] + amount == m.balances[escrow]
            &&& m1.balances[recipient] == m.balances[recipient] + amount
            &&& forall|k: Seq<u8>|
                k != escrow && k != recipient ==> #[trigger] m1.balances[k] == m.balances[k]
            &&& m1.supply == m.supply
        }),
{
}

/// No collision: once a creation succeeded for a task hash, any further
/// creation with the same hash — hence, the derivation being a pure
/// function, the same derived address — fails with `DuplicateEscrow` and
/// leaves the ledger, the first record included, untouched.
pub proof fn law_no_collision(
    m: LedgerModel,
    org1: Seq<u8>,
    amount1: u64,
    org2: Seq<u8>,
    amount2: u64,
    task_hash: Seq<u8>,
)
    requires
        spec_create(m, org1, amount1, task_hash).1 is Ok,
    ensures
        ({
            let m1 = spec_create(m, org1, amount1, task_hash).0;
            let addr = spec_derive_address(task_hash);
            &&& spec_create(m1, org2, amount2, task_hash).1 == Err::<Seq<u8>, EscrowError>(
                EscrowError::DuplicateEscrow,
            )
            &&& spec_create(m1, org2, amount2, task_hash).0 == m1
            &&& m1.records[addr] == Some(
                RecordModel {
                    organiser: org1,
                    amount: amount1,
                    is_released: false,
                    task_hash: task_hash,
                },
            )
        }),
{
}

/// Atomicity of create: a failed creation is a no-op on the whole ledger.
pub proof fn law_failed_create_is_noop(
    m: LedgerModel,
    organiser: Seq<u8>,
    amount: u64,
    task_hash: Seq<u8>,
)
    requires
        spec_create(m, organiser, amount, task_hash).1 is Err,
    ensures
        spec_create(m, organiser, amount, task_hash).0 == m,
{
}

/// Atomicity of release: a failed release is a no-op on the whole ledger.
pub proof fn law_failed_release_is_noop(m: LedgerModel, escrow: Seq<u8>, recipient: Seq<u8>)
    requires
        spec_release(m, escrow, recipient).1 is Err,
    ensures
        spec_release(m, escrow, recipient).0 == m,
{
}

/// Atomicity of fund: a rejected credit is a no-op on the whole ledger.
pub proof fn law_failed_fund_is_noop(m: LedgerModel, addr: Seq<u8>, amount: u64)
    requires
        spec_fund(m, addr, amount).1 is Err,
    ensures
        spec_fund(m, addr, amount).0 == m,
{
}

} // verus!
