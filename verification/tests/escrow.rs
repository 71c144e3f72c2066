use pohw::addr::derive_address;
use pohw::addr::Address;
use pohw::ledger::CreatePaidTask;
use pohw::ledger::Ledger;
use pohw::ledger::Release;
use pohw::record::EscrowError;

fn addr(b: u8) -> Address {
    Address { bytes: [b; 32] }
}

fn funded_ledger(organiser: Address, balance: u64) -> Ledger {
    let mut l = Ledger::new();
    assert_eq!(l.fund(&organiser, balance), Ok(()));
    l
}

#[test]
fn scenario_create_locks_funds() {
    let organiser = addr(1);
    let hash = [7u8; 32];
    let mut l = funded_ledger(organiser, 5_000);

    let created = l.create_paid_task(&CreatePaidTask {
        organiser,
        amount: 1_000,
        task_hash: hash,
    });
    let escrow = created.expect("creation must succeed for a funded organiser");

    assert_eq!(escrow, derive_address(&hash));
    let record = l.record(&escrow).expect("a record must sit at the derived address");
    assert_eq!(record.amount, 1_000);
    assert_eq!(record.organiser, organiser);
    assert_eq!(record.task_hash, hash);
    assert!(!record.is_released);
    assert_eq!(l.balance_of(&organiser), 4_000);
    assert_eq!(l.balance_of(&escrow), 1_000);
}

#[test]
fn scenario_release_pays_recipient() {
    let organiser = addr(1);
    let recipient = addr(2);
    let hash = [7u8; 32];
    let mut l = funded_ledger(organiser, 5_000);
    let escrow = l
        .create_paid_task(&CreatePaidTask { organiser, amount: 1_000, task_hash: hash })
        .unwrap();

    assert_eq!(l.release(&Release { escrow, recipient }), Ok(()));

    let record = l.record(&escrow).unwrap();
    assert!(record.is_released);
    assert_eq!(l.balance_of(&escrow), 0);
    assert_eq!(l.balance_of(&recipient), 1_000);
    assert_eq!(l.balance_of(&organiser), 4_000);
}

#[test]
fn scenario_second_release_fails_and_moves_nothing() {
    let organiser = addr(1);
    let recipient = addr(2);
    let hash = [7u8; 32];
    let mut l = funded_ledger(organiser, 5_000);
    let escrow = l
        .create_paid_task(&CreatePaidTask { organiser, amount: 1_000, task_hash: hash })
        .unwrap();
    assert_eq!(l.release(&Release { escrow, recipient }), Ok(()));

    let again = l.release(&Release { escrow, recipient });

    assert_eq!(again, Err(EscrowError::AlreadyReleased));
    assert_eq!(l.balance_of(&recipient), 1_000);
    assert_eq!(l.balance_of(&escrow), 0);
    assert_eq!(l.balance_of(&organiser), 4_000);
    assert!(l.record(&escrow).unwrap().is_released);
}

#[test]
fn second_release_to_other_recipient_also_fails() {
    let organiser = addr(1);
    let hash = [7u8; 32];
    let mut l = funded_ledger(organiser, 5_000);
    let escrow = l
        .create_paid_task(&CreatePaidTask { organiser, amount: 1_000, task_hash: hash })
        .unwrap();
    assert_eq!(l.release(&Release { escrow, recipient: addr(2) }), Ok(()));

    let other = l.release(&Release { escrow, recipient: addr(3) });

    assert_eq!(other, Err(EscrowError::AlreadyReleased));
    assert_eq!(l.balance_of(&addr(3)), 0);
    assert_eq!(l.balance_of(&addr(2)), 1_000);
}

#[test]
fn scenario_duplicate_create_fails_and_keeps_first_record() {
    let organiser = addr(1);
    let hash = [7u8; 32];
    let mut l = funded_ledger(organiser, 5_000);
    let escrow = l
        .create_paid_task(&CreatePaidTask { organiser, amount: 1_000, task_hash: hash })
        .unwrap();

    let second = l.create_paid_task(&CreatePaidTask {
        organiser: addr(9),
        amount: 250,
        task_hash: hash,
    });

    assert_eq!(second, Err(EscrowError::DuplicateEscrow));
    let record = l.record(&escrow).unwrap();
    assert_eq!(record.amount, 1_000);
    assert_eq!(record.organiser, organiser);
    assert!(!record.is_released);
    assert_eq!(l.balance_of(&escrow), 1_000);
    assert_eq!(l.balance_of(&organiser), 4_000);
}

#[test]
fn conservation_of_supply_across_lifecycle() {
    let organiser = addr(1);
    let recipient = addr(2);
    let hash = [7u8; 32];
    let mut l = funded_ledger(organiser, 5_000);
    assert_eq!(l.total_supply(), 5_000);

    let escrow = l
        .create_paid_task(&CreatePaidTask { organiser, amount: 1_000, task_hash: hash })
        .unwrap();
    assert_eq!(l.total_supply(), 5_000);

    assert_eq!(l.release(&Release { escrow, recipient }), Ok(()));
    assert_eq!(l.total_supply(), 5_000);
    assert_eq!(
        l.balance_of(&organiser) + l.balance_of(&recipient) + l.balance_of(&escrow),
        5_000
    );
}

#[test]
fn create_without_funds_is_a_no_op() {
    let organiser = addr(1);
    let hash = [7u8; 32];
    let mut l = funded_ledger(organiser, 999);

    let r = l.create_paid_task(&CreatePaidTask { organiser, amount: 1_000, task_hash: hash });

    assert_eq!(r, Err(EscrowError::InsufficientFunds));
    assert_eq!(l.balance_of(&organiser), 999);
    assert_eq!(l.balance_of(&derive_address(&hash)), 0);
    assert!(l.record(&derive_address(&hash)).is_none());
    assert_eq!(l.total_supply(), 999);
}

#[test]
fn release_of_unknown_address_is_a_no_op() {
    let organiser = addr(1);
    let mut l = funded_ledger(organiser, 5_000);

    let r = l.release(&Release { escrow: addr(8), recipient: addr(2) });

    assert_eq!(r, Err(EscrowError::InvalidInput));
    assert_eq!(l.balance_of(&organiser), 5_000);
    assert_eq!(l.balance_of(&addr(2)), 0);
    assert_eq!(l.total_supply(), 5_000);
}

#[test]
fn organiser_that_is_an_escrow_record_cannot_fund() {
    let organiser = addr(1);
    let hash = [7u8; 32];
    let mut l = funded_ledger(organiser, 5_000);
    let escrow = l
        .create_paid_task(&CreatePaidTask { organiser, amount: 1_000, task_hash: hash })
        .unwrap();

    let r = l.create_paid_task(&CreatePaidTask {
        organiser: escrow,
        amount: 100,
        task_hash: [8u8; 32],
    });

    assert_eq!(r, Err(EscrowError::InvalidInput));
    assert_eq!(l.balance_of(&escrow), 1_000);
    assert!(l.record(&derive_address(&[8u8; 32])).is_none());
}

#[test]
fn zero_amount_escrow_is_valid_and_locks_nothing() {
    let organiser = addr(1);
    let hash = [7u8; 32];
    let mut l = Ledger::new();

    let escrow = l
        .create_paid_task(&CreatePaidTask { organiser, amount: 0, task_hash: hash })
        .expect("a zero-amount escrow is permitted");

    let record = l.record(&escrow).unwrap();
    assert_eq!(record.amount, 0);
    assert!(!record.is_released);
    assert_eq!(l.balance_of(&escrow), 0);

    assert_eq!(l.release(&Release { escrow, recipient: addr(2) }), Ok(()));
    assert_eq!(l.balance_of(&addr(2)), 0);
    assert!(l.record(&escrow).unwrap().is_released);
}

#[test]
fn fund_past_total_supply_cap_is_rejected() {
    let holder = addr(1);
    let mut l = Ledger::new();
    assert_eq!(l.fund(&holder, u64::MAX), Ok(()));

    let r = l.fund(&addr(2), 1);

    assert_eq!(r, Err(EscrowError::InvalidInput));
    assert_eq!(l.balance_of(&holder), u64::MAX);
    assert_eq!(l.balance_of(&addr(2)), 0);
    assert_eq!(l.total_supply(), u64::MAX);
}

#[test]
fn organiser_at_derived_address_keeps_its_balance() {
    let hash = [5u8; 32];
    let organiser = derive_address(&hash);
    let mut l = funded_ledger(organiser, 2_000);

    let escrow = l
        .create_paid_task(&CreatePaidTask { organiser, amount: 1_500, task_hash: hash })
        .unwrap();

    assert_eq!(escrow, organiser);
    assert_eq!(l.balance_of(&escrow), 2_000);
    assert_eq!(l.record(&escrow).unwrap().amount, 1_500);
}

#[test]
fn distinct_hashes_create_independent_escrows() {
    let organiser = addr(1);
    let mut l = funded_ledger(organiser, 5_000);

    let first = l
        .create_paid_task(&CreatePaidTask { organiser, amount: 1_000, task_hash: [7u8; 32] })
        .unwrap();
    let second = l
        .create_paid_task(&CreatePaidTask { organiser, amount: 2_000, task_hash: [9u8; 32] })
        .unwrap();

    assert_ne!(first, second);
    assert_eq!(l.balance_of(&organiser), 2_000);
    assert_eq!(l.balance_of(&first), 1_000);
    assert_eq!(l.balance_of(&second), 2_000);

    assert_eq!(l.release(&Release { escrow: first, recipient: addr(2) }), Ok(()));
    assert!(l.record(&first).unwrap().is_released);
    assert!(!l.record(&second).unwrap().is_released);
    assert_eq!(l.balance_of(&second), 2_000);
}

#[test]
fn fund_accumulates_on_one_address() {
    let holder = addr(4);
    let mut l = Ledger::new();
    assert_eq!(l.fund(&holder, 300), Ok(()));
    assert_eq!(l.fund(&holder, 700), Ok(()));
    assert_eq!(l.balance_of(&holder), 1_000);
    assert_eq!(l.total_supply(), 1_000);
}

#[test]
fn derive_address_is_deterministic_and_injective_on_seeds() {
    let h1 = [11u8; 32];
    let h2 = [12u8; 32];
    assert_eq!(derive_address(&h1), derive_address(&h1));
    assert_ne!(derive_address(&h1), derive_address(&h2));
}

#[test]
fn record_level_release_is_one_shot() {
    let organiser = addr(1);
    let hash = [7u8; 32];
    let mut record = pohw::record::EscrowAccount::new(&organiser, 1_000, &hash);
    assert_eq!(record.organiser, organiser);
    assert_eq!(record.amount, 1_000);
    assert_eq!(record.task_hash, hash);
    assert!(!record.is_released);

    assert_eq!(record.mark_released(), Ok(()));
    assert!(record.is_released);
    assert_eq!(record.amount, 1_000);

    assert_eq!(record.mark_released(), Err(EscrowError::AlreadyReleased));
    assert!(record.is_released);
}

#[test]
fn addr_eq_compares_all_bytes() {
    let a = addr(1);
    let mut b = addr(1);
    assert!(pohw::addr::addr_eq(&a, &b));
    b.bytes[31] = 2;
    assert!(!pohw::addr::addr_eq(&a, &b));
}
