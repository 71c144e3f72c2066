use crate::addr::derive_address;
use crate::addr::spec_derive_address;
use crate::addr::Address;
use crate::record::EscrowAccount;
use crate::record::EscrowError;
use crate::record::RecordModel;
use crate::table::find_key;
use crate::table::lemma_sum_elem_bound;
use crate::table::lemma_sum_push;
use crate::table::lemma_sum_update;
use crate::table::lemma_uniq_push;
use crate::table::lemma_uniq_update;
use crate::table::lemma_val_in_absent;
use crate::table::lemma_val_in_found;
use crate::table::lemma_val_in_push;
use crate::table::lemma_val_in_update;
use crate::table::sum_bal;
use crate::table::uniq_keys;
use crate::table::val_in;
use vstd::prelude::*;

verus! {

/// A request to create an escrow: the funding organiser, the amount of
/// native currency to lock, and the 32-byte task hash that seeds the
/// record's deterministic address.
#[derive(Clone, Copy, Debug)]
pub struct CreatePaidTask {
    pub organiser: Address,
    pub amount: u64,
    pub task_hash: [u8; 32],
}

/// A request to release an escrow: the address of the record to pay out and
/// the recipient of the payout.  The core pays whatever recipient the
/// request names; any authorization of the recipient belongs to the layer
/// that admits requests, not to the core.
#[derive(Clone, Copy, Debug)]
pub struct Release {
    pub escrow: Address,
    pub recipient: Address,
}

/// The mathematical model of the whole ledger: the balance held at every
/// address, the escrow record stored at every address (`None` where there is
/// none), and the total supply, which every transfer conserves.  Both maps
/// are total; absent holders carry a zero balance and no record.
#[verifier::ext_equal]
pub struct LedgerModel {
    pub balances: Map<Seq<u8>, nat>,
    pub records: Map<Seq<u8>, Option<RecordModel>>,
    pub supply: nat,
}

/// Moves `amount` from `from` to `to`: the one atomic step both transitions
/// are built on.  Moving to oneself changes nothing.  The debit saturates at
/// zero; the ledger's operations only ever move amounts the source holds, so
/// the saturation is never reached from them.
pub open spec fn move_bal(
    b: Map<Seq<u8>, nat>,
    from: Seq<u8>,
    to: Seq<u8>,
    amount: nat,
) -> Map<Seq<u8>, nat> {
    let debited = b.insert(
        from,
        if b[from] >= amount {
            (b[from] - amount) as nat
        } else {
            0
        },
    );
    debited.insert(to, debited[to] + amount)
}

/// The create transition.  In order, it rejects a creation whose derived
/// address is already occupied, one whose organiser is itself an escrow
/// record (a record has no signing key and cannot fund anything), and one
/// the organiser cannot fund; otherwise it stores the new record at the
/// derived address and moves the amount from the organiser into it, as one
/// atomic step.  Every amount a balance can hold is a valid amount; a
/// zero-amount escrow is permitted and simply locks nothing.
pub open spec fn spec_create(
    m: LedgerModel,
    organiser: Seq<u8>,
    amount: u64,
    task_hash: Seq<u8>,
) -> (LedgerModel, Result<Seq<u8>, EscrowError>) {
    let addr = spec_derive_address(task_hash);
    if m.records[addr] is Some {
        (m, Err(EscrowError::DuplicateEscrow))
    } else if m.records[organiser] is Some {
        (m, Err(EscrowError::InvalidInput))
    } else if m.balances[organiser] < amount {
        (m, Err(EscrowError::InsufficientFunds))
    } else {
        (
            LedgerModel {
                balances: move_bal(m.balances, organiser, addr, amount as nat),
                records: m.records.insert(
                    addr,
                    Some(
                        RecordModel {
                            organiser: organiser,
                            amount: amount,
                            is_released: false,
                            task_hash: task_hash,
                        },
                    ),
                ),
                supply: m.supply,
            },
            Ok(addr),
        )
    }
}

/// The release transition.  A request that names an address holding no
/// record is malformed; a record already paid out fails the request before
/// any balance moves, and this check is the sole guard; otherwise the flag
/// flips and the full locked amount moves from the record to the recipient,
/// as one atomic step.
pub open spec fn spec_release(m: LedgerModel, escrow: Seq<u8>, recipient: Seq<u8>) -> (
    LedgerModel,
    Result<(), EscrowError>,
) {
    match m.records[escrow] {
        None => (m, Err(EscrowError::InvalidInput)),
        Some(rec) => if rec.is_released {
            (m, Err(EscrowError::AlreadyReleased))
        } else {
            (
                LedgerModel {
                    balances: move_bal(m.balances, escrow, recipient, rec.amount as nat),
                    records: m.records.insert(
                        escrow,
                        Some(RecordModel { is_released: true, ..rec }),
                    ),
                    supply: m.supply,
                },
                Ok(()),
            )
        },
    }
}

/// Crediting an address from outside (the environment funding a wallet).  A
/// credit that would push the total supply past what a balance can hold is
/// rejected as invalid input; every balance therefore fits in a machine
/// word.
pub open spec fn spec_fund(m: LedgerModel, addr: Seq<u8>, amount: u64) -> (
    LedgerModel,
    Result<(), EscrowError>,
) {
    if m.supply + amount > u64::MAX {
        (m, Err(EscrowError::InvalidInput))
    } else {
        (
            LedgerModel {
                balances: m.balances.insert(addr, (m.balances[addr] + amount) as nat),
                records: m.records,
                supply: (m.supply + amount) as nat,
            },
            Ok(()),
        )
    }
}

/// The model view of an exec result carrying a created record's address.
pub open spec fn res_addr(r: Result<Address, EscrowError>) -> Result<Seq<u8>, EscrowError> {
    match r {
        Ok(a) => Ok(a@),
        Err(e) => Err(e),
    }
}

/// The balance stored under `k`, zero where `k` is absent.
pub open spec fn bal_nat(s: Seq<(Address, u64)>, k: Seq<u8>) -> nat {
    match val_in(s, k) {
        Some(v) => v as nat,
        None => 0,
    }
}

/// The record model stored under `k`, if any.
pub open spec fn rec_model(s: Seq<(Address, EscrowAccount)>, k: Seq<u8>) -> Option<RecordModel> {
    match val_in(s, k) {
        Some(acc) => Some(acc@),
        None => None,
    }
}

/// The escrow ledger: every balance holder and every escrow record, behind
/// the two transitions of the core.  It stands for the host ledger: one
/// shared pool of addressable balances, where an escrow record's funds live
/// at the record's own derived address.
pub struct Ledger {
    accounts: Vec<(Address, u64)>,
    records: Vec<(Address, EscrowAccount)>,
    total: u64,
}

impl View for Ledger {
    type V = LedgerModel;

    closed spec fn view(&self) -> LedgerModel {
        LedgerModel {
            balances: Map::new(|k: Seq<u8>| true, |k: Seq<u8>| bal_nat(self.accounts@, k)),
            records: Map::new(|k: Seq<u8>| true, |k: Seq<u8>| rec_model(self.records@, k)),
            supply: self.total as nat,
        }
    }
}

impl Ledger {
    /// Well-formedness: addresses key at most one balance and at most one
    /// record; the tracked total equals the sum of all balances (so no
    /// balance can outgrow a machine word); a record sits at the address its
    /// task hash derives; and an unreleased record's address holds at least
    /// the locked amount, so a release can always pay in full.
    pub closed spec fn wf(&self) -> bool {
        &&& uniq_keys(self.accounts@)
        &&& uniq_keys(self.records@)
        &&& self.total as int == sum_bal(self.accounts@)
        &&& forall|i: int|
            0 <= i < self.records@.len() ==> (#[trigger] self.records@[i]).0@
                == spec_derive_address(self.records@[i].1.task_hash@)
        &&& forall|i: int|
            0 <= i < self.records@.len() && !(#[trigger] self.records@[i]).1.is_released
                ==> bal_nat(self.accounts@, self.records@[i].0@) >= self.records@[i].1.amount
    }

    /// An empty ledger: no balances, no records, nothing in circulation.
    pub fn new() -> (l: Ledger)
        ensures
            l.wf(),
            l@.supply == 0,
            forall|k: Seq<u8>| l@.balances[k] == 0,
            forall|k: Seq<u8>| l@.records[k] is None,
    {
        let l = Ledger { accounts: Vec::new(), records: Vec::new(), total: 0 };
        proof {
            assert forall|k: Seq<u8>| l@.balances[k] == 0 by {
                assert(val_in(l.accounts@, k) is None);
            }
            assert forall|k: Seq<u8>| l@.records[k] is None by {
                assert(val_in(l.records@, k) is None);
            }
        }
        l
    }

    /// The current balance of an address.
    pub fn balance_of(&self, addr: &Address) -> (r: u64)
        requires
            self.wf(),
        ensures
            r as nat == self@.balances[addr@],
    {
        self.balance_at(addr)
    }

    /// The amount of native currency in circulation over the whole ledger.
    pub fn total_supply(&self) -> (r: u64)
        ensures
            r as nat == self@.supply,
    {
        self.total
    }

    /// The escrow record stored at an address, if any.
    pub fn record(&self, addr: &Address) -> (r: Option<EscrowAccount>)
        requires
            self.wf(),
        ensures
            match r {
                Some(acc) => self@.records[addr@] == Some(acc@),
                None => self@.records[addr@] is None,
            },
    {
        match find_key(&self.records, addr) {
            Some(i) => {
                proof {
                    lemma_val_in_found(self.records@, i as int);
                }
                Some(self.records[i].1)
            },
            None => {
                proof {
                    lemma_val_in_absent(self.records@, addr@);
                }
                None
            },
        }
    }

    /// Credits `amount` to `addr` from outside the ledger.
    pub fn fund(&mut self, addr: &Address, amount: u64) -> (r: Result<(), EscrowError>)
        requires
            old(self).wf(),
        ensures
            final(self).wf(),
            ({
                let (m2, res) = spec_fund(old(self)@, addr@, amount);
                final(self)@ == m2 && r == res
            }),
    {
        if amount > u64::MAX - self.total {
            return Err(EscrowError::InvalidInput);
        }
        let ghost b0 = self.accounts@;
        self.total = self.total + amount;
        match find_key(&self.accounts, addr) {
            Some(i) => {
                proof {
                    lemma_val_in_found(b0, i as int);
                    lemma_sum_elem_bound(b0, i as int);
                }
                let cur = self.accounts[i].1;
                let key = self.accounts[i].0;
                self.accounts[i] = (key, cur + amount);
                proof {
                    lemma_uniq_update(b0, i as int, (cur + amount) as u64);
                    lemma_sum_update(b0, i as int, (cur + amount) as u64);
                    assert forall|k: Seq<u8>|
                        bal_nat(self.accounts@, k) == (if k == addr@ {
                            (bal_nat(b0, k) + amount) as nat
                        } else {
                            bal_nat(b0, k)
                        }) by {
                        lemma_val_in_update(b0, i as int, (cur + amount) as u64, k);
                    }
                }
            },
            None => {
                proof {
                    lemma_val_in_absent(b0, addr@);
                }
                self.accounts.push((*addr, amount));
                proof {
                    lemma_uniq_push(b0, (*addr, amount));
                    lemma_sum_push(b0, (*addr, amount));
                    assert forall|k: Seq<u8>|
                        bal_nat(self.accounts@, k) == (if k == addr@ {
                            (bal_nat(b0, k) + amount) as nat
                        } else {
                            bal_nat(b0, k)
                        }) by {
                        lemma_val_in_push(b0, (*addr, amount), k);
                    }
                }
            },
        }
        proof {
            assert forall|k: Seq<u8>|
                self@.balances[k] == old(self)@.balances.insert(
                    addr@,
                    (old(self)@.balances[addr@] + amount) as nat,
                )[k] by {}
            assert(self@.balances =~= old(self)@.balances.insert(
                addr@,
                (old(self)@.balances[addr@] + amount) as nat,
            ));
            assert(self@ =~~= spec_fund(old(self)@, addr@, amount).0);
            assert forall|k: Seq<u8>| #[trigger]
                bal_nat(self.accounts@, k) >= bal_nat(old(self).accounts@, k) by {}
            self.lemma_wf_credit_only(*old(self));
        }
        Ok(())
    }

    /// Creates the escrow the request describes: a new record at the address
    /// derived from the task hash, funded by the organiser with the given
    /// amount, all or nothing.
    pub fn create_paid_task(&mut self, req: &CreatePaidTask) -> (r: Result<Address, EscrowError>)
        requires
            old(self).wf(),
        ensures
            final(self).wf(),
            ({
                let (m2, res) = spec_create(old(self)@, req.organiser@, req.amount, req.task_hash@);
                final(self)@ == m2 && res_addr(r) == res
            }),
    {
        let addr = derive_address(&req.task_hash);
        match find_key(&self.records, &addr) {
            Some(i) => {
                proof {
                    lemma_val_in_found(self.records@, i as int);
                }
                return Err(EscrowError::DuplicateEscrow);
            },
            None => {
                proof {
                    lemma_val_in_absent(self.records@, addr@);
                }
            },
        }
        match find_key(&self.records, &req.organiser) {
            Some(i) => {
                proof {
                    lemma_val_in_found(self.records@, i as int);
                }
                return Err(EscrowError::InvalidInput);
            },
            None => {
                proof {
                    lemma_val_in_absent(self.records@, req.organiser@);
                }
            },
        }
        let bal = self.balance_at(&req.organiser);
        if bal < req.amount {
            return Err(EscrowError::InsufficientFunds);
        }
        let ghost pre = *self;
        let rec = EscrowAccount::new(&req.organiser, req.amount, &req.task_hash);
        self.records.push((addr, rec));
        proof {
            lemma_uniq_push(pre.records@, (addr, rec));
            assert forall|k: Seq<u8>|
                self@.records[k] == pre@.records.insert(addr@, Some(rec@))[k] by {
                lemma_val_in_push(pre.records@, (addr, rec), k);
            }
            assert(self@.records =~= pre@.records.insert(addr@, Some(rec@)));
        }
        let res = self.transfer(&req.organiser, &addr, req.amount);
        match res {
            Ok(()) => {
                proof {
                    let mv = move_bal(pre@.balances, req.organiser@, addr@, req.amount as nat);
                    assert(self@.balances == mv);
                    assert forall|k: Seq<u8>| k != req.organiser@ implies #[trigger]
                        bal_nat(self.accounts@, k) >= bal_nat(pre.accounts@, k) by {
                        assert(bal_nat(self.accounts@, k) == self@.balances[k]);
                        assert(bal_nat(pre.accounts@, k) == pre@.balances[k]);
                    }
                    assert(bal_nat(self.accounts@, addr@) == self@.balances[addr@]);
                    assert(self@.balances[addr@] >= req.amount);
                    self.lemma_wf_after_create(pre, req.organiser@, addr@, (addr, rec));
                    assert(self@ =~~= spec_create(
                        old(self)@,
                        req.organiser@,
                        req.amount,
                        req.task_hash@,
                    ).0);
                }
                Ok(addr)
            },
            Err(e) => Err(e),
        }
    }

    /// Releases the record at the requested address to the requested
    /// recipient: flips the release flag, then pays out the full locked
    /// amount, as one atomic step, and at most once per record.
    pub fn release(&mut self, req: &Release) -> (r: Result<(), EscrowError>)
        requires
            old(self).wf(),
        ensures
            final(self).wf(),
            ({
                let (m2, res) = spec_release(old(self)@, req.escrow@, req.recipient@);
                final(self)@ == m2 && r == res
            }),
    {
        let i = match find_key(&self.records, &req.escrow) {
            Some(i) => i,
            None => {
                proof {
                    lemma_val_in_absent(self.records@, req.escrow@);
                }
                return Err(EscrowError::InvalidInput);
            },
        };
        proof {
            lemma_val_in_found(self.records@, i as int);
        }
        let key = self.records[i].0;
        let mut rec = self.records[i].1;
        match rec.mark_released() {
            Err(e) => {
                return Err(e);
            },
            Ok(()) => {},
        }
        let ghost pre = *self;
        let amount = rec.amount;
        self.records[i] = (key, rec);
        proof {
            lemma_uniq_update(pre.records@, i as int, rec);
            assert forall|k: Seq<u8>|
                self@.records[k] == pre@.records.insert(req.escrow@, Some(rec@))[k] by {
                lemma_val_in_update(pre.records@, i as int, rec, k);
            }
            assert(self@.records =~= pre@.records.insert(req.escrow@, Some(rec@)));
            assert(bal_nat(self.accounts@, req.escrow@) >= amount);
        }
        let res = self.transfer(&req.escrow, &req.recipient, amount);
        match res {
            Ok(()) => {
                proof {
                    let mv = move_bal(pre@.balances, req.escrow@, req.recipient@, amount as nat);
                    assert(self@.balances == mv);
                    assert forall|k: Seq<u8>| k != req.escrow@ implies #[trigger]
                        bal_nat(self.accounts@, k) >= bal_nat(pre.accounts@, k) by {
                        assert(bal_nat(self.accounts@, k) == self@.balances[k]);
                        assert(bal_nat(pre.accounts@, k) == pre@.balances[k]);
                    }
                    self.lemma_wf_after_release(pre, req.escrow@, i as int, (key, rec));
                    assert(self@ =~~= spec_release(old(self)@, req.escrow@, req.recipient@).0);
                }
                Ok(())
            },
            Err(e) => Err(e),
        }
    }

    /// The balance stored under an address, over the raw table.
    fn balance_at(&self, addr: &Address) -> (r: u64)
        requires
            uniq_keys(self.accounts@),
        ensures
            r as nat == bal_nat(self.accounts@, addr@),
            r as nat == self@.balances[addr@],
    {
        match find_key(&self.accounts, addr) {
            Some(i) => {
                proof {
                    lemma_val_in_found(self.accounts@, i as int);
                }
                self.accounts[i].1
            },
            None => {
                proof {
                    lemma_val_in_absent(self.accounts@, addr@);
                }
                0
            },
        }
    }

    /// The transfer primitive: atomically moves `amount` from `from` to
    /// `to`, or moves nothing at all when the source does not hold it.
    fn transfer(&mut self, from: &Address, to: &Address, amount: u64) -> (r: Result<
        (),
        EscrowError,
    >)
        requires
            uniq_keys(old(self).accounts@),
            old(self).total as int == sum_bal(old(self).accounts@),
        ensures
            uniq_keys(final(self).accounts@),
            final(self).total as int == sum_bal(final(self).accounts@),
            final(self).records == old(self).records,
            final(self).total == old(self).total,
            r is Ok <==> old(self)@.balances[from@] >= amount,
            r is Err ==> *final(self) == *old(self) && r == Err::<(), EscrowError>(
                EscrowError::InsufficientFunds,
            ),
            r is Ok ==> final(self)@.balances == move_bal(
                old(self)@.balances,
                from@,
                to@,
                amount as nat,
            ),
            final(self)@.records == old(self)@.records,
            final(self)@.supply == old(self)@.supply,
    {
        let bal_from = self.balance_at(from);
        if bal_from < amount {
            return Err(EscrowError::InsufficientFunds);
        }
        let ghost b0 = self.accounts@;
        match find_key(&self.accounts, from) {
            Some(i) => {
                proof {
                    lemma_val_in_found(b0, i as int);
                }
                let cur = self.accounts[i].1;
                let key = self.accounts[i].0;
                self.accounts[i] = (key, cur - amount);
                proof {
                    lemma_uniq_update(b0, i as int, (cur - amount) as u64);
                    lemma_sum_update(b0, i as int, (cur - amount) as u64);
                    assert forall|k: Seq<u8>|
                        bal_nat(self.accounts@, k) == (if k == from@ {
                            (bal_nat(b0, k) - amount) as nat
                        } else {
                            bal_nat(b0, k)
                        }) by {
                        lemma_val_in_update(b0, i as int, (cur - amount) as u64, k);
                    }
                }
            },
            None => {
                proof {
                    lemma_val_in_absent(b0, from@);
                    assert(amount == 0);
                    assert forall|k: Seq<u8>|
                        bal_nat(self.accounts@, k) == (if k == from@ {
                            (bal_nat(b0, k) - amount) as nat
                        } else {
                            bal_nat(b0, k)
                        }) by {}
                }
            },
        }
        let ghost b1 = self.accounts@;
        match find_key(&self.accounts, to) {
            Some(j) => {
                proof {
                    lemma_val_in_found(b1, j as int);
                    lemma_sum_elem_bound(b1, j as int);
                }
                let cur = self.accounts[j].1;
                let key = self.accounts[j].0;
                self.accounts[j] = (key, cur + amount);
                proof {
                    lemma_uniq_update(b1, j as int, (cur + amount) as u64);
                    lemma_sum_update(b1, j as int, (cur + amount) as u64);
                    assert forall|k: Seq<u8>|
                        bal_nat(self.accounts@, k) == (if k == to@ {
                            (bal_nat(b1, k) + amount) as nat
                        } else {
                            bal_nat(b1, k)
                        }) by {
                        lemma_val_in_update(b1, j as int, (cur + amount) as u64, k);
                    }
                }
            },
            None => {
                proof {
                    lemma_val_in_absent(b1, to@);
                }
                self.accounts.push((*to, amount));
                proof {
                    lemma_uniq_push(b1, (*to, amount));
                    lemma_sum_push(b1, (*to, amount));
                    assert forall|k: Seq<u8>|
                        bal_nat(self.accounts@, k) == (if k == to@ {
                            (bal_nat(b1, k) + amount) as nat
                        } else {
                            bal_nat(b1, k)
                        }) by {
                        lemma_val_in_push(b1, (*to, amount), k);
                    }
                }
            },
        }
        proof {
            let mv = move_bal(old(self)@.balances, from@, to@, amount as nat);
            assert forall|k: Seq<u8>| self@.balances[k] == mv[k] by {}
            assert(self@.balances =~= mv);
        }
        Ok(())
    }

    /// An operation that can only raise balances, with records untouched,
    /// preserves well-formedness.
    proof fn lemma_wf_credit_only(&self, pre: Ledger)
        requires
            pre.wf(),
            uniq_keys(self.accounts@),
            self.total as int == sum_bal(self.accounts@),
            self.records == pre.records,
            forall|k: Seq<u8>| #[trigger]
                bal_nat(self.accounts@, k) >= bal_nat(pre.accounts@, k),
        ensures
            self.wf(),
    {
        assert forall|i: int|
            0 <= i < self.records@.len() && !(#[trigger] self.records@[i]).1.is_released implies
            bal_nat(self.accounts@, self.records@[i].0@) >= self.records@[i].1.amount by {
            assert(self.records@[i] == pre.records@[i]);
            assert(bal_nat(pre.accounts@, pre.records@[i].0@) >= pre.records@[i].1.amount);
        }
    }

    /// After a successful create, well-formedness holds again: the new
    /// record's address holds the full amount, the organiser keys no record,
    /// and every older record's address kept at least its funds.
    proof fn lemma_wf_after_create(
        &self,
        pre: Ledger,
        organiser: Seq<u8>,
        addr: Seq<u8>,
        entry: (Address, EscrowAccount),
    )
        requires
            pre.wf(),
            uniq_keys(self.accounts@),
            uniq_keys(self.records@),
            self.total as int == sum_bal(self.accounts@),
            self.records@ == pre.records@.push(entry),
            entry.0@ == addr,
            addr == spec_derive_address(entry.1.task_hash@),
            forall|j: int|
                0 <= j < pre.records@.len() ==> (#[trigger] pre.records@[j]).0@ != organiser,
            forall|k: Seq<u8>|
                k != organiser ==> #[trigger] bal_nat(self.accounts@, k) >= bal_nat(
                    pre.accounts@,
                    k,
                ),
            bal_nat(self.accounts@, addr) >= entry.1.amount,
        ensures
            self.wf(),
    {
        assert forall|i: int| 0 <= i < self.records@.len() implies (#[trigger] self.records@[i]).0@
            == spec_derive_address(self.records@[i].1.task_hash@) by {
            if i < pre.records@.len() {
                assert(self.records@[i] == pre.records@[i]);
            } else {
                assert(self.records@[i] == entry);
            }
        }
        assert forall|i: int|
            0 <= i < self.records@.len() && !(#[trigger] self.records@[i]).1.is_released implies
            bal_nat(self.accounts@, self.records@[i].0@) >= self.records@[i].1.amount by {
            if i < pre.records@.len() {
                assert(self.records@[i] == pre.records@[i]);
                assert(pre.records@[i].0@ != organiser);
                assert(bal_nat(pre.accounts@, pre.records@[i].0@) >= pre.records@[i].1.amount);
                assert(bal_nat(self.accounts@, pre.records@[i].0@) >= bal_nat(
                    pre.accounts@,
                    pre.records@[i].0@,
                ));
            } else {
                assert(self.records@[i] == entry);
            }
        }
    }

    /// After a successful release, well-formedness holds again: the paid
    /// record is released and owes nothing, and every other unreleased
    /// record's address, all distinct from the paid one, kept at least its
    /// funds.
    proof fn lemma_wf_after_release(
        &self,
        pre: Ledger,
        escrow: Seq<u8>,
        i: int,
        entry: (Address, EscrowAccount),
    )
        requires
            pre.wf(),
            uniq_keys(self.accounts@),
            uniq_keys(self.records@),
            self.total as int == sum_bal(self.accounts@),
            0 <= i < pre.records@.len(),
            pre.records@[i].0@ == escrow,
            self.records@ == pre.records@.update(i, entry),
            entry.0 == pre.records@[i].0,
            entry.1.is_released == true,
            entry.1.task_hash == pre.records@[i].1.task_hash,
            forall|k: Seq<u8>|
                k != escrow ==> #[trigger] bal_nat(self.accounts@, k) >= bal_nat(pre.accounts@, k),
        ensures
            self.wf(),
    {
        assert forall|j: int| 0 <= j < self.records@.len() implies (#[trigger] self.records@[j]).0@
            == spec_derive_address(self.records@[j].1.task_hash@) by {
            if j != i {
                assert(self.records@[j] == pre.records@[j]);
            } else {
                assert(pre.records@[i].0@ == spec_derive_address(pre.records@[i].1.task_hash@));
            }
        }
        assert forall|j: int|
            0 <= j < self.records@.len() && !(#[trigger] self.records@[j]).1.is_released implies
            bal_nat(self.accounts@, self.records@[j].0@) >= self.records@[j].1.amount by {
            assert(j != i);
            assert(self.records@[j] == pre.records@[j]);
            assert(pre.records@[j].0@ != pre.records@[i].0@);
            assert(bal_nat(pre.accounts@, pre.records@[j].0@) >= pre.records@[j].1.amount);
        }
    }
}

} // verus!
