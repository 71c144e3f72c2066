use vstd::prelude::*;

verus! {

/// A 32-byte identity on the host ledger: a wallet, an escrow record's
/// storage slot, or any other balance holder.
#[derive(Clone, Copy, Debug, PartialEq, Eq)]
pub struct Address {
    pub bytes: [u8; 32],
}

impl View for Address {
    type V = Seq<u8>;

    open spec fn view(&self) -> Seq<u8> {
        self.bytes@
    }
}

/// The deterministic-addressing capability: the storage address of an escrow
/// record is a pure function of the 32-byte seed that created it, so any
/// party can recompute where a record lives without a lookup table.  The
/// model embeds the seed bytes directly, which is injective, so distinct
/// seeds never share an address and equal seeds always collide.
pub open spec fn spec_derive_address(seed: Seq<u8>) -> Seq<u8> {
    seed
}

/// Computes the storage address of the escrow record seeded by `task_hash`.
pub fn derive_address(task_hash: &[u8; 32]) -> (a: Address)
    ensures
        a@ == spec_derive_address(task_hash@),
{
    Address { bytes: *task_hash }
}

/// Byte-for-byte equality of two addresses.
pub fn addr_eq(a: &Address, b: &Address) -> (r: bool)
    ensures
        r == (a@ == b@),
{
    let mut i: usize = 0;
    while i < 32
        invariant
            i <= 32,
            forall|j: int| 0 <= j < i ==> a.bytes@[j] == b.bytes@[j],
        decreases 32 - i,
    {
        if a.bytes[i] != b.bytes[i] {
            assert(a@[i as int] != b@[i as int]);
            return false;
        }
        i += 1;
    }
    proof {
        assert(a@ =~= b@);
    }
    true
}

} // verus!
