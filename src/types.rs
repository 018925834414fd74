use vstd::prelude::*;

verus! {


broadcast use vstd::array::group_array_axioms;

/// Identifier of a transaction: 32 raw bytes.
#[derive(Clone, Copy, Debug)]
pub struct TxId {
    pub bytes: [u8; 32],
}

impl TxId {
    /// Compares two transaction identifiers byte by byte.
    pub fn same_as(&self, other: &TxId) -> (r: bool)
        ensures
            r == (*self == *other),
    {
        let mut i: usize = 0;
        while i < 32
            invariant
                i <= 32,
                forall|j: int| 0 <= j < i ==> self.bytes@[j] == other.bytes@[j],
            decreases 32 - i,
        {
            if self.bytes[i] != other.bytes[i] {
                return false;
            }
            i = i + 1;
        }
        proof {
            assert(self.bytes =~= other.bytes);
        }
        true
    }
}


/// The shielded value pools, in the order in which selection draws from them.
#[derive(Clone, Copy, Debug, PartialEq, Eq, Structural)]
pub enum ShieldedProtocol {
    Sapling,
    Orchard,
}

/// Identifies a shielded note: its transaction, its pool and its position in
/// that transaction's notes of the pool.
#[derive(Clone, Copy, Debug)]
pub struct NoteId {
    pub txid: TxId,
    pub pool: ShieldedProtocol,
    pub index: u32,
}

impl NoteId {
    pub fn same_as(&self, other: &NoteId) -> (r: bool)
        ensures
            r == (*self == *other),
    {
        self.pool == other.pool && self.index == other.index && self.txid.same_as(&other.txid)
    }
}

/// Reference to a transparent output: its transaction and its output index.
#[derive(Clone, Copy, Debug)]
pub struct OutPoint {
    pub txid: TxId,
    pub n: u32,
}

impl OutPoint {
    pub fn same_as(&self, other: &OutPoint) -> (r: bool)
        ensures
            r == (*self == *other),
    {
        self.n == other.n && self.txid.same_as(&other.txid)
    }
}

/// A transparent address: the hash of a public key or of a script.
#[derive(Clone, Copy, Debug)]
pub enum TransparentAddress {
    PublicKeyHash([u8; 20]),
    ScriptHash([u8; 20]),
}

/// A block height.
pub type BlockHeight = u32;

/// An account identity. Only the account with index zero is supported.
#[derive(Clone, Copy, Debug, PartialEq, Eq, Structural)]
pub struct AccountId {
    pub index: u32,
}

impl AccountId {
    /// The sole supported account.
    pub fn zero() -> (r: AccountId)
        ensures
            r.index == 0,
    {
        AccountId { index: 0 }
    }
}

/// Where a transaction stands with respect to the chain.
#[derive(Clone, Copy, Debug, PartialEq, Eq, Structural)]
pub enum ConfirmationStatus {
    Unconfirmed,
    Confirmed(BlockHeight),
    Conflicted,
}

impl ConfirmationStatus {
    pub open spec fn confirmed_height(self) -> Option<BlockHeight> {
        match self {
            ConfirmationStatus::Confirmed(h) => Some(h),
            _ => None,
        }
    }

    pub open spec fn confirmed_at_or_before(self, h: BlockHeight) -> bool {
        match self {
            ConfirmationStatus::Confirmed(c) => c <= h,
            _ => false,
        }
    }

    pub fn get_confirmed_height(&self) -> (r: Option<BlockHeight>)
        ensures
            r == self.confirmed_height(),
    {
        match self {
            ConfirmationStatus::Confirmed(h) => Some(*h),
            _ => None,
        }
    }

    pub fn is_confirmed_before_or_at(&self, h: BlockHeight) -> (r: bool)
        ensures
            r == self.confirmed_at_or_before(h),
    {
        match self {
            ConfirmationStatus::Confirmed(c) => *c <= h,
            _ => false,
        }
    }
}

} // verus!
