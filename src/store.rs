use vstd::prelude::*;
use crate::types::{ConfirmationStatus, NoteId, OutPoint, ShieldedProtocol, TxId};

verus! {

/// A shielded note as the wallet keeps it: its value and whether it was spent.
#[derive(Clone, Copy, Debug)]
pub struct ShieldedNote {
    pub value: u64,
    pub spent: bool,
}

/// A transparent output received by the wallet.
#[derive(Clone, Debug)]
pub struct TransparentOutput {
    /// Position of the output among its transaction's outputs.
    pub output_index: u32,
    /// Value in base units, as recorded; not yet checked against the amount range.
    pub value: u64,
    /// Locking script.
    pub script: Vec<u8>,
}

/// A shielded note paired with the identifier that leads back to it.
#[derive(Clone, Copy, Debug)]
pub struct ReceivedNote {
    pub note_id: NoteId,
    pub value: u64,
}

/// Everything the wallet knows about one transaction.
#[derive(Clone, Debug)]
pub struct TransactionRecord {
    pub txid: TxId,
    pub status: ConfirmationStatus,
    pub sapling_notes: Vec<ShieldedNote>,
    pub orchard_notes: Vec<ShieldedNote>,
    pub transparent_outputs: Vec<TransparentOutput>,
}

impl TransactionRecord {
    pub open spec fn notes(self, pool: ShieldedProtocol) -> Seq<ShieldedNote> {
        match pool {
            ShieldedProtocol::Sapling => self.sapling_notes@,
            ShieldedProtocol::Orchard => self.orchard_notes@,
        }
    }

    /// Output indices are distinct and each pool holds fewer than 2^32 notes.
    pub open spec fn wf(self) -> bool {
        &&& self.sapling_notes@.len() <= u32::MAX
        &&& self.orchard_notes@.len() <= u32::MAX
        &&& forall|i: int, j: int|
            0 <= i < j < self.transparent_outputs@.len() ==> self.transparent_outputs@[i].output_index
                != self.transparent_outputs@[j].output_index
    }

    pub fn notes_of(&self, pool: ShieldedProtocol) -> (r: &Vec<ShieldedNote>)
        ensures
            r@ == self.notes(pool),
    {
        match pool {
            ShieldedProtocol::Sapling => &self.sapling_notes,
            ShieldedProtocol::Orchard => &self.orchard_notes,
        }
    }

    /// The outpoint that refers to `output` of this transaction.
    pub open spec fn outpoint_of(self, output: TransparentOutput) -> OutPoint {
        OutPoint { txid: self.txid, n: output.output_index }
    }

    pub fn to_outpoint(&self, output: &TransparentOutput) -> (r: OutPoint)
        ensures
            r == self.outpoint_of(*output),
    {
        OutPoint { txid: self.txid, n: output.output_index }
    }

    /// The note of `pool` at `index`, with its identifier, if there is one.
    pub fn get_received_note(&self, pool: ShieldedProtocol, index: u32) -> (r: Option<ReceivedNote>)
        ensures
            (index < self.notes(pool).len()) == (r is Some),
            r matches Some(n) ==> n == (ReceivedNote {
                note_id: NoteId { txid: self.txid, pool, index },
                value: self.notes(pool)[index as int].value,
            }),
    {
        let notes = self.notes_of(pool);
        if (index as usize) < notes.len() {
            Some(ReceivedNote {
                note_id: NoteId { txid: self.txid, pool, index },
                value: notes[index as usize].value,
            })
        } else {
            None
        }
    }
}

/// The wallet's transaction records, at most one per transaction identifier.
#[derive(Clone, Debug)]
pub struct TransactionRecordsById {
    pub records: Vec<TransactionRecord>,
}

impl TransactionRecordsById {
    pub open spec fn wf(self) -> bool {
        &&& forall|i: int| 0 <= i < self.records@.len() ==> #[trigger] self.records@[i].wf()
        &&& forall|i: int, j: int|
            0 <= i < j < self.records@.len() ==> self.records@[i].txid != self.records@[j].txid
    }

    pub fn new() -> (r: TransactionRecordsById)
        ensures
            r.wf(),
            r.records@.len() == 0,
    {
        TransactionRecordsById { records: Vec::new() }
    }

    /// Position of the record of `txid`, if there is one.
    pub fn position(&self, txid: &TxId) -> (r: Option<usize>)
        ensures
            r matches Some(i) ==> i < self.records@.len() && self.records@[i as int].txid == *txid,
            r is None ==> forall|i: int| 0 <= i < self.records@.len() ==> self.records@[i].txid != *txid,
    {
        let mut i: usize = 0;
        while i < self.records.len()
            invariant
                i <= self.records@.len(),
                forall|j: int| 0 <= j < i ==> self.records@[j].txid != *txid,
            decreases self.records@.len() - i,
        {
            if self.records[i].txid.same_as(txid) {
                return Some(i);
            }
            i = i + 1;
        }
        None
    }

    /// Adds `record`, replacing the record of the same transaction if there is one.
    pub fn insert_transaction_record(&mut self, record: TransactionRecord)
        requires
            old(self).wf(),
            record.wf(),
        ensures
            final(self).wf(),
            exists|i: int| 0 <= i < final(self).records@.len() && final(self).records@[i] == record,
            forall|i: int|
                0 <= i < old(self).records@.len() && old(self).records@[i].txid != record.txid
                    ==> final(self).records@.contains(old(self).records@[i]),
            forall|i: int|
                0 <= i < final(self).records@.len() && final(self).records@[i].txid != record.txid
                    ==> old(self).records@.contains(final(self).records@[i]),
    {
        match self.position(&record.txid) {
            Some(i) => {
                self.records.set(i, record);
                assert(self.records@[i as int] == record);
                assert forall|j: int|
                    0 <= j < old(self).records@.len() && old(self).records@[j].txid != record.txid
                        implies self.records@.contains(old(self).records@[j]) by {
                    assert(self.records@[j] == old(self).records@[j]);
                }
                assert forall|j: int|
                    0 <= j < self.records@.len() && self.records@[j].txid != record.txid
                        implies old(self).records@.contains(self.records@[j]) by {
                    assert(self.records@[j] == old(self).records@[j]);
                }
            },
            None => {
                self.records.push(record);
                let ghost n = old(self).records@.len() as int;
                assert(self.records@[n] == record);
                assert forall|j: int|
                    0 <= j < old(self).records@.len() && old(self).records@[j].txid != record.txid
                        implies self.records@.contains(old(self).records@[j]) by {
                    assert(self.records@[j] == old(self).records@[j]);
                }
                assert forall|j: int|
                    0 <= j < self.records@.len() && self.records@[j].txid != record.txid
                        implies old(self).records@.contains(self.records@[j]) by {
                    assert(self.records@[j] == old(self).records@[j]);
                }
            },
        }
    }
}

} // verus!
