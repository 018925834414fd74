use vstd::prelude::*;
use crate::amount::{Amount, MAX_MONEY};
use crate::error::InputSourceError;
use crate::selection::{
    all_in_range, collect_candidates, contains_pool, greedy, pool_candidates, sort_by_value_desc,
    sort_desc, take_greedy,
};
use crate::store::{ReceivedNote, TransactionRecord, TransactionRecordsById, TransparentOutput};
use crate::types::{AccountId, BlockHeight, NoteId, OutPoint, ShieldedProtocol, TransparentAddress, TxId};

verus! {

/// The notes chosen by selection, grouped by pool.
#[derive(Clone, Debug)]
pub struct SpendableNotes {
    pub sapling: Vec<ReceivedNote>,
    pub orchard: Vec<ReceivedNote>,
}

/// A transparent output ready to be spent: where it is, what it holds, and
/// the height of the block that confirmed it.
#[derive(Clone, Debug)]
pub struct WalletTransparentOutput {
    pub outpoint: OutPoint,
    pub value: Amount,
    pub script: Vec<u8>,
    pub height: BlockHeight,
}

/// A transparent output as plain values: outpoint, value, script and height.
pub type OutputView = (OutPoint, u64, Seq<u8>, BlockHeight);

impl View for WalletTransparentOutput {
    type V = OutputView;

    open spec fn view(&self) -> OutputView {
        (self.outpoint, self.value.spec_u64(), self.script@, self.height)
    }
}

/// Outcome of selection over the store's records, as a sequence of notes for
/// each pool. The first pool is drawn from first, each ordered by value,
/// largest first; the second continues with what the first left unmet.
pub open spec fn select_outcome(
    recs: Seq<TransactionRecord>,
    target: nat,
    sources: Seq<ShieldedProtocol>,
    anchor: BlockHeight,
    exclude: Seq<NoteId>,
) -> Result<(Seq<ReceivedNote>, Seq<ReceivedNote>), InputSourceError> {
    let sap = greedy(
        sort_desc(pool_candidates(recs, ShieldedProtocol::Sapling, sources, anchor, exclude)),
        target,
    );
    let orc = greedy(
        sort_desc(pool_candidates(recs, ShieldedProtocol::Orchard, sources, anchor, exclude)),
        sap.1,
    );
    if !all_in_range(sap.0) || !all_in_range(orc.0) {
        Err(InputSourceError::AmountRange)
    } else if orc.1 > 0 {
        Err(InputSourceError::InsufficientFunds { shortfall: orc.1 as u64 })
    } else {
        Ok((sap.0, orc.0))
    }
}

/// The first of `outs` whose outpoint, in the transaction `txid`, is `op`.
pub open spec fn find_output(txid: TxId, outs: Seq<TransparentOutput>, op: OutPoint) -> Option<
    TransparentOutput,
>
    decreases outs.len(),
{
    if outs.len() == 0 {
        None
    } else if (OutPoint { txid, n: outs[0].output_index }) == op {
        Some(outs[0])
    } else {
        find_output(txid, outs.drop_first(), op)
    }
}

/// The output of `rec` at `op`, with the record's height, if `rec` is confirmed.
pub open spec fn record_output(rec: TransactionRecord, op: OutPoint) -> Option<
    (BlockHeight, TransparentOutput),
> {
    match find_output(rec.txid, rec.transparent_outputs@, op) {
        Some(o) => match rec.status.confirmed_height() {
            Some(h) => Some((h, o)),
            None => None,
        },
        None => None,
    }
}

/// The first record, in store order, that yields an output at `op`.
pub open spec fn output_lookup(recs: Seq<TransactionRecord>, op: OutPoint) -> Option<
    (BlockHeight, TransparentOutput),
>
    decreases recs.len(),
{
    if recs.len() == 0 {
        None
    } else {
        match record_output(recs[0], op) {
            Some(x) => Some(x),
            None => output_lookup(recs.drop_first(), op),
        }
    }
}

/// The outputs among the first `k` of `rec` that are not excluded, at height `h`.
pub open spec fn record_outputs_from(
    rec: TransactionRecord,
    h: BlockHeight,
    exclude: Seq<OutPoint>,
    k: nat,
) -> Seq<OutputView>
    decreases k,
{
    if k == 0 {
        seq![]
    } else {
        let i = (k - 1) as nat;
        let o = rec.transparent_outputs@[i as int];
        let rest = record_outputs_from(rec, h, exclude, i);
        if !exclude.contains(rec.outpoint_of(o)) {
            rest.push((rec.outpoint_of(o), o.value, o.script@, h))
        } else {
            rest
        }
    }
}

/// The outputs of `rec` that bulk lookup returns.
pub open spec fn record_outputs(rec: TransactionRecord, max_height: BlockHeight, exclude: Seq<OutPoint>) -> Seq<OutputView> {
    match rec.status.confirmed_height() {
        Some(h) => if h <= max_height {
            record_outputs_from(rec, h, exclude, rec.transparent_outputs@.len())
        } else {
            seq![]
        },
        None => seq![],
    }
}

/// All outputs that bulk lookup returns, in store order.
pub open spec fn bulk_outputs(recs: Seq<TransactionRecord>, max_height: BlockHeight, exclude: Seq<OutPoint>) -> Seq<OutputView>
    decreases recs.len(),
{
    if recs.len() == 0 {
        seq![]
    } else {
        bulk_outputs(recs.drop_last(), max_height, exclude) + record_outputs(
            recs.last(),
            max_height,
            exclude,
        )
    }
}

/// Every value in `s` is a valid amount.
pub open spec fn outputs_in_range(s: Seq<OutputView>) -> bool {
    forall|i: int| 0 <= i < s.len() ==> #[trigger] s[i].1 <= MAX_MONEY
}

proof fn lemma_outputs_prefix(rec: TransactionRecord, h: BlockHeight, exclude: Seq<OutPoint>, a: nat, b: nat)
    requires
        a <= b,
    ensures
        record_outputs_from(rec, h, exclude, a).len() <= record_outputs_from(rec, h, exclude, b).len(),
        forall|i: int|
            0 <= i < record_outputs_from(rec, h, exclude, a).len() ==> record_outputs_from(rec, h, exclude, b)[i]
                == record_outputs_from(rec, h, exclude, a)[i],
    decreases b,
{
    if a < b {
        lemma_outputs_prefix(rec, h, exclude, a, (b - 1) as nat);
    }
}

proof fn lemma_bulk_prefix(recs: Seq<TransactionRecord>, max_height: BlockHeight, exclude: Seq<OutPoint>, a: int)
    requires
        0 <= a <= recs.len(),
    ensures
        bulk_outputs(recs.take(a), max_height, exclude).len() <= bulk_outputs(recs, max_height, exclude).len(),
        forall|i: int|
            0 <= i < bulk_outputs(recs.take(a), max_height, exclude).len() ==> bulk_outputs(recs, max_height, exclude)[i]
                == bulk_outputs(recs.take(a), max_height, exclude)[i],
    decreases recs.len(),
{
    if a == recs.len() {
        assert(recs.take(a) =~= recs);
    } else {
        assert(recs.drop_last().take(a) =~= recs.take(a));
        lemma_bulk_prefix(recs.drop_last(), max_height, exclude, a);
    }
}

impl TransactionRecordsById {
    /// The note of `protocol` at `index` in transaction `txid`, or `None`
    /// where there is no such transaction or no such note.
    pub fn get_spendable_note(&self, txid: &TxId, protocol: ShieldedProtocol, index: u32) -> (r:
        Option<ReceivedNote>)
        requires
            self.wf(),
        ensures
            r is Some <==> exists|i: int|
                0 <= i < self.records@.len() && self.records@[i].txid == *txid && index
                    < self.records@[i].notes(protocol).len(),
            forall|i: int|
                0 <= i < self.records@.len() && self.records@[i].txid == *txid ==> r == (if index
                    < self.records@[i].notes(protocol).len() {
                    Some(
                        ReceivedNote {
                            note_id: NoteId { txid: *txid, pool: protocol, index },
                            value: self.records@[i].notes(protocol)[index as int].value,
                        },
                    )
                } else {
                    None
                }),
    {
        match self.position(txid) {
            Some(i) => self.records[i].get_received_note(protocol, index),
            None => None,
        }
    }

    /// Chooses notes whose values together reach `target_value`: the first
    /// pool is drawn from before the second, each largest value first, from
    /// the unspent notes of the permitted `sources` in records confirmed at or
    /// before `anchor_height`, leaving out the identifiers in `exclude`.
    /// Fails with `InsufficientFunds` carrying the exact shortfall when all of
    /// them are not enough, and with `UnsupportedAccount` for any account
    /// other than account zero.
    pub fn select_spendable_notes(
        &self,
        account: AccountId,
        target_value: Amount,
        sources: &[ShieldedProtocol],
        anchor_height: BlockHeight,
        exclude: &[NoteId],
    ) -> (r: Result<SpendableNotes, InputSourceError>)
        requires
            self.wf(),
        ensures
            account.index != 0 ==> r == Err::<SpendableNotes, _>(InputSourceError::UnsupportedAccount),
            account.index == 0 ==> match select_outcome(
                self.records@,
                target_value.spec_u64() as nat,
                sources@,
                anchor_height,
                exclude@,
            ) {
                Ok(sel) => r matches Ok(notes) && notes.sapling@ == sel.0 && notes.orchard@ == sel.1,
                Err(e) => r == Err::<SpendableNotes, _>(e),
            },
    {
        if account.index != 0 {
            return Err(InputSourceError::UnsupportedAccount);
        }
        let mut sapling: Vec<ReceivedNote> = Vec::new();
        if contains_pool(sources, ShieldedProtocol::Sapling) {
            sapling = collect_candidates(self, ShieldedProtocol::Sapling, anchor_height, exclude);
        }
        let mut orchard: Vec<ReceivedNote> = Vec::new();
        if contains_pool(sources, ShieldedProtocol::Orchard) {
            orchard = collect_candidates(self, ShieldedProtocol::Orchard, anchor_height, exclude);
        }
        // Each candidate carries its value from the scan, so nothing is looked up twice.
        let sapling = sort_by_value_desc(&sapling);
        let orchard = sort_by_value_desc(&orchard);
        let (sapling_notes, after_sapling) = match take_greedy(&sapling, target_value) {
            Ok(p) => p,
            Err(e) => return Err(e),
        };
        let (orchard_notes, after_orchard) = match take_greedy(&orchard, after_sapling) {
            Ok(p) => p,
            Err(e) => return Err(e),
        };
        let shortfall = after_orchard.into_u64();
        if shortfall > 0 {
            return Err(InputSourceError::InsufficientFunds { shortfall });
        }
        Ok(SpendableNotes { sapling: sapling_notes, orchard: orchard_notes })
    }

    /// The first output of `rec` whose outpoint is `op`.
    fn find_output_in(rec: &TransactionRecord, op: &OutPoint) -> (r: Option<usize>)
        ensures
            r is None <==> find_output(rec.txid, rec.transparent_outputs@, *op) is None,
            r matches Some(k) ==> k < rec.transparent_outputs@.len() && find_output(
                rec.txid,
                rec.transparent_outputs@,
                *op,
            ) == Some(rec.transparent_outputs@[k as int]),
    {
        let outs = &rec.transparent_outputs;
        let mut k: usize = 0;
        proof {
            assert(outs@.skip(0) =~= outs@);
        }
        while k < outs.len()
            invariant
                k <= outs@.len(),
                outs@ == rec.transparent_outputs@,
                find_output(rec.txid, outs@, *op) == find_output(rec.txid, outs@.skip(k as int), *op),
            decreases outs@.len() - k,
        {
            assert(outs@.skip(k as int).drop_first() =~= outs@.skip(k + 1));
            if rec.to_outpoint(&outs[k]).same_as(op) {
                return Some(k);
            }
            k = k + 1;
        }
        None
    }

    /// The unspent transparent output at `outpoint`, with the height of its
    /// confirmed transaction, or `None` where no confirmed record holds it.
    /// Fails with `AmountRange` where the recorded value is not a valid amount.
    pub fn get_unspent_transparent_output(&self, outpoint: &OutPoint) -> (r: Result<
        Option<WalletTransparentOutput>,
        InputSourceError,
    >)
        ensures
            match output_lookup(self.records@, *outpoint) {
                None => r matches Ok(None),
                Some((h, o)) => if o.value <= MAX_MONEY {
                    r matches Ok(Some(w)) && w@ == (*outpoint, o.value, o.script@, h)
                } else {
                    r == Err::<Option<WalletTransparentOutput>, _>(InputSourceError::AmountRange)
                },
            },
    {
        let recs = &self.records;
        let mut i: usize = 0;
        proof {
            assert(recs@.skip(0) =~= recs@);
        }
        while i < recs.len()
            invariant
                i <= recs@.len(),
                recs@ == self.records@,
                output_lookup(recs@, *outpoint) == output_lookup(recs@.skip(i as int), *outpoint),
            decreases recs@.len() - i,
        {
            let rec = &recs[i];
            assert(recs@.skip(i as int)[0] == *rec);
            assert(recs@.skip(i as int).drop_first() =~= recs@.skip(i + 1));
            if let Some(k) = Self::find_output_in(rec, outpoint) {
                if let Some(height) = rec.status.get_confirmed_height() {
                    let output = &rec.transparent_outputs[k];
                    let value = match Amount::from_u64(output.value) {
                        Some(v) => v,
                        None => return Err(InputSourceError::AmountRange),
                    };
                    let script = output.script.clone();
                    assert(script@ =~= output.script@);
                    return Ok(Some(WalletTransparentOutput { outpoint: *outpoint, value, script, height }));
                }
            }
            i = i + 1;
        }
        Ok(None)
    }

    /// Appends to `out` the outputs of `rec`, confirmed at `height`, whose
    /// outpoints are not in `exclude`.
    fn push_record_outputs(
        rec: &TransactionRecord,
        height: BlockHeight,
        exclude: &[OutPoint],
        out: &mut Vec<WalletTransparentOutput>,
    ) -> (r: Result<(), InputSourceError>)
        ensures
            r is Ok <==> outputs_in_range(record_outputs_from(*rec, height, exclude@, rec.transparent_outputs@.len())),
            r is Ok ==> final(out)@.map_values(|w: WalletTransparentOutput| w@) == old(out)@.map_values(
                |w: WalletTransparentOutput| w@,
            ) + record_outputs_from(*rec, height, exclude@, rec.transparent_outputs@.len()),
            r matches Err(e) ==> e == InputSourceError::AmountRange,
    {
        let outs = &rec.transparent_outputs;
        let mut k: usize = 0;
        while k < outs.len()
            invariant
                k <= outs@.len(),
                outs@ == rec.transparent_outputs@,
                outputs_in_range(record_outputs_from(*rec, height, exclude@, k as nat)),
                out@.map_values(|w: WalletTransparentOutput| w@) == old(out)@.map_values(
                    |w: WalletTransparentOutput| w@,
                ) + record_outputs_from(*rec, height, exclude@, k as nat),
            decreases outs@.len() - k,
        {
            let output = &outs[k];
            let op = rec.to_outpoint(output);
            let ghost before = out@;
            let ghost prev = record_outputs_from(*rec, height, exclude@, k as nat);
            assert(*output == rec.transparent_outputs@[k as int]);
            let mut excluded = false;
            let mut j: usize = 0;
            while j < exclude.len()
                invariant
                    j <= exclude@.len(),
                    excluded == exists|m: int| 0 <= m < j && exclude@[m] == op,
                decreases exclude@.len() - j,
            {
                if exclude[j].same_as(&op) {
                    excluded = true;
                }
                j = j + 1;
            }
            assert(excluded == exclude@.contains(op));
            if !excluded {
                let value = match Amount::from_u64(output.value) {
                    Some(v) => v,
                    None => {
                        let ghost part = record_outputs_from(*rec, height, exclude@, (k + 1) as nat);
                        let ghost whole = record_outputs_from(*rec, height, exclude@, outs@.len());
                        proof {
                            lemma_outputs_prefix(*rec, height, exclude@, (k + 1) as nat, outs@.len());
                            let m = part.len() - 1;
                            assert(whole[m] == part[m]);
                            assert(!(whole[m].1 <= MAX_MONEY));
                        }
                        return Err(InputSourceError::AmountRange);
                    },
                };
                let script = output.script.clone();
                assert(script@ =~= output.script@);
                let w = WalletTransparentOutput { outpoint: op, value, script, height };
                assert(w@ == (rec.outpoint_of(*output), output.value, output.script@, height));
                out.push(w);
                assert(out@.map_values(|w: WalletTransparentOutput| w@) =~= before.map_values(
                    |w: WalletTransparentOutput| w@,
                ).push(w@));
                assert(record_outputs_from(*rec, height, exclude@, (k + 1) as nat) == prev.push(w@));
                assert forall|m: int|
                    0 <= m < prev.len() + 1 implies #[trigger] prev.push(w@)[m].1 <= MAX_MONEY by {
                    if m < prev.len() {
                        assert(prev.push(w@)[m] == prev[m]);
                    }
                }
            } else {
                assert(record_outputs_from(*rec, height, exclude@, (k + 1) as nat) == prev);
            }
            assert(out@.map_values(|w: WalletTransparentOutput| w@) =~= old(out)@.map_values(
                |w: WalletTransparentOutput| w@,
            ) + record_outputs_from(*rec, height, exclude@, (k + 1) as nat));
            k = k + 1;
        }
        Ok(())
    }
    /// Every transparent output of a record confirmed at or below
    /// `max_height` whose outpoint is not in `exclude`, in store order. The
    /// address is not used to filter: outputs of every address are returned.
    /// Fails with `AmountRange` where one of those values is not a valid amount.
    pub fn get_unspent_transparent_outputs(
        &self,
        _address: &TransparentAddress,
        max_height: BlockHeight,
        exclude: &[OutPoint],
    ) -> (r: Result<Vec<WalletTransparentOutput>, InputSourceError>)
        ensures
            r is Ok <==> outputs_in_range(bulk_outputs(self.records@, max_height, exclude@)),
            r matches Ok(v) ==> v@.map_values(|w: WalletTransparentOutput| w@) == bulk_outputs(
                self.records@,
                max_height,
                exclude@,
            ),
            r matches Err(e) ==> e == InputSourceError::AmountRange,
    {
        let recs = &self.records;
        let mut out: Vec<WalletTransparentOutput> = Vec::new();
        let mut i: usize = 0;
        proof {
            assert(out@.map_values(|w: WalletTransparentOutput| w@) =~= bulk_outputs(recs@.take(0), max_height, exclude@));
        }
        while i < recs.len()
            invariant
                i <= recs@.len(),
                recs@ == self.records@,
                outputs_in_range(bulk_outputs(recs@.take(i as int), max_height, exclude@)),
                out@.map_values(|w: WalletTransparentOutput| w@) == bulk_outputs(recs@.take(i as int), max_height, exclude@),
            decreases recs@.len() - i,
        {
            let rec = &recs[i];
            let ghost before = bulk_outputs(recs@.take(i as int), max_height, exclude@);
            let ghost after = bulk_outputs(recs@.take(i + 1), max_height, exclude@);
            assert(recs@.take(i + 1).drop_last() =~= recs@.take(i as int));
            assert(after == before + record_outputs(*rec, max_height, exclude@));
            if let Some(height) = rec.status.get_confirmed_height() {
                if height <= max_height {
                    match Self::push_record_outputs(rec, height, exclude, &mut out) {
                        Ok(()) => {
                            assert forall|m: int| 0 <= m < after.len() implies #[trigger] after[m].1 <= MAX_MONEY by {
                                if m >= before.len() {
                                    assert(after[m] == record_outputs(*rec, max_height, exclude@)[m - before.len()]);
                                }
                            }
                        },
                        Err(e) => {
                            proof {
                                let part = record_outputs(*rec, max_height, exclude@);
                                let m = choose|m: int| 0 <= m < part.len() && !(#[trigger] part[m].1 <= MAX_MONEY);
                                assert(after[before.len() + m] == part[m]);
                                lemma_bulk_prefix(recs@, max_height, exclude@, i + 1);
                                assert(!(bulk_outputs(recs@, max_height, exclude@)[before.len() + m].1 <= MAX_MONEY));
                            }
                            return Err(e);
                        },
                    }
                } else {
                    assert(after =~= before);
                }
            } else {
                assert(after =~= before);
            }
            i = i + 1;
        }
        assert(recs@.take(i as int) =~= recs@);
        Ok(out)
    }

}

} // verus!
