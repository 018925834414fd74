use vstd::prelude::*;
use crate::amount::{Amount, MAX_MONEY};
use crate::error::InputSourceError;
use crate::store::{ReceivedNote, ShieldedNote, TransactionRecord, TransactionRecordsById};
use crate::types::{BlockHeight, NoteId, ShieldedProtocol, TxId};

verus! {

/// The unspent notes among the first `k` of `notes`, skipping excluded identifiers.
pub open spec fn unspent_from(
    txid: TxId,
    pool: ShieldedProtocol,
    notes: Seq<ShieldedNote>,
    exclude: Seq<NoteId>,
    k: nat,
) -> Seq<ReceivedNote>
    decreases k,
{
    if k == 0 {
        seq![]
    } else {
        let i = (k - 1) as nat;
        let id = NoteId { txid, pool, index: i as u32 };
        let rest = unspent_from(txid, pool, notes, exclude, i);
        if !notes[i as int].spent && !exclude.contains(id) {
            rest.push(ReceivedNote { note_id: id, value: notes[i as int].value })
        } else {
            rest
        }
    }
}

/// The candidates that one record offers in `pool`.
pub open spec fn record_candidates(
    rec: TransactionRecord,
    pool: ShieldedProtocol,
    anchor: BlockHeight,
    exclude: Seq<NoteId>,
) -> Seq<ReceivedNote> {
    if rec.status.confirmed_at_or_before(anchor) {
        unspent_from(rec.txid, pool, rec.notes(pool), exclude, rec.notes(pool).len())
    } else {
        seq![]
    }
}

/// The candidates of `pool` over all records, in the order of the records.
pub open spec fn collected(
    recs: Seq<TransactionRecord>,
    pool: ShieldedProtocol,
    anchor: BlockHeight,
    exclude: Seq<NoteId>,
) -> Seq<ReceivedNote>
    decreases recs.len(),
{
    if recs.len() == 0 {
        seq![]
    } else {
        collected(recs.drop_last(), pool, anchor, exclude) + record_candidates(
            recs.last(),
            pool,
            anchor,
            exclude,
        )
    }
}

/// The candidates of `pool`, or none where `pool` is not among `sources`.
pub open spec fn pool_candidates(
    recs: Seq<TransactionRecord>,
    pool: ShieldedProtocol,
    sources: Seq<ShieldedProtocol>,
    anchor: BlockHeight,
    exclude: Seq<NoteId>,
) -> Seq<ReceivedNote> {
    if sources.contains(pool) {
        collected(recs, pool, anchor, exclude)
    } else {
        seq![]
    }
}

pub fn contains_note_id(exclude: &[NoteId], id: &NoteId) -> (r: bool)
    ensures
        r == exclude@.contains(*id),
{
    let mut i: usize = 0;
    while i < exclude.len()
        invariant
            i <= exclude@.len(),
            forall|j: int| 0 <= j < i ==> exclude@[j] != *id,
        decreases exclude@.len() - i,
    {
        if exclude[i].same_as(id) {
            return true;
        }
        i = i + 1;
    }
    false
}

pub fn contains_pool(sources: &[ShieldedProtocol], pool: ShieldedProtocol) -> (r: bool)
    ensures
        r == sources@.contains(pool),
{
    let mut i: usize = 0;
    while i < sources.len()
        invariant
            i <= sources@.len(),
            forall|j: int| 0 <= j < i ==> sources@[j] != pool,
        decreases sources@.len() - i,
    {
        if sources[i] == pool {
            return true;
        }
        i = i + 1;
    }
    false
}

/// Appends to `out` the candidates that `rec` offers in `pool`.
fn push_record_candidates(
    rec: &TransactionRecord,
    pool: ShieldedProtocol,
    anchor: BlockHeight,
    exclude: &[NoteId],
    out: &mut Vec<ReceivedNote>,
)
    requires
        rec.wf(),
    ensures
        final(out)@ == old(out)@ + record_candidates(*rec, pool, anchor, exclude@),
{
    if !rec.status.is_confirmed_before_or_at(anchor) {
        assert(old(out)@ + seq![] =~= old(out)@);
        return;
    }
    let notes = rec.notes_of(pool);
    let mut i: usize = 0;
    while i < notes.len()
        invariant
            i <= notes@.len(),
            notes@ == rec.notes(pool),
            notes@.len() <= u32::MAX,
            out@ == old(out)@ + unspent_from(rec.txid, pool, notes@, exclude@, i as nat),
        decreases notes@.len() - i,
    {
        let id = NoteId { txid: rec.txid, pool, index: i as u32 };
        let ghost before = out@;
        if !notes[i].spent && !contains_note_id(exclude, &id) {
            out.push(ReceivedNote { note_id: id, value: notes[i].value });
        }
        assert(out@ =~= old(out)@ + unspent_from(rec.txid, pool, notes@, exclude@, (i + 1) as nat));
        i = i + 1;
    }
}

/// The candidates of `pool` across the store.
pub fn collect_candidates(
    store: &TransactionRecordsById,
    pool: ShieldedProtocol,
    anchor: BlockHeight,
    exclude: &[NoteId],
) -> (r: Vec<ReceivedNote>)
    requires
        store.wf(),
    ensures
        r@ == collected(store.records@, pool, anchor, exclude@),
{
    let mut out: Vec<ReceivedNote> = Vec::new();
    let mut i: usize = 0;
    while i < store.records.len()
        invariant
            i <= store.records@.len(),
            store.wf(),
            out@ == collected(store.records@.take(i as int), pool, anchor, exclude@),
        decreases store.records@.len() - i,
    {
        push_record_candidates(&store.records[i], pool, anchor, exclude, &mut out);
        assert(store.records@.take(i + 1).drop_last() =~= store.records@.take(i as int));
        i = i + 1;
    }
    assert(store.records@.take(i as int) =~= store.records@);
    out
}

/// `s` with `x` placed before the first element of smaller value: a stable
/// insertion into a sequence ordered by value, largest first.
pub open spec fn insert_desc(x: ReceivedNote, s: Seq<ReceivedNote>) -> Seq<ReceivedNote>
    decreases s.len(),
{
    if s.len() == 0 {
        seq![x]
    } else if x.value > s[0].value {
        seq![x] + s
    } else {
        seq![s[0]] + insert_desc(x, s.drop_first())
    }
}

/// `s` ordered by value, largest first; equal values keep their order.
pub open spec fn sort_desc(s: Seq<ReceivedNote>) -> Seq<ReceivedNote>
    decreases s.len(),
{
    if s.len() == 0 {
        seq![]
    } else {
        insert_desc(s.last(), sort_desc(s.drop_last()))
    }
}

/// Greedy selection: takes notes from the front while `rem` is positive,
/// lowering `rem` by each value and stopping at zero. Gives the notes taken and
/// what remains unmet.
pub open spec fn greedy(s: Seq<ReceivedNote>, rem: nat) -> (Seq<ReceivedNote>, nat)
    decreases s.len(),
{
    if s.len() == 0 || rem == 0 {
        (seq![], rem)
    } else {
        let next: nat = if s[0].value >= rem { 0 } else { (rem - s[0].value) as nat };
        let (t, r) = greedy(s.drop_first(), next);
        (seq![s[0]] + t, r)
    }
}

/// Every value in `s` is a valid amount.
pub open spec fn all_in_range(s: Seq<ReceivedNote>) -> bool {
    forall|i: int| 0 <= i < s.len() ==> #[trigger] s[i].value <= MAX_MONEY
}

proof fn lemma_insert_desc_split(x: ReceivedNote, s: Seq<ReceivedNote>, p: int)
    requires
        0 <= p <= s.len(),
        forall|j: int| 0 <= j < p ==> s[j].value >= x.value,
        p < s.len() ==> x.value > s[p].value,
    ensures
        insert_desc(x, s) == s.take(p) + seq![x] + s.skip(p),
    decreases s.len(),
{
    if s.len() == 0 {
        assert(s.take(p) + seq![x] + s.skip(p) =~= seq![x]);
    } else if p == 0 {
        assert(s.take(p) + seq![x] + s.skip(p) =~= seq![x] + s);
    } else {
        let t = s.drop_first();
        assert forall|j: int| 0 <= j < p - 1 implies t[j].value >= x.value by {
            assert(t[j] == s[j + 1]);
        }
        lemma_insert_desc_split(x, t, p - 1);
        assert(s.take(p) + seq![x] + s.skip(p) =~= seq![s[0]] + (t.take(p - 1) + seq![x] + t.skip(p - 1)));
    }
}

/// Inserts `x` into `v` as `insert_desc` does.
fn insert_by_value(v: &mut Vec<ReceivedNote>, x: ReceivedNote)
    ensures
        final(v)@ == insert_desc(x, old(v)@),
{
    let mut p: usize = 0;
    while p < v.len() && v[p].value >= x.value
        invariant
            p <= v@.len(),
            v@ == old(v)@,
            forall|j: int| 0 <= j < p ==> v@[j].value >= x.value,
        decreases v@.len() - p,
    {
        p = p + 1;
    }
    proof {
        lemma_insert_desc_split(x, v@, p as int);
    }
    v.insert(p, x);
    assert(v@ =~= old(v)@.take(p as int) + seq![x] + old(v)@.skip(p as int));
}

/// `v` ordered by value, largest first, ties in the order they came in.
pub fn sort_by_value_desc(v: &Vec<ReceivedNote>) -> (r: Vec<ReceivedNote>)
    ensures
        r@ == sort_desc(v@),
{
    let mut out: Vec<ReceivedNote> = Vec::new();
    let mut i: usize = 0;
    while i < v.len()
        invariant
            i <= v@.len(),
            out@ == sort_desc(v@.take(i as int)),
        decreases v@.len() - i,
    {
        proof {
            assert(v@.take(i + 1).drop_last() =~= v@.take(i as int));
        }
        insert_by_value(&mut out, v[i]);
        i = i + 1;
    }
    assert(v@.take(i as int) =~= v@);
    out
}

/// Runs the greedy selection over `cands` against `target`, checking each
/// value taken against the amount range.
pub fn take_greedy(cands: &Vec<ReceivedNote>, target: Amount) -> (r: Result<
    (Vec<ReceivedNote>, Amount),
    InputSourceError,
>)
    ensures
        r is Ok <==> all_in_range(greedy(cands@, target.spec_u64() as nat).0),
        r matches Ok(p) ==> p.0@ == greedy(cands@, target.spec_u64() as nat).0
            && p.1.spec_u64() == greedy(cands@, target.spec_u64() as nat).1,
        r matches Err(e) ==> e == InputSourceError::AmountRange,
{
    let ghost whole = greedy(cands@, target.spec_u64() as nat);
    let mut taken: Vec<ReceivedNote> = Vec::new();
    let mut rem = target;
    let mut i: usize = 0;
    proof {
        assert(cands@.skip(0) =~= cands@);
        assert(taken@ + whole.0 =~= whole.0);
    }
    while i < cands.len() && rem.into_u64() > 0
        invariant
            i <= cands@.len(),
            whole == greedy(cands@, target.spec_u64() as nat),
            taken@ + greedy(cands@.skip(i as int), rem.spec_u64() as nat).0 == whole.0,
            greedy(cands@.skip(i as int), rem.spec_u64() as nat).1 == whole.1,
            all_in_range(taken@),
        decreases cands@.len() - i,
    {
        let c = cands[i];
        let ghost rest = cands@.skip(i as int);
        let ghost old_rem = rem.spec_u64() as nat;
        assert(rest.drop_first() =~= cands@.skip(i + 1));
        assert(rest[0] == c);
        assert(greedy(rest, old_rem).0[0] == c);
        taken.push(c);
        let v = match Amount::from_u64(c.value) {
            Some(v) => v,
            None => {
                assert(whole.0[taken@.len() - 1] == c);
                assert(!(whole.0[taken@.len() - 1].value <= MAX_MONEY));
                assert(!all_in_range(whole.0));
                return Err(InputSourceError::AmountRange);
            },
        };
        rem = match rem.checked_sub(&v) {
            Some(x) => x,
            None => Amount::zero(),
        };
        assert(rem.spec_u64() as nat == (if c.value >= old_rem { 0 } else { (old_rem - c.value) as nat }));
        assert(taken@ + greedy(cands@.skip(i + 1), rem.spec_u64() as nat).0 =~= whole.0);
        i = i + 1;
    }
    assert(greedy(cands@.skip(i as int), rem.spec_u64() as nat).0 =~= seq![]);
    assert(taken@ =~= whole.0);
    Ok((taken, rem))
}

} // verus!
