use vstd::prelude::*;
use crate::amount::Amount;
use crate::error::InputSourceError;
use crate::input_source::{
    bulk_outputs, find_output, output_lookup, record_output, record_outputs, record_outputs_from,
    select_outcome, OutputView,
};
use crate::selection::{
    all_in_range, collected, greedy, insert_desc, pool_candidates, record_candidates, sort_desc,
    unspent_from,
};
use crate::store::{
    ReceivedNote, ShieldedNote, TransactionRecord, TransactionRecordsById, TransparentOutput,
};
use crate::types::{BlockHeight, NoteId, OutPoint, ShieldedProtocol, TxId};

verus! {

/// Sum of the values in `s`.
pub open spec fn total(s: Seq<ReceivedNote>) -> nat
    decreases s.len(),
{
    if s.len() == 0 {
        0
    } else {
        (s[0].value + total(s.drop_first())) as nat
    }
}

/// Sum of the values of every note that selection may draw on.
pub open spec fn eligible_total(
    recs: Seq<TransactionRecord>,
    sources: Seq<ShieldedProtocol>,
    anchor: BlockHeight,
    exclude: Seq<NoteId>,
) -> nat {
    total(pool_candidates(recs, ShieldedProtocol::Sapling, sources, anchor, exclude)) + total(
        pool_candidates(recs, ShieldedProtocol::Orchard, sources, anchor, exclude),
    )
}

/// Values are non-increasing along `s`.
pub open spec fn ordered_desc(s: Seq<ReceivedNote>) -> bool {
    forall|i: int, j: int| 0 <= i < j < s.len() ==> s[i].value >= s[j].value
}

/// `c` is an unspent note of `pool`, not excluded, in a record of `recs`
/// confirmed at or before `anchor`, and carries that note's value.
pub open spec fn eligible_note(
    recs: Seq<TransactionRecord>,
    pool: ShieldedProtocol,
    anchor: BlockHeight,
    exclude: Seq<NoteId>,
    c: ReceivedNote,
) -> bool {
    &&& c.note_id.pool == pool
    &&& !exclude.contains(c.note_id)
    &&& exists|k: int|
        0 <= k < recs.len() && (#[trigger] recs[k]).txid == c.note_id.txid
            && recs[k].status.confirmed_at_or_before(anchor) && c.note_id.index < recs[k].notes(pool).len()
            && !recs[k].notes(pool)[c.note_id.index as int].spent
            && c.value == recs[k].notes(pool)[c.note_id.index as int].value
}

proof fn lemma_total_append(a: Seq<ReceivedNote>, b: Seq<ReceivedNote>)
    ensures
        total(a + b) == total(a) + total(b),
    decreases a.len(),
{
    if a.len() == 0 {
        assert(a + b =~= b);
    } else {
        assert((a + b).drop_first() =~= a.drop_first() + b);
        lemma_total_append(a.drop_first(), b);
    }
}

proof fn lemma_insert_desc(x: ReceivedNote, s: Seq<ReceivedNote>)
    ensures
        insert_desc(x, s).len() == s.len() + 1,
        total(insert_desc(x, s)) == x.value + total(s),
        forall|y: ReceivedNote| #[trigger] insert_desc(x, s).contains(y) ==> y == x || s.contains(y),
        ordered_desc(s) ==> ordered_desc(insert_desc(x, s)),
        exists|p: int| 0 <= p <= s.len() && insert_desc(x, s) == s.insert(p, x),
    decreases s.len(),
{
    let r = insert_desc(x, s);
    if s.len() == 0 {
        assert(r.drop_first() =~= seq![]);
        assert(total(r.drop_first()) == 0);
        assert(r =~= s.insert(0, x));
    } else if x.value > s[0].value {
        assert(r.drop_first() =~= s);
        assert(r =~= s.insert(0, x));
        assert forall|y: ReceivedNote| r.contains(y) implies y == x || s.contains(y) by {
            let i = choose|i: int| 0 <= i < r.len() && r[i] == y;
            if i > 0 {
                assert(s[i - 1] == y);
            }
        }
    } else {
        let t = s.drop_first();
        lemma_insert_desc(x, t);
        assert(r.drop_first() =~= insert_desc(x, t));
        assert(total(s) == s[0].value + total(t));
        assert(total(r) == s[0].value + total(insert_desc(x, t)));
        let q = choose|q: int| 0 <= q <= t.len() && insert_desc(x, t) == t.insert(q, x);
        assert(r =~= s.insert(q + 1, x));
        assert forall|y: ReceivedNote| r.contains(y) implies y == x || s.contains(y) by {
            let i = choose|i: int| 0 <= i < r.len() && r[i] == y;
            if i > 0 {
                assert(insert_desc(x, t)[i - 1] == y);
                assert(insert_desc(x, t).contains(y));
                if y != x {
                    let j = choose|j: int| 0 <= j < t.len() && t[j] == y;
                    assert(s[j + 1] == y);
                }
            }
        }
        if ordered_desc(s) {
            assert(ordered_desc(t));
            assert forall|i: int, j: int| 0 <= i < j < r.len() implies r[i].value >= r[j].value by {
                if i == 0 {
                    let y = r[j];
                    assert(insert_desc(x, t)[j - 1] == y);
                    assert(insert_desc(x, t).contains(y));
                    if y != x {
                        let k = choose|k: int| 0 <= k < t.len() && t[k] == y;
                        assert(s[k + 1] == y);
                    }
                }
            }
        }
    }
}

proof fn lemma_total_drop_last(s: Seq<ReceivedNote>)
    requires
        s.len() > 0,
    ensures
        total(s) == total(s.drop_last()) + s.last().value,
{
    assert(s =~= s.drop_last() + seq![s.last()]);
    lemma_total_append(s.drop_last(), seq![s.last()]);
    assert(seq![s.last()].drop_first() =~= seq![]);
    assert(total(seq![s.last()].drop_first()) == 0);
    assert(total(seq![s.last()]) == s.last().value);
}

proof fn lemma_sort_desc(s: Seq<ReceivedNote>)
    ensures
        sort_desc(s).len() == s.len(),
        total(sort_desc(s)) == total(s),
        forall|y: ReceivedNote| #[trigger] sort_desc(s).contains(y) ==> s.contains(y),
        ordered_desc(sort_desc(s)),
        sort_desc(s).to_multiset() == s.to_multiset(),
    decreases s.len(),
{
    broadcast use vstd::seq_lib::group_to_multiset_ensures;

    if s.len() == 0 {
        assert(sort_desc(s) =~= s);
    } else {
        let p = s.drop_last();
        lemma_sort_desc(p);
        lemma_insert_desc(s.last(), sort_desc(p));
        let q = choose|q: int|
            0 <= q <= sort_desc(p).len() && insert_desc(s.last(), sort_desc(p)) == sort_desc(p).insert(q, s.last());
        vstd::seq_lib::to_multiset_insert(sort_desc(p), q, s.last());
        assert(p.push(s.last()) =~= s);
        lemma_total_drop_last(s);
        assert forall|y: ReceivedNote| #[trigger] sort_desc(s).contains(y) implies s.contains(y) by {
            if y != s.last() {
                assert(sort_desc(p).contains(y));
                let j = choose|j: int| 0 <= j < p.len() && p[j] == y;
                assert(s[j] == y);
            } else {
                assert(s[s.len() - 1] == y);
            }
        }
    }
}

proof fn lemma_greedy(s: Seq<ReceivedNote>, rem: nat)
    ensures
        greedy(s, rem).0 == s.take(greedy(s, rem).0.len() as int),
        greedy(s, rem).0.len() <= s.len(),
        total(s) >= rem ==> greedy(s, rem).1 == 0 && total(greedy(s, rem).0) >= rem,
        total(s) < rem ==> greedy(s, rem).1 == rem - total(s) && greedy(s, rem).0 == s,
    decreases s.len(),
{
    if s.len() == 0 || rem == 0 {
        assert(s.take(0) =~= seq![]);
    } else {
        let next: nat = if s[0].value >= rem { 0 } else { (rem - s[0].value) as nat };
        let t = s.drop_first();
        lemma_greedy(t, next);
        let g = greedy(t, next).0;
        assert(seq![s[0]] + g =~= s.take(g.len() + 1 as int));
        assert((seq![s[0]] + g).drop_first() =~= g);
        if total(s) < rem {
            assert(seq![s[0]] + t =~= s);
        }
    }
}

proof fn lemma_prefix_in_range(s: Seq<ReceivedNote>, n: int)
    requires
        0 <= n <= s.len(),
        all_in_range(s),
    ensures
        all_in_range(s.take(n)),
{
    assert forall|i: int| 0 <= i < n implies #[trigger] s.take(n)[i].value <= crate::amount::MAX_MONEY by {
        assert(s.take(n)[i] == s[i]);
    }
}

proof fn lemma_sorted_in_range(s: Seq<ReceivedNote>)
    requires
        all_in_range(s),
    ensures
        all_in_range(sort_desc(s)),
{
    lemma_sort_desc(s);
    assert forall|i: int| 0 <= i < sort_desc(s).len() implies #[trigger] sort_desc(s)[i].value
        <= crate::amount::MAX_MONEY by {
        assert(sort_desc(s).contains(sort_desc(s)[i]));
        let j = choose|j: int| 0 <= j < s.len() && s[j] == sort_desc(s)[i];
        assert(s[j].value <= crate::amount::MAX_MONEY);
    }
}

/// Where the target is at most the eligible total and every eligible value is
/// a valid amount, selection succeeds and what it selects adds up to at least
/// the target.
pub proof fn lemma_enough_funds_selected(
    store: TransactionRecordsById,
    target: Amount,
    sources: Seq<ShieldedProtocol>,
    anchor: BlockHeight,
    exclude: Seq<NoteId>,
)
    requires
        target.spec_u64() <= eligible_total(store.records@, sources, anchor, exclude),
        all_in_range(pool_candidates(store.records@, ShieldedProtocol::Sapling, sources, anchor, exclude)),
        all_in_range(pool_candidates(store.records@, ShieldedProtocol::Orchard, sources, anchor, exclude)),
    ensures
        select_outcome(store.records@, target.spec_u64() as nat, sources, anchor, exclude) matches Ok(sel)
            && total(sel.0) + total(sel.1) >= target.spec_u64(),
{
    let recs = store.records@;
    let t = target.spec_u64() as nat;
    let sap = sort_desc(pool_candidates(recs, ShieldedProtocol::Sapling, sources, anchor, exclude));
    let orc = sort_desc(pool_candidates(recs, ShieldedProtocol::Orchard, sources, anchor, exclude));
    lemma_sort_desc(pool_candidates(recs, ShieldedProtocol::Sapling, sources, anchor, exclude));
    lemma_sort_desc(pool_candidates(recs, ShieldedProtocol::Orchard, sources, anchor, exclude));
    lemma_sorted_in_range(pool_candidates(recs, ShieldedProtocol::Sapling, sources, anchor, exclude));
    lemma_sorted_in_range(pool_candidates(recs, ShieldedProtocol::Orchard, sources, anchor, exclude));
    lemma_greedy(sap, t);
    let r1 = greedy(sap, t).1;
    lemma_greedy(orc, r1);
    lemma_prefix_in_range(sap, greedy(sap, t).0.len() as int);
    lemma_prefix_in_range(orc, greedy(orc, r1).0.len() as int);
    if total(sap) < t {
        assert(total(orc) >= r1);
    }
}

/// Where the target exceeds the eligible total and every eligible value is a
/// valid amount, selection fails with the shortfall `target - total`.
pub proof fn lemma_shortfall_exact(
    store: TransactionRecordsById,
    target: Amount,
    sources: Seq<ShieldedProtocol>,
    anchor: BlockHeight,
    exclude: Seq<NoteId>,
)
    requires
        target.spec_u64() > eligible_total(store.records@, sources, anchor, exclude),
        all_in_range(pool_candidates(store.records@, ShieldedProtocol::Sapling, sources, anchor, exclude)),
        all_in_range(pool_candidates(store.records@, ShieldedProtocol::Orchard, sources, anchor, exclude)),
    ensures
        select_outcome(store.records@, target.spec_u64() as nat, sources, anchor, exclude) == Err::<
            (Seq<ReceivedNote>, Seq<ReceivedNote>),
            _,
        >(
            InputSourceError::InsufficientFunds {
                shortfall: (target.spec_u64() - eligible_total(store.records@, sources, anchor, exclude)) as u64,
            },
        ),
{
    let recs = store.records@;
    let t = target.spec_u64() as nat;
    let sap = sort_desc(pool_candidates(recs, ShieldedProtocol::Sapling, sources, anchor, exclude));
    let orc = sort_desc(pool_candidates(recs, ShieldedProtocol::Orchard, sources, anchor, exclude));
    lemma_sort_desc(pool_candidates(recs, ShieldedProtocol::Sapling, sources, anchor, exclude));
    lemma_sort_desc(pool_candidates(recs, ShieldedProtocol::Orchard, sources, anchor, exclude));
    lemma_sorted_in_range(pool_candidates(recs, ShieldedProtocol::Sapling, sources, anchor, exclude));
    lemma_sorted_in_range(pool_candidates(recs, ShieldedProtocol::Orchard, sources, anchor, exclude));
    lemma_greedy(sap, t);
    let r1 = greedy(sap, t).1;
    lemma_greedy(orc, r1);
}

proof fn lemma_unspent_from_sound(
    txid: TxId,
    pool: ShieldedProtocol,
    notes: Seq<ShieldedNote>,
    exclude: Seq<NoteId>,
    k: nat,
)
    requires
        k <= notes.len(),
        notes.len() <= u32::MAX,
    ensures
        forall|c: ReceivedNote|
            #[trigger] unspent_from(txid, pool, notes, exclude, k).contains(c) ==> {
                &&& c.note_id.txid == txid
                &&& c.note_id.pool == pool
                &&& !exclude.contains(c.note_id)
                &&& c.note_id.index < k
                &&& !notes[c.note_id.index as int].spent
                &&& c.value == notes[c.note_id.index as int].value
            },
    decreases k,
{
    if k > 0 {
        let i = (k - 1) as nat;
        lemma_unspent_from_sound(txid, pool, notes, exclude, i);
        let rest = unspent_from(txid, pool, notes, exclude, i);
        let id = NoteId { txid, pool, index: i as u32 };
        let n = ReceivedNote { note_id: id, value: notes[i as int].value };
        assert forall|c: ReceivedNote| #[trigger] unspent_from(txid, pool, notes, exclude, k).contains(c)
            implies c == n || rest.contains(c) by {
            if !notes[i as int].spent && !exclude.contains(id) {
                let j = choose|j: int| 0 <= j < rest.len() + 1 && rest.push(n)[j] == c;
                if j < rest.len() {
                    assert(rest[j] == c);
                }
            }
        }
    }
}

proof fn lemma_collected_sound(
    recs: Seq<TransactionRecord>,
    pool: ShieldedProtocol,
    anchor: BlockHeight,
    exclude: Seq<NoteId>,
)
    requires
        forall|i: int| 0 <= i < recs.len() ==> #[trigger] recs[i].wf(),
    ensures
        forall|c: ReceivedNote|
            #[trigger] collected(recs, pool, anchor, exclude).contains(c) ==> eligible_note(
                recs,
                pool,
                anchor,
                exclude,
                c,
            ),
    decreases recs.len(),
{
    if recs.len() > 0 {
        let p = recs.drop_last();
        let last = recs.last();
        assert(recs[recs.len() - 1].wf());
        assert forall|i: int| 0 <= i < p.len() implies #[trigger] p[i].wf() by {
            assert(p[i] == recs[i]);
        }
        lemma_collected_sound(p, pool, anchor, exclude);
        lemma_unspent_from_sound(last.txid, pool, last.notes(pool), exclude, last.notes(pool).len());
        let a = collected(p, pool, anchor, exclude);
        let b = record_candidates(last, pool, anchor, exclude);
        assert forall|c: ReceivedNote| #[trigger] collected(recs, pool, anchor, exclude).contains(c)
            implies eligible_note(recs, pool, anchor, exclude, c) by {
            let j = choose|j: int| 0 <= j < (a + b).len() && (a + b)[j] == c;
            if j < a.len() {
                assert(a[j] == c);
                assert(a.contains(c));
                let k = choose|k: int|
                    0 <= k < p.len() && (#[trigger] p[k]).txid == c.note_id.txid
                        && p[k].status.confirmed_at_or_before(anchor) && c.note_id.index < p[k].notes(pool).len()
                        && !p[k].notes(pool)[c.note_id.index as int].spent
                        && c.value == p[k].notes(pool)[c.note_id.index as int].value;
                assert(recs[k] == p[k]);
            } else {
                assert(b[j - a.len()] == c);
                assert(b.contains(c));
                assert(recs[recs.len() - 1] == last);
            }
        }
    }
}

proof fn lemma_selected_from_sorted(cands: Seq<ReceivedNote>, rem: nat)
    ensures
        ordered_desc(sort_desc(cands)),
        greedy(sort_desc(cands), rem).0 == sort_desc(cands).take(greedy(sort_desc(cands), rem).0.len() as int),
        greedy(sort_desc(cands), rem).0.len() <= sort_desc(cands).len(),
        forall|i: int|
            0 <= i < greedy(sort_desc(cands), rem).0.len() ==> cands.contains(
                #[trigger] greedy(sort_desc(cands), rem).0[i],
            ),
{
    lemma_sort_desc(cands);
    lemma_greedy(sort_desc(cands), rem);
    let sel = greedy(sort_desc(cands), rem).0;
    assert forall|i: int| 0 <= i < sel.len() implies cands.contains(#[trigger] sel[i]) by {
        assert(sel[i] == sort_desc(cands)[i]);
        assert(sort_desc(cands).contains(sel[i]));
    }
}

/// Every note that selection returns is eligible: it belongs to the pool of
/// its group, its identifier is not excluded, and it is an unspent note of a
/// record confirmed at or before the anchor height, with that note's value.
pub proof fn lemma_selection_sound(
    store: TransactionRecordsById,
    target: Amount,
    sources: Seq<ShieldedProtocol>,
    anchor: BlockHeight,
    exclude: Seq<NoteId>,
)
    requires
        store.wf(),
    ensures
        select_outcome(store.records@, target.spec_u64() as nat, sources, anchor, exclude) matches Ok(sel)
            ==> (forall|i: int|
            0 <= i < sel.0.len() ==> eligible_note(
                store.records@,
                ShieldedProtocol::Sapling,
                anchor,
                exclude,
                #[trigger] sel.0[i],
            )) && (forall|i: int|
            0 <= i < sel.1.len() ==> eligible_note(
                store.records@,
                ShieldedProtocol::Orchard,
                anchor,
                exclude,
                #[trigger] sel.1[i],
            )),
{
    let recs = store.records@;
    let t = target.spec_u64() as nat;
    let sc = pool_candidates(recs, ShieldedProtocol::Sapling, sources, anchor, exclude);
    let oc = pool_candidates(recs, ShieldedProtocol::Orchard, sources, anchor, exclude);
    lemma_collected_sound(recs, ShieldedProtocol::Sapling, anchor, exclude);
    lemma_collected_sound(recs, ShieldedProtocol::Orchard, anchor, exclude);
    lemma_selected_from_sorted(sc, t);
    let r1 = greedy(sort_desc(sc), t).1;
    lemma_selected_from_sorted(oc, r1);
}

/// Within each pool, selection takes a leading run of the pool's candidates
/// reordered by value, largest first: no note is taken while a larger one of
/// the same pool is left.
pub proof fn lemma_largest_first(
    store: TransactionRecordsById,
    target: Amount,
    sources: Seq<ShieldedProtocol>,
    anchor: BlockHeight,
    exclude: Seq<NoteId>,
)
    ensures
        ({
            let recs = store.records@;
            let sap = sort_desc(pool_candidates(recs, ShieldedProtocol::Sapling, sources, anchor, exclude));
            let orc = sort_desc(pool_candidates(recs, ShieldedProtocol::Orchard, sources, anchor, exclude));
            &&& ordered_desc(sap)
            &&& ordered_desc(orc)
            &&& sap.to_multiset() == pool_candidates(recs, ShieldedProtocol::Sapling, sources, anchor, exclude).to_multiset()
            &&& orc.to_multiset() == pool_candidates(recs, ShieldedProtocol::Orchard, sources, anchor, exclude).to_multiset()
            &&& select_outcome(recs, target.spec_u64() as nat, sources, anchor, exclude) matches Ok(sel)
                ==> sel.0 == sap.take(sel.0.len() as int) && sel.1 == orc.take(sel.1.len() as int)
        }),
{
    let recs = store.records@;
    let t = target.spec_u64() as nat;
    let sc = pool_candidates(recs, ShieldedProtocol::Sapling, sources, anchor, exclude);
    let oc = pool_candidates(recs, ShieldedProtocol::Orchard, sources, anchor, exclude);
    lemma_selected_from_sorted(sc, t);
    lemma_selected_from_sorted(oc, greedy(sort_desc(sc), t).1);
    lemma_sort_desc(sc);
    lemma_sort_desc(oc);
}

/// What single-output lookup finds at `op`, as plain values.
pub open spec fn lookup_view(recs: Seq<TransactionRecord>, op: OutPoint) -> Option<OutputView> {
    match output_lookup(recs, op) {
        Some((h, o)) => Some((op, o.value, o.script@, h)),
        None => None,
    }
}

proof fn lemma_record_outputs_origin(rec: TransactionRecord, h: BlockHeight, exclude: Seq<OutPoint>, k: nat)
    requires
        k <= rec.transparent_outputs@.len(),
    ensures
        forall|e: OutputView|
            #[trigger] record_outputs_from(rec, h, exclude, k).contains(e) ==> exists|m: int|
                0 <= m < k && e == (
                    rec.outpoint_of(#[trigger] rec.transparent_outputs@[m]),
                    rec.transparent_outputs@[m].value,
                    rec.transparent_outputs@[m].script@,
                    h,
                ),
    decreases k,
{
    if k > 0 {
        let i = (k - 1) as nat;
        lemma_record_outputs_origin(rec, h, exclude, i);
        let rest = record_outputs_from(rec, h, exclude, i);
        let o = rec.transparent_outputs@[i as int];
        let n: OutputView = (rec.outpoint_of(o), o.value, o.script@, h);
        assert forall|e: OutputView| #[trigger] record_outputs_from(rec, h, exclude, k).contains(e)
            implies exists|m: int|
                0 <= m < k && e == (
                    rec.outpoint_of(#[trigger] rec.transparent_outputs@[m]),
                    rec.transparent_outputs@[m].value,
                    rec.transparent_outputs@[m].script@,
                    h,
                ) by {
            if !exclude.contains(rec.outpoint_of(o)) {
                let j = choose|j: int| 0 <= j < rest.len() + 1 && rest.push(n)[j] == e;
                if j < rest.len() {
                    assert(rest[j] == e);
                    assert(rest.contains(e));
                } else {
                    assert(e == n);
                }
            } else {
                assert(rest.contains(e));
            }
        }
    }
}

proof fn lemma_bulk_origin(recs: Seq<TransactionRecord>, max_height: BlockHeight, exclude: Seq<OutPoint>)
    ensures
        forall|e: OutputView|
            #[trigger] bulk_outputs(recs, max_height, exclude).contains(e) ==> exists|j: int, m: int|
                0 <= j < recs.len() && 0 <= m < recs[j].transparent_outputs@.len()
                    && recs[j].status.confirmed_height() == Some(e.3) && e == (
                    recs[j].outpoint_of(#[trigger] recs[j].transparent_outputs@[m]),
                    recs[j].transparent_outputs@[m].value,
                    recs[j].transparent_outputs@[m].script@,
                    e.3,
                ),
    decreases recs.len(),
{
    if recs.len() > 0 {
        let p = recs.drop_last();
        let last = recs.last();
        lemma_bulk_origin(p, max_height, exclude);
        lemma_record_outputs_origin(last, last.status.confirmed_height()->0, exclude, last.transparent_outputs@.len());
        let a = bulk_outputs(p, max_height, exclude);
        let b = record_outputs(last, max_height, exclude);
        assert forall|e: OutputView| #[trigger] bulk_outputs(recs, max_height, exclude).contains(e)
            implies exists|j: int, m: int|
                0 <= j < recs.len() && 0 <= m < recs[j].transparent_outputs@.len()
                    && recs[j].status.confirmed_height() == Some(e.3) && e == (
                    recs[j].outpoint_of(#[trigger] recs[j].transparent_outputs@[m]),
                    recs[j].transparent_outputs@[m].value,
                    recs[j].transparent_outputs@[m].script@,
                    e.3,
                ) by {
            let i = choose|i: int| 0 <= i < (a + b).len() && (a + b)[i] == e;
            if i < a.len() {
                assert(a[i] == e);
                assert(a.contains(e));
                let (j, m) = choose|j: int, m: int|
                    0 <= j < p.len() && 0 <= m < p[j].transparent_outputs@.len()
                        && p[j].status.confirmed_height() == Some(e.3) && e == (
                        p[j].outpoint_of(#[trigger] p[j].transparent_outputs@[m]),
                        p[j].transparent_outputs@[m].value,
                        p[j].transparent_outputs@[m].script@,
                        e.3,
                    );
                assert(recs[j] == p[j]);
            } else {
                assert(b[i - a.len()] == e);
                assert(b.contains(e));
                assert(recs[recs.len() - 1] == last);
                let m = choose|m: int|
                    0 <= m < last.transparent_outputs@.len() && e == (
                        last.outpoint_of(#[trigger] last.transparent_outputs@[m]),
                        last.transparent_outputs@[m].value,
                        last.transparent_outputs@[m].script@,
                        last.status.confirmed_height()->0,
                    );
                assert(recs[recs.len() - 1].transparent_outputs@[m] == last.transparent_outputs@[m]);
            }
        }
    }
}

proof fn lemma_find_output(txid: TxId, outs: Seq<TransparentOutput>, op: OutPoint, m: int)
    requires
        0 <= m < outs.len(),
        txid == op.txid,
        outs[m].output_index == op.n,
        forall|i: int, j: int| 0 <= i < j < outs.len() ==> outs[i].output_index != outs[j].output_index,
    ensures
        find_output(txid, outs, op) == Some(outs[m]),
    decreases outs.len(),
{
    if m > 0 {
        assert(outs[0].output_index != outs[m].output_index);
        let t = outs.drop_first();
        assert(t[m - 1] == outs[m]);
        lemma_find_output(txid, t, op, m - 1);
    }
}

proof fn lemma_find_output_other_txid(txid: TxId, outs: Seq<TransparentOutput>, op: OutPoint)
    requires
        txid != op.txid,
    ensures
        find_output(txid, outs, op) is None,
    decreases outs.len(),
{
    if outs.len() > 0 {
        lemma_find_output_other_txid(txid, outs.drop_first(), op);
    }
}

proof fn lemma_lookup_at(recs: Seq<TransactionRecord>, op: OutPoint, j: int)
    requires
        0 <= j < recs.len(),
        forall|i: int| 0 <= i < j ==> recs[i].txid != op.txid,
        record_output(recs[j], op) is Some,
    ensures
        output_lookup(recs, op) == record_output(recs[j], op),
    decreases j,
{
    if j > 0 {
        lemma_find_output_other_txid(recs[0].txid, recs[0].transparent_outputs@, op);
        let t = recs.drop_first();
        assert forall|i: int| 0 <= i < j - 1 implies t[i].txid != op.txid by {
            assert(t[i] == recs[i + 1]);
        }
        assert(t[j - 1] == recs[j]);
        lemma_lookup_at(t, op, j - 1);
    }
}

/// Every output that bulk lookup returns is found again, equal in outpoint,
/// value, script and height, by single-output lookup at its own outpoint.
pub proof fn lemma_bulk_then_single(store: TransactionRecordsById, max_height: BlockHeight, exclude: Seq<OutPoint>)
    requires
        store.wf(),
    ensures
        forall|k: int|
            0 <= k < bulk_outputs(store.records@, max_height, exclude).len() ==> lookup_view(
                store.records@,
                (#[trigger] bulk_outputs(store.records@, max_height, exclude)[k]).0,
            ) == Some(bulk_outputs(store.records@, max_height, exclude)[k]),
{
    let recs = store.records@;
    let bulk = bulk_outputs(recs, max_height, exclude);
    lemma_bulk_origin(recs, max_height, exclude);
    assert forall|k: int| 0 <= k < bulk.len() implies lookup_view(recs, (#[trigger] bulk[k]).0) == Some(
        bulk[k],
    ) by {
        let e = bulk[k];
        assert(bulk.contains(e));
        let (j, m) = choose|j: int, m: int|
            0 <= j < recs.len() && 0 <= m < recs[j].transparent_outputs@.len()
                && recs[j].status.confirmed_height() == Some(e.3) && e == (
                recs[j].outpoint_of(#[trigger] recs[j].transparent_outputs@[m]),
                recs[j].transparent_outputs@[m].value,
                recs[j].transparent_outputs@[m].script@,
                e.3,
            );
        assert(recs[j].wf());
        lemma_find_output(recs[j].txid, recs[j].transparent_outputs@, e.0, m);
        lemma_lookup_at(recs, e.0, j);
    }
}

} // verus!
