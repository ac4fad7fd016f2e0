//! Properties that hold across the library's functions: stored events have
//! unique identifiers, they are numbered in order, batches cover all rows,
//! and the streaming counters report every hundred ledgers.
use vstd::prelude::*;

use crate::db::{batch_count, batch_range};
use crate::event::{
    scval_json_text, scval_list_json_text, ContractEventBody, constructed_event, derisk_records, event_id, lemma_with_contract_id_len, records_of,
    with_contract_id, ContractEvent, DeriskEventView,
};
use crate::ledger::{
    TransactionMeta, TransactionResultMeta, ledger_records, first_meta_v3, historic_records, ledger_contribution, ledger_seq_of, LedgerCloseMeta,
};
use crate::streaming::{stream_run, stream_step, total, LOOP_COUNT_RESET};
use crate::text::{hex_lower, int_decimal, lemma_int_decimal, lemma_nat_decimal_injective, nat_decimal};

verus! {

/// `id` is the identifier of an event of ledger `sequence` whose index is below `bound`.
pub open spec fn is_ledger_id_below(id: Seq<char>, sequence: int, bound: nat) -> bool {
    exists|k: nat| k < bound && id == #[trigger] event_id(sequence, k)
}

/// `id` is the identifier of some event of ledger `sequence`.
pub open spec fn is_ledger_id(id: Seq<char>, sequence: int) -> bool {
    exists|k: nat| id == #[trigger] event_id(sequence, k)
}

/// `id` is the identifier of an event of one of `ledgers`.
pub open spec fn is_id_of_ledgers(id: Seq<char>, ledgers: Seq<LedgerCloseMeta>) -> bool {
    exists|j: int, k: nat|
        0 <= j < ledgers.len() && id == #[trigger] event_id(
            ledger_seq_of(#[trigger] ledgers[j]) as int,
            k,
        )
}

/// Every identifier in `records` is that of some event of ledger `sequence`.
pub open spec fn ids_of_ledger(records: Seq<DeriskEventView>, sequence: int) -> bool {
    forall|i: int| 0 <= i < records.len() ==> #[trigger] is_ledger_id(records[i].id, sequence)
}

/// No two records share an identifier.
pub open spec fn ids_distinct(records: Seq<DeriskEventView>) -> bool {
    forall|i: int, j: int| 0 <= i < j < records.len() ==> records[i].id != records[j].id
}

/// An event identifier names its ledger and its index: distinct pairs of
/// ledger sequence and index give distinct identifiers.
pub proof fn lemma_event_id_injective(s1: int, i1: nat, s2: int, i2: nat)
    requires
        event_id(s1, i1) == event_id(s2, i2),
    ensures
        s1 == s2,
        i1 == i2,
{
    let a1 = int_decimal(s1);
    let a2 = int_decimal(s2);
    let x = event_id(s1, i1);
    lemma_int_decimal(s1, s2);
    lemma_int_decimal(s2, s1);
    assert(x[a1.len() as int] == '_');
    assert(event_id(s2, i2)[a2.len() as int] == '_');
    if a1.len() < a2.len() {
        assert(x[a1.len() as int] == a2[a1.len() as int]);
    } else if a2.len() < a1.len() {
        assert(x[a2.len() as int] == a1[a2.len() as int]);
    }
    assert(a1.len() == a2.len());
    assert(x.subrange(0, a1.len() as int) =~= a1);
    assert(event_id(s2, i2).subrange(0, a2.len() as int) =~= a2);
    assert(x.subrange(a1.len() as int + 1, x.len() as int) =~= nat_decimal(i1));
    assert(event_id(s2, i2).subrange(a2.len() as int + 1, x.len() as int) =~= nat_decimal(i2));
    lemma_nat_decimal_injective(i1, i2);
}

proof fn lemma_id_below_weaken(id: Seq<char>, sequence: int, bound: nat, larger: nat)
    requires
        is_ledger_id_below(id, sequence, bound),
        bound <= larger,
    ensures
        is_ledger_id_below(id, sequence, larger),
{
    let k = choose|k: nat| k < bound && id == #[trigger] event_id(sequence, k);
    assert(id == event_id(sequence, k));
}

proof fn lemma_id_below_is_id(id: Seq<char>, sequence: int, bound: nat)
    requires
        is_ledger_id_below(id, sequence, bound),
    ensures
        is_ledger_id(id, sequence),
{
    let k = choose|k: nat| k < bound && id == #[trigger] event_id(sequence, k);
    assert(id == event_id(sequence, k));
}

proof fn lemma_id_below_differs(id: Seq<char>, sequence: int, bound: nat, index: nat)
    requires
        is_ledger_id_below(id, sequence, bound),
        bound <= index,
    ensures
        id != event_id(sequence, index),
{
    let k = choose|k: nat| k < bound && id == #[trigger] event_id(sequence, k);
    if id == event_id(sequence, index) {
        lemma_event_id_injective(sequence, k, sequence, index);
    }
}

proof fn lemma_records_of_ids(events: Seq<ContractEvent>, sequence: u32)
    requires
        events.len() <= usize::MAX,
    ensures
        ids_distinct(records_of(events, sequence)),
        forall|i: int|
            0 <= i < records_of(events, sequence).len() ==> #[trigger] is_ledger_id_below(
                records_of(events, sequence)[i].id,
                sequence as int,
                events.len(),
            ),
    decreases events.len(),
{
    if events.len() > 0 {
        let before = records_of(events.drop_last(), sequence);
        lemma_records_of_ids(events.drop_last(), sequence);
        let last = (events.len() - 1) as usize;
        match constructed_event(events.last(), sequence, last) {
            Some(e) => {
                let r = before.push(e);
                assert(records_of(events, sequence) == r);
                assert(e.id == event_id(sequence as int, last as nat));
                assert forall|i: int| 0 <= i < r.len() implies #[trigger] is_ledger_id_below(
                    r[i].id,
                    sequence as int,
                    events.len(),
                ) by {
                    if i == before.len() {
                        assert(r[i].id == event_id(sequence as int, last as nat));
                    } else {
                        assert(r[i] == before[i]);
                        lemma_id_below_weaken(before[i].id, sequence as int, (events.len() - 1) as nat, events.len());
                    }
                }
                assert forall|i: int, j: int| 0 <= i < j < r.len() implies r[i].id != r[j].id by {
                    if j == before.len() {
                        assert(r[i] == before[i]);
                        lemma_id_below_differs(before[i].id, sequence as int, (events.len() - 1) as nat, last as nat);
                    } else {
                        assert(r[i] == before[i] && r[j] == before[j]);
                    }
                }
            },
            None => {
                assert(records_of(events, sequence) == before);
                assert forall|i: int| 0 <= i < before.len() implies #[trigger] is_ledger_id_below(
                    before[i].id,
                    sequence as int,
                    events.len(),
                ) by {
                    lemma_id_below_weaken(before[i].id, sequence as int, (events.len() - 1) as nat, events.len());
                }
            },
        }
    }
}

/// The records stored for one ledger's events all carry identifiers of that
/// ledger, and no two of them share an identifier.
pub proof fn lemma_ledger_ids_distinct(events: Seq<ContractEvent>, sequence: u32)
    requires
        events.len() <= usize::MAX,
    ensures
        ids_distinct(derisk_records(events, sequence)),
        ids_of_ledger(derisk_records(events, sequence), sequence as int),
{
    let f = with_contract_id(events);
    lemma_with_contract_id_len(events);
    lemma_records_of_ids(f, sequence);
    let r = records_of(f, sequence);
    assert forall|i: int| 0 <= i < r.len() implies #[trigger] is_ledger_id(r[i].id, sequence as int) by {
        lemma_id_below_is_id(r[i].id, sequence as int, f.len());
    }
    assert(derisk_records(events, sequence) == r);
}

/// Identifiers of ledgers with different sequence numbers differ.
proof fn lemma_ids_of_different_ledgers(id1: Seq<char>, s1: int, id2: Seq<char>, s2: int)
    requires
        is_ledger_id(id1, s1),
        is_ledger_id(id2, s2),
        s1 != s2,
    ensures
        id1 != id2,
{
    let k1 = choose|k: nat| id1 == #[trigger] event_id(s1, k);
    let k2 = choose|k: nat| id2 == #[trigger] event_id(s2, k);
    if id1 == id2 {
        lemma_event_id_injective(s1, k1, s2, k2);
    }
}

/// An identifier of one of the earlier ledgers of a run is one of the run's.
proof fn lemma_id_of_earlier_ledgers(id: Seq<char>, ledgers: Seq<LedgerCloseMeta>)
    requires
        ledgers.len() > 0,
        is_id_of_ledgers(id, ledgers.drop_last()),
    ensures
        is_id_of_ledgers(id, ledgers),
{
    let init = ledgers.drop_last();
    let (j, k) = choose|j: int, k: nat|
        0 <= j < init.len() && id == #[trigger] event_id(ledger_seq_of(#[trigger] init[j]) as int, k);
    assert(ledgers[j] == init[j]);
    assert(id == event_id(ledger_seq_of(ledgers[j]) as int, k));
}

/// An identifier of the last ledger of a run is one of the run's.
proof fn lemma_id_of_last_ledger(id: Seq<char>, ledgers: Seq<LedgerCloseMeta>)
    requires
        ledgers.len() > 0,
        is_ledger_id(id, ledger_seq_of(ledgers.last()) as int),
    ensures
        is_id_of_ledgers(id, ledgers),
{
    let k = choose|k: nat| id == #[trigger] event_id(ledger_seq_of(ledgers.last()) as int, k);
    let j = ledgers.len() - 1;
    assert(ledgers[j] == ledgers.last());
    assert(id == event_id(ledger_seq_of(ledgers[j]) as int, k));
}

/// An identifier of a run of ledgers differs from every identifier of a
/// ledger whose sequence number none of them has.
proof fn lemma_id_of_other_ledgers(
    id1: Seq<char>,
    ledgers: Seq<LedgerCloseMeta>,
    id2: Seq<char>,
    s: int,
)
    requires
        is_id_of_ledgers(id1, ledgers),
        is_ledger_id(id2, s),
        forall|j: int| 0 <= j < ledgers.len() ==> ledger_seq_of(#[trigger] ledgers[j]) != s,
    ensures
        id1 != id2,
{
    let (j, k) = choose|j: int, k: nat|
        0 <= j < ledgers.len() && id1 == #[trigger] event_id(
            ledger_seq_of(#[trigger] ledgers[j]) as int,
            k,
        );
    assert(is_ledger_id(id1, ledger_seq_of(ledgers[j]) as int));
    lemma_ids_of_different_ledgers(id1, ledger_seq_of(ledgers[j]) as int, id2, s);
}

/// Records of two ledgers with different sequence numbers never share an identifier.
pub proof fn lemma_ids_differ_across_ledgers(
    r1: Seq<DeriskEventView>,
    s1: int,
    r2: Seq<DeriskEventView>,
    s2: int,
)
    requires
        ids_of_ledger(r1, s1),
        ids_of_ledger(r2, s2),
        s1 != s2,
    ensures
        forall|i: int, j: int| 0 <= i < r1.len() && 0 <= j < r2.len() ==> r1[i].id != r2[j].id,
{
    assert forall|i: int, j: int| 0 <= i < r1.len() && 0 <= j < r2.len() implies r1[i].id
        != r2[j].id by {
        lemma_ids_of_different_ledgers(r1[i].id, s1, r2[j].id, s2);
    }
}

/// What one ledger adds to a run carries identifiers of that ledger's own
/// sequence number, no two alike.
pub proof fn lemma_contribution_ids(ledger: LedgerCloseMeta)
    ensures
        ids_distinct(ledger_contribution(ledger)),
        ids_of_ledger(ledger_contribution(ledger), ledger_seq_of(ledger) as int),
{
    let seq = ledger_seq_of(ledger);
    let txs = match ledger {
        LedgerCloseMeta::V0(_) => Seq::empty(),
        LedgerCloseMeta::V1(v1) => v1.tx_processing@,
        LedgerCloseMeta::V2(v2) => v2.tx_processing@,
    };
    match first_meta_v3(txs) {
        Some(m) => match m.soroban_meta {
            Some(sm) => {
                assert(sm.events@.len() == sm.events.len());
                lemma_ledger_ids_distinct(sm.events@, seq);
            },
            None => {},
        },
        None => {},
    }
    if ledger_contribution(ledger).len() == 0 {
        assert(ledger_contribution(ledger) =~= Seq::<DeriskEventView>::empty());
    }
}

/// No two records of a run of ledgers share an identifier, provided the
/// ledgers' sequence numbers are pairwise different.
pub proof fn lemma_historic_ids_distinct(ledgers: Seq<LedgerCloseMeta>)
    requires
        forall|i: int, j: int|
            0 <= i < j < ledgers.len() ==> ledger_seq_of(ledgers[i]) != ledger_seq_of(ledgers[j]),
    ensures
        ids_distinct(historic_records(ledgers)),
        forall|i: int|
            0 <= i < historic_records(ledgers).len() ==> #[trigger] is_id_of_ledgers(
                historic_records(ledgers)[i].id,
                ledgers,
            ),
    decreases ledgers.len(),
{
    if ledgers.len() > 0 {
        let init = ledgers.drop_last();
        let last = ledgers.last();
        lemma_historic_ids_distinct(init);
        lemma_contribution_ids(last);
        let a = historic_records(init);
        let b = ledger_contribution(last);
        let r = a + b;
        let s = ledger_seq_of(last) as int;
        assert(historic_records(ledgers) =~= r);
        assert forall|i: int| 0 <= i < r.len() implies #[trigger] is_id_of_ledgers(r[i].id, ledgers) by {
            if i < a.len() {
                assert(r[i] == a[i]);
                lemma_id_of_earlier_ledgers(a[i].id, ledgers);
            } else {
                assert(r[i] == b[i - a.len()]);
                lemma_id_of_last_ledger(b[i - a.len()].id, ledgers);
            }
        }
        assert forall|i: int, j: int| 0 <= i < j < r.len() implies r[i].id != r[j].id by {
            if j < a.len() {
                assert(r[i] == a[i] && r[j] == a[j]);
            } else if i >= a.len() {
                assert(r[i] == b[i - a.len()] && r[j] == b[j - a.len()]);
            } else {
                assert(r[i] == a[i] && r[j] == b[j - a.len()]);
                assert forall|jj: int| 0 <= jj < init.len() implies ledger_seq_of(
                    #[trigger] init[jj],
                ) != s by {
                    assert(init[jj] == ledgers[jj]);
                    assert(ledgers[ledgers.len() - 1] == last);
                }
                lemma_id_of_other_ledgers(a[i].id, init, b[j - a.len()].id, s);
            }
        }
    }
}

/// When every event with a contract id renders, the records of a ledger are
/// numbered 0, 1, 2, ... in the order of those events: one record per event,
/// the `i`-th with identifier `<sequence>_<i>` and index `i`.
pub proof fn lemma_records_numbered(events: Seq<ContractEvent>, sequence: u32)
    requires
        events.len() <= usize::MAX,
        forall|i: int|
            0 <= i < with_contract_id(events).len() ==> (#[trigger] constructed_event(
                with_contract_id(events)[i],
                sequence,
                i as usize,
            )) is Some,
    ensures
        derisk_records(events, sequence).len() == with_contract_id(events).len(),
        forall|i: int|
            0 <= i < derisk_records(events, sequence).len() ==> (#[trigger] derisk_records(
                events,
                sequence,
            )[i]).id == event_id(sequence as int, i as nat) && derisk_records(events, sequence)[i].index
                == i as i32 && derisk_records(events, sequence)[i].sequence == sequence as i64,
{
    let f = with_contract_id(events);
    lemma_with_contract_id_len(events);
    lemma_records_of_numbered(f, sequence);
}

proof fn lemma_records_of_numbered(events: Seq<ContractEvent>, sequence: u32)
    requires
        events.len() <= usize::MAX,
        forall|i: int|
            0 <= i < events.len() ==> (#[trigger] constructed_event(events[i], sequence, i as usize)) is Some,
    ensures
        records_of(events, sequence).len() == events.len(),
        forall|i: int|
            0 <= i < events.len() ==> (#[trigger] records_of(events, sequence)[i]).id == event_id(
                sequence as int,
                i as nat,
            ) && records_of(events, sequence)[i].index == i as i32 && records_of(events, sequence)[i].sequence
                == sequence as i64,
        forall|i: int|
            0 <= i < events.len() ==> #[trigger] records_of(events, sequence)[i] == constructed_event(
                events[i],
                sequence,
                i as usize,
            )->0,
    decreases events.len(),
{
    if events.len() > 0 {
        let init = events.drop_last();
        assert forall|i: int| 0 <= i < init.len() implies (#[trigger] constructed_event(
            init[i],
            sequence,
            i as usize,
        )) is Some by {
            assert(init[i] == events[i]);
        }
        lemma_records_of_numbered(init, sequence);
        let n = events.len() - 1;
        assert(constructed_event(events[n], sequence, n as usize) is Some);
        assert(events.last() == events[n]);
        let r = records_of(events, sequence);
        assert forall|i: int| 0 <= i < events.len() implies (#[trigger] r[i]).id == event_id(
            sequence as int,
            i as nat,
        ) && r[i].index == i as i32 && r[i].sequence == sequence as i64 && r[i] == constructed_event(
            events[i],
            sequence,
            i as usize,
        )->0 by {
            if i < n {
                assert(r[i] == records_of(init, sequence)[i]);
                assert(init[i] == events[i]);
            }
        }
    }
}

/// Cutting `len` rows into batches of `size` covers every row once, in order:
/// the batches are consecutive, each holds between 1 and `size` rows, the
/// first starts at row 0 and the last ends at row `len`.
pub proof fn lemma_batches_partition(len: int, size: int)
    requires
        len >= 0,
        size > 0,
    ensures
        batch_count(len, size) >= 0,
        len == 0 <==> batch_count(len, size) == 0,
        forall|i: int|
            0 <= i < batch_count(len, size) ==> 0 <= (#[trigger] batch_range(i, len, size)).0
                < batch_range(i, len, size).1 <= len && batch_range(i, len, size).1 - batch_range(
                i,
                len,
                size,
            ).0 <= size,
        forall|i: int|
            0 <= i < batch_count(len, size) - 1 ==> (#[trigger] batch_range(i, len, size)).1
                == batch_range(i + 1, len, size).0,
        batch_count(len, size) > 0 ==> batch_range(0, len, size).0 == 0 && batch_range(
            batch_count(len, size) - 1,
            len,
            size,
        ).1 == len,
{
    let n = batch_count(len, size);
    assert(n >= 0 && n * size >= len && (len > 0 ==> (n - 1) * size < len) && (len == 0 ==> n == 0))
        by (nonlinear_arith)
        requires
            n == (len + size - 1) / size,
            len >= 0,
            size > 0,
    ;
    assert forall|i: int| 0 <= i < n implies 0 <= (#[trigger] batch_range(i, len, size)).0
        < batch_range(i, len, size).1 <= len && batch_range(i, len, size).1 - batch_range(
        i,
        len,
        size,
    ).0 <= size by {
        assert(0 <= i * size <= (n - 1) * size) by (nonlinear_arith)
            requires
                0 <= i < n,
                size > 0,
        ;
    }
    assert forall|i: int| 0 <= i < n - 1 implies (#[trigger] batch_range(i, len, size)).1
        == batch_range(i + 1, len, size).0 by {
        assert(i * size + size == (i + 1) * size && (i + 1) * size <= (n - 1) * size)
            by (nonlinear_arith)
            requires
                0 <= i < n - 1,
                size > 0,
        ;
    }
    if n > 0 {
        assert(0 * size == 0);
        assert((n - 1) * size + size == n * size) by (nonlinear_arith);
    }
}

/// The counters after any run of ledgers from fresh counters: the number of
/// ledgers since the last report is the run's length modulo the reset count,
/// and the event count is the sum of those ledgers' batches.
pub proof fn lemma_stream_run(batches: Seq<int>)
    ensures
        stream_run(batches).ledgers == batches.len() % (LOOP_COUNT_RESET as nat),
        stream_run(batches).events == total(
            batches.subrange(
                batches.len() - batches.len() % (LOOP_COUNT_RESET as nat),
                batches.len() as int,
            ),
        ),
    decreases batches.len(),
{
    let n = batches.len() as int;
    if n == 0 {
        assert(batches.subrange(0, 0) =~= Seq::<int>::empty());
    } else {
        let init = batches.drop_last();
        lemma_stream_run(init);
        let l = (n - 1) % 100;
        let start = (n - 1) - l;
        if l == 99 {
            assert(n % 100 == 0);
            assert(batches.subrange(n, n) =~= Seq::<int>::empty());
        } else {
            assert(n % 100 == l + 1);
            let s = batches.subrange(start, n);
            assert(s.drop_last() =~= init.subrange(start, n - 1));
            assert(s.last() == batches.last());
        }
    }
}

/// A report comes exactly at every hundredth ledger of a run; it counts
/// those hundred ledgers and the events of their batches.
pub proof fn lemma_stream_reports(batches: Seq<int>)
    requires
        batches.len() > 0,
    ensures
        stream_step(stream_run(batches.drop_last()), batches.last()).1 is Some <==> batches.len() % (
        LOOP_COUNT_RESET as nat) == 0,
        stream_step(stream_run(batches.drop_last()), batches.last()).1 matches Some(c) ==> c.ledgers
            == LOOP_COUNT_RESET && c.events == total(
            batches.subrange(batches.len() - LOOP_COUNT_RESET, batches.len() as int),
        ),
{
    let n = batches.len() as int;
    let init = batches.drop_last();
    lemma_stream_run(init);
    let l = (n - 1) % 100;
    if l == 99 {
        assert(n % 100 == 0);
        let start = n - 100;
        let s = batches.subrange(start, n);
        assert(s.drop_last() =~= init.subrange(start, n - 1));
    } else {
        assert(n % 100 == l + 1);
    }
}

/// Whether a contract event carries the id of the contract that emitted it.
pub open spec fn has_contract_id() -> spec_fn(ContractEvent) -> bool {
    |e: ContractEvent| e.contract_id is Some
}

/// Whether the topics and the data of a contract event render as JSON.
pub open spec fn renders(e: ContractEvent) -> bool {
    match e.body {
        ContractEventBody::V0(b) => scval_list_json_text(b.topics.deep_view()) is Some && scval_json_text(
            b.data@,
        ) is Some,
    }
}

/// The JSON text of a contract event's topics.
pub open spec fn topics_json(e: ContractEvent) -> Seq<char> {
    match e.body {
        ContractEventBody::V0(b) => scval_list_json_text(b.topics.deep_view())->0,
    }
}

/// The JSON text of a contract event's data.
pub open spec fn data_json(e: ContractEvent) -> Seq<char> {
    match e.body {
        ContractEventBody::V0(b) => scval_json_text(b.data@)->0,
    }
}

/// The events kept for a ledger are exactly those that carry a contract id,
/// every one of them, in their order.
pub proof fn lemma_with_contract_id_is_filter(events: Seq<ContractEvent>)
    ensures
        with_contract_id(events) == events.filter(has_contract_id()),
    decreases events.len(),
{
    reveal(Seq::filter);
    if events.len() > 0 {
        lemma_with_contract_id_is_filter(events.drop_last());
    }
}

proof fn lemma_with_contract_id_members(events: Seq<ContractEvent>)
    ensures
        forall|i: int|
            0 <= i < with_contract_id(events).len() ==> exists|j: int|
                0 <= j < events.len() && #[trigger] with_contract_id(events)[i] == #[trigger] events[j],
    decreases events.len(),
{
    if events.len() > 0 {
        let init = events.drop_last();
        lemma_with_contract_id_members(init);
        let f = with_contract_id(events);
        let g = with_contract_id(init);
        assert forall|i: int| 0 <= i < f.len() implies exists|j: int|
            0 <= j < events.len() && #[trigger] f[i] == #[trigger] events[j] by {
            if i < g.len() {
                assert(f[i] == g[i]);
                let j = choose|j: int| 0 <= j < init.len() && #[trigger] g[i] == #[trigger] init[j];
                assert(events[j] == init[j]);
            } else {
                assert(f[i] == events[events.len() - 1]);
            }
        }
    }
}

/// A contract event gives a record exactly when it carries a contract id and
/// its topics and data render; the record is the `index`-th of ledger
/// `sequence`, its contract id in lower-case hex, its topics and data those
/// renderings. The number of topics plays no part.
pub proof fn lemma_constructed_event(event: ContractEvent, sequence: u32, index: usize)
    ensures
        event.contract_id is None ==> constructed_event(event, sequence, index) is None,
        event.contract_id is Some && !renders(event) ==> constructed_event(event, sequence, index) is None,
        event.contract_id is Some && renders(event) ==> constructed_event(event, sequence, index) == Some(
            DeriskEventView {
                id: event_id(sequence as int, index as nat),
                contract_id: hex_lower(event.contract_id->0@),
                index: index as i32,
                sequence: sequence as i64,
                topics: topics_json(event),
                data: data_json(event),
            },
        ),
{
}

/// When every event with a contract id renders, a ledger's records cover
/// every such event, one record each, in their order: the `i`-th event with a
/// contract id gives the `i`-th record, numbered `i`.
pub proof fn lemma_records_cover_contract_events(events: Seq<ContractEvent>, sequence: u32)
    requires
        events.len() <= usize::MAX,
        forall|i: int| 0 <= i < events.len() && (#[trigger] events[i]).contract_id is Some ==> renders(events[i]),
    ensures
        derisk_records(events, sequence).len() == events.filter(has_contract_id()).len(),
        forall|i: int|
            0 <= i < events.filter(has_contract_id()).len() ==> #[trigger] derisk_records(events, sequence)[i]
                == (DeriskEventView {
                id: event_id(sequence as int, i as nat),
                contract_id: hex_lower(events.filter(has_contract_id())[i].contract_id->0@),
                index: i as i32,
                sequence: sequence as i64,
                topics: topics_json(events.filter(has_contract_id())[i]),
                data: data_json(events.filter(has_contract_id())[i]),
            }),
{
    let f = with_contract_id(events);
    lemma_with_contract_id_is_filter(events);
    lemma_with_contract_id_len(events);
    lemma_with_contract_id_members(events);
    reveal(Seq::filter);
    assert forall|i: int| 0 <= i < f.len() implies (#[trigger] constructed_event(
        f[i],
        sequence,
        i as usize,
    )) is Some by {
        let j = choose|j: int| 0 <= j < events.len() && #[trigger] f[i] == #[trigger] events[j];
        assert(f.filter(has_contract_id()) == f) by {
            lemma_filter_of_kept(events);
        }
        broadcast use vstd::seq_lib::group_filter_ensures;
        assert(has_contract_id()(f.filter(has_contract_id())[i]));
        lemma_constructed_event(f[i], sequence, i as usize);
    }
    lemma_records_of_numbered(f, sequence);
    assert forall|i: int| 0 <= i < f.len() implies #[trigger] derisk_records(events, sequence)[i] == (
    DeriskEventView {
        id: event_id(sequence as int, i as nat),
        contract_id: hex_lower(f[i].contract_id->0@),
        index: i as i32,
        sequence: sequence as i64,
        topics: topics_json(f[i]),
        data: data_json(f[i]),
    }) by {
        lemma_constructed_event(f[i], sequence, i as usize);
    }
}

proof fn lemma_filter_of_kept(events: Seq<ContractEvent>)
    ensures
        with_contract_id(events).filter(has_contract_id()) == with_contract_id(events),
    decreases events.len(),
{
    reveal(Seq::filter);
    if events.len() > 0 {
        lemma_filter_of_kept(events.drop_last());
        let f = with_contract_id(events);
        if events.last().contract_id is Some {
            assert(f.drop_last() =~= with_contract_id(events.drop_last()));
        }
    }
}

/// The transactions of a ledger; a version 0 ledger is taken to have none.
pub open spec fn transactions_of(ledger: LedgerCloseMeta) -> Seq<TransactionResultMeta> {
    match ledger {
        LedgerCloseMeta::V0(_) => Seq::empty(),
        LedgerCloseMeta::V1(v1) => v1.tx_processing@,
        LedgerCloseMeta::V2(v2) => v2.tx_processing@,
    }
}

/// The records of the Soroban events of the first of `txs`, as events of
/// ledger `sequence`: none where there is no first transaction, where it has
/// no version 3 metadata, no Soroban metadata, or no event.
pub open spec fn first_transaction_records(txs: Seq<TransactionResultMeta>, sequence: u32) -> Option<
    Seq<DeriskEventView>,
> {
    if txs.len() == 0 {
        None
    } else {
        match txs[0].tx_apply_processing {
            TransactionMeta::V3(m) => match m.soroban_meta {
                Some(sm) => if sm.events@.len() > 0 {
                    Some(derisk_records(sm.events@, sequence))
                } else {
                    None
                },
                None => None,
            },
            _ => None,
        }
    }
}

/// The records of a ledger: none for version 0; for versions 1 and 2 alike,
/// those of the events of its first transaction, whatever follows it, as
/// events of the ledger's own sequence number.
pub proof fn lemma_ledger_records_first_transaction(ledger: LedgerCloseMeta)
    ensures
        ledger is V0 ==> ledger_records(ledger) is None,
        !(ledger is V0) ==> ledger_records(ledger) == first_transaction_records(
            transactions_of(ledger),
            ledger_seq_of(ledger),
        ),
{
}

/// Two ledgers of versions 1 or 2 with the same sequence number and the same
/// first transaction have the same records: further transactions, and the
/// version, make no difference.
pub proof fn lemma_ledger_records_depend_on_first_transaction(l1: LedgerCloseMeta, l2: LedgerCloseMeta)
    requires
        !(l1 is V0),
        !(l2 is V0),
        ledger_seq_of(l1) == ledger_seq_of(l2),
        transactions_of(l1).len() > 0,
        transactions_of(l2).len() > 0,
        transactions_of(l1)[0] == transactions_of(l2)[0],
    ensures
        ledger_records(l1) == ledger_records(l2),
{
    lemma_ledger_records_first_transaction(l1);
    lemma_ledger_records_first_transaction(l2);
}

/// What a ledger adds to a run is exactly its records, or nothing where it has none.
pub proof fn lemma_contribution_is_records(ledger: LedgerCloseMeta)
    ensures
        ledger_records(ledger) matches Some(r) ==> ledger_contribution(ledger) == r,
        ledger_records(ledger) is None ==> ledger_contribution(ledger) == Seq::<DeriskEventView>::empty(),
{
}

/// The records of a run are those of its parts, one after the other: a
/// ledger without records changes nothing for the ledgers after it.
pub proof fn lemma_historic_records_concat(a: Seq<LedgerCloseMeta>, b: Seq<LedgerCloseMeta>)
    ensures
        historic_records(a + b) == historic_records(a) + historic_records(b),
    decreases b.len(),
{
    if b.len() == 0 {
        assert(a + b =~= a);
        assert(historic_records(a) + historic_records(b) =~= historic_records(a));
    } else {
        lemma_historic_records_concat(a, b.drop_last());
        assert((a + b).drop_last() =~= a + b.drop_last());
        assert((a + b).last() == b.last());
        assert(historic_records(a + b) =~= historic_records(a) + historic_records(b));
    }
}

/// The records of a run of one ledger are that ledger's records, or nothing.
pub proof fn lemma_historic_records_single(ledger: LedgerCloseMeta)
    ensures
        ledger_records(ledger) matches Some(r) ==> historic_records(seq![ledger]) == r,
        ledger_records(ledger) is None ==> historic_records(seq![ledger]) == Seq::<DeriskEventView>::empty(),
{
    let s = seq![ledger];
    assert(s.drop_last() =~= Seq::<LedgerCloseMeta>::empty());
    assert(historic_records(s.drop_last()) == Seq::<DeriskEventView>::empty());
    assert(s.last() == ledger);
    assert(historic_records(s) =~= ledger_contribution(ledger));
}

} // verus!
