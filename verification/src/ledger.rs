//! The parts of a closed ledger's metadata that hold Soroban contract events,
//! and the events stored for a run of historic ledgers.
use vstd::prelude::*;

use crate::event::{
    derisk_events, derisk_records, events_view, ContractEvent, DeriskEvent, DeriskEventView,
};

verus! {

/// The Soroban part of a transaction's metadata: the contract events it emitted.
pub struct SorobanTransactionMeta {
    pub events: Vec<ContractEvent>,
}

/// Version 3 of a transaction's metadata, the one that can carry Soroban metadata.
pub struct TransactionMetaV3 {
    pub soroban_meta: Option<SorobanTransactionMeta>,
}

/// The versions of a transaction's metadata; only version 3 carries contract events.
pub enum TransactionMeta {
    V0,
    V1,
    V2,
    V3(TransactionMetaV3),
}

/// What applying one transaction of a ledger produced.
pub struct TransactionResultMeta {
    pub tx_apply_processing: TransactionMeta,
}

/// Version 0 of a closed ledger's metadata, which has no Soroban events.
pub struct LedgerCloseMetaV0 {
    pub ledger_seq: u32,
}

/// Version 1 of a closed ledger's metadata.
pub struct LedgerCloseMetaV1 {
    pub ledger_seq: u32,
    pub tx_processing: Vec<TransactionResultMeta>,
}

/// Version 2 of a closed ledger's metadata.
pub struct LedgerCloseMetaV2 {
    pub ledger_seq: u32,
    pub tx_processing: Vec<TransactionResultMeta>,
}

/// A closed ledger's metadata.
pub enum LedgerCloseMeta {
    V0(LedgerCloseMetaV0),
    V1(LedgerCloseMetaV1),
    V2(LedgerCloseMetaV2),
}

/// The version 3 metadata of the first transaction, if the first transaction has it.
pub open spec fn first_meta_v3(txs: Seq<TransactionResultMeta>) -> Option<TransactionMetaV3> {
    if txs.len() == 0 {
        None
    } else {
        match txs[0].tx_apply_processing {
            TransactionMeta::V3(m) => Some(m),
            _ => None,
        }
    }
}

/// Ledger metadata whose first transaction may carry Soroban events.
pub trait SorobanCapableLedger: Sized {
    /// The ledger's transactions, in order.
    spec fn transactions(&self) -> Seq<TransactionResultMeta>;

    /// The version 3 metadata of the ledger's first transaction, if it has one.
    fn get_transaction_meta(self) -> (r: Option<TransactionMetaV3>)
        ensures
            r == first_meta_v3(self.transactions()),
    ;
}

fn first_transaction_meta(txs: Vec<TransactionResultMeta>) -> (r: Option<TransactionMetaV3>)
    ensures
        r == first_meta_v3(txs@),
{
    let mut txs = txs;
    if txs.len() == 0 {
        None
    } else {
        let first = txs.remove(0);
        match first.tx_apply_processing {
            TransactionMeta::V3(meta_v3) => Some(meta_v3),
            _ => None,
        }
    }
}

impl SorobanCapableLedger for LedgerCloseMetaV1 {
    open spec fn transactions(&self) -> Seq<TransactionResultMeta> {
        self.tx_processing@
    }

    fn get_transaction_meta(self) -> (r: Option<TransactionMetaV3>) {
        first_transaction_meta(self.tx_processing)
    }
}

impl SorobanCapableLedger for LedgerCloseMetaV2 {
    open spec fn transactions(&self) -> Seq<TransactionResultMeta> {
        self.tx_processing@
    }

    fn get_transaction_meta(self) -> (r: Option<TransactionMetaV3>) {
        first_transaction_meta(self.tx_processing)
    }
}

/// The records of a transaction's Soroban events: none where it has no
/// Soroban metadata or that metadata lists no event.
pub open spec fn soroban_records(meta: TransactionMetaV3, sequence: u32) -> Option<
    Seq<DeriskEventView>,
> {
    match meta.soroban_meta {
        Some(sm) => if sm.events@.len() > 0 {
            Some(derisk_records(sm.events@, sequence))
        } else {
            None
        },
        None => None,
    }
}

/// The view of an optional list of stored events.
pub open spec fn opt_events(r: Option<Vec<DeriskEvent>>) -> Option<Seq<DeriskEventView>> {
    match r {
        Some(v) => Some(events_view(v@)),
        None => None,
    }
}

/// The records of a transaction's Soroban events, as events of ledger `sequence`.
pub fn parse_soroban_events(transaction_meta: &TransactionMetaV3, sequence: u32) -> (r: Option<
    Vec<DeriskEvent>,
>)
    ensures
        opt_events(r) == soroban_records(*transaction_meta, sequence),
{
    match &transaction_meta.soroban_meta {
        Some(soroban_meta) => {
            if soroban_meta.events.len() > 0 {
                Some(derisk_events(&soroban_meta.events, sequence))
            } else {
                None
            }
        },
        None => None,
    }
}

/// The records of a ledger's events, taken from its first transaction.
pub open spec fn ledger_meta_records(txs: Seq<TransactionResultMeta>, sequence: u32) -> Option<
    Seq<DeriskEventView>,
> {
    match first_meta_v3(txs) {
        Some(m) => soroban_records(m, sequence),
        None => None,
    }
}

/// The records of the events in the first transaction of `ledger`, as events
/// of ledger `seq`.
pub fn extract_events<T: SorobanCapableLedger>(ledger: T, seq: u32) -> (r: Option<Vec<DeriskEvent>>)
    ensures
        opt_events(r) == ledger_meta_records(ledger.transactions(), seq),
{
    match ledger.get_transaction_meta() {
        Some(meta_v3) => parse_soroban_events(&meta_v3, seq),
        None => None,
    }
}

/// The sequence number in a ledger's header.
pub open spec fn ledger_seq_of(ledger: LedgerCloseMeta) -> u32 {
    match ledger {
        LedgerCloseMeta::V0(v0) => v0.ledger_seq,
        LedgerCloseMeta::V1(v1) => v1.ledger_seq,
        LedgerCloseMeta::V2(v2) => v2.ledger_seq,
    }
}

/// The records of a ledger: none for version 0, else those of its first
/// transaction, numbered as events of the ledger's own sequence number.
pub open spec fn ledger_records(ledger: LedgerCloseMeta) -> Option<Seq<DeriskEventView>> {
    match ledger {
        LedgerCloseMeta::V0(_) => None,
        LedgerCloseMeta::V1(v1) => ledger_meta_records(v1.tx_processing@, v1.ledger_seq),
        LedgerCloseMeta::V2(v2) => ledger_meta_records(v2.tx_processing@, v2.ledger_seq),
    }
}

/// The records that a ledger adds to a run: its records, or nothing.
pub open spec fn ledger_contribution(ledger: LedgerCloseMeta) -> Seq<DeriskEventView> {
    match ledger_records(ledger) {
        Some(r) => r,
        None => Seq::empty(),
    }
}

/// The records of a run of ledgers, ledger after ledger.
pub open spec fn historic_records(ledgers: Seq<LedgerCloseMeta>) -> Seq<DeriskEventView>
    decreases ledgers.len(),
{
    if ledgers.len() == 0 {
        Seq::empty()
    } else {
        historic_records(ledgers.drop_last()) + ledger_contribution(ledgers.last())
    }
}

/// The sequence number in the header of `ledger`.
pub fn ledger_sequence(ledger: &LedgerCloseMeta) -> (r: u32)
    ensures
        r == ledger_seq_of(*ledger),
{
    match ledger {
        LedgerCloseMeta::V1(v1) => v1.ledger_seq,
        LedgerCloseMeta::V0(v0) => v0.ledger_seq,
        LedgerCloseMeta::V2(v2) => v2.ledger_seq,
    }
}

/// The records of one fetched ledger.
pub fn ledger_events(ledger: LedgerCloseMeta) -> (r: Option<Vec<DeriskEvent>>)
    ensures
        opt_events(r) == ledger_records(ledger),
{
    let ledger_seq = ledger_sequence(&ledger);
    match ledger {
        LedgerCloseMeta::V0(_) => None,
        LedgerCloseMeta::V1(v1) => extract_events(v1, ledger_seq),
        LedgerCloseMeta::V2(v2) => extract_events(v2, ledger_seq),
    }
}

/// Adds the records of one fetched ledger to those gathered so far.
pub fn accumulate_ledger_events(events_accumulator: &mut Vec<DeriskEvent>, ledger: LedgerCloseMeta)
    ensures
        events_view(final(events_accumulator)@) == events_view(old(events_accumulator)@)
            + ledger_contribution(ledger),
{
    let ghost before = events_accumulator@;
    let events = ledger_events(ledger);
    if let Some(mut events_vec) = events {
        if !events_vec.is_empty() {
            let ghost added = events_vec@;
            events_accumulator.append(&mut events_vec);
            assert(events_view(events_accumulator@) =~= events_view(before) + events_view(added));
        } else {
            assert(events_view(events_vec@) =~= Seq::<DeriskEventView>::empty());
            assert(events_view(before) + ledger_contribution(ledger) =~= events_view(before));
        }
    } else {
        assert(events_view(before) + ledger_contribution(ledger) =~= events_view(before));
    }
}

/// The records of a run of fetched ledgers, in the order of the ledgers.
pub fn collect_historic_events(ledgers: Vec<LedgerCloseMeta>) -> (r: Vec<DeriskEvent>)
    ensures
        events_view(r@) == historic_records(ledgers@),
{
    let ghost all = ledgers@;
    let total = ledgers.len();
    let mut pending = ledgers;
    let mut rest: Vec<LedgerCloseMeta> = Vec::new();
    while pending.len() > 0
        invariant
            pending@ == all.take(all.len() - rest@.len()),
            rest@.len() <= all.len(),
            forall|j: int| 0 <= j < rest@.len() ==> #[trigger] rest@[j] == all[all.len() - 1 - j],
        decreases pending@.len(),
    {
        let ghost before = pending@;
        let ledger = pending.pop().unwrap();
        rest.push(ledger);
        assert(pending@ =~= all.take(all.len() - rest@.len()));
    }
    assert(rest@.len() == all.len());
    let mut events_accumulator: Vec<DeriskEvent> = Vec::new();
    assert(all.take(0) =~= Seq::<LedgerCloseMeta>::empty());
    assert(events_view(events_accumulator@) =~= Seq::<DeriskEventView>::empty());
    let mut i: usize = 0;
    while rest.len() > 0
        invariant
            i + rest@.len() == all.len(),
            all.len() == total,
            forall|j: int| 0 <= j < rest@.len() ==> #[trigger] rest@[j] == all[all.len() - 1 - j],
            events_view(events_accumulator@) == historic_records(all.take(i as int)),
        decreases rest@.len(),
    {
        let ghost before = rest@;
        let ledger = rest.pop().unwrap();
        proof {
            assert(ledger == all[i as int]);
            assert(all.take(i + 1).drop_last() =~= all.take(i as int));
            assert forall|j: int| 0 <= j < rest@.len() implies #[trigger] rest@[j] == all[all.len() - 1 - j] by {
                assert(rest@[j] == before[j]);
            }
        }
        accumulate_ledger_events(&mut events_accumulator, ledger);
        i = i + 1;
    }
    assert(all.take(all.len() as int) =~= all);
    events_accumulator
}

} // verus!
