use std::collections::HashSet;

use derisk_stellar_events::event::{ContractEvent, ContractEventBody, ContractEventV0};
use derisk_stellar_events::ledger::{
    accumulate_ledger_events, collect_historic_events, extract_events, ledger_events,
    ledger_sequence, parse_soroban_events, LedgerCloseMeta, LedgerCloseMetaV0, LedgerCloseMetaV1,
    LedgerCloseMetaV2, SorobanCapableLedger, SorobanTransactionMeta, TransactionMeta,
    TransactionMetaV3, TransactionResultMeta,
};
use stellar_xdr::next::{Limits, ScVal, WriteXdr};

fn event(id: Option<u8>, data: u32) -> ContractEvent {
    ContractEvent {
        contract_id: id.map(|b| [b; 32]),
        body: ContractEventBody::V0(ContractEventV0 {
            topics: vec![],
            data: ScVal::U32(data).to_xdr(Limits::none()).unwrap(),
        }),
    }
}

fn v3(events: Option<Vec<ContractEvent>>) -> TransactionResultMeta {
    TransactionResultMeta {
        tx_apply_processing: TransactionMeta::V3(TransactionMetaV3 {
            soroban_meta: events.map(|events| SorobanTransactionMeta { events }),
        }),
    }
}

fn v1(seq: u32, txs: Vec<TransactionResultMeta>) -> LedgerCloseMeta {
    LedgerCloseMeta::V1(LedgerCloseMetaV1 { ledger_seq: seq, tx_processing: txs })
}

#[test]
fn first_transaction_meta_is_read() {
    let l = LedgerCloseMetaV1 {
        ledger_seq: 1,
        tx_processing: vec![v3(Some(vec![event(Some(1), 1)])), v3(None)],
    };
    let m = l.get_transaction_meta().unwrap();
    assert_eq!(m.soroban_meta.unwrap().events.len(), 1);

    let l = LedgerCloseMetaV2 {
        ledger_seq: 1,
        tx_processing: vec![
            TransactionResultMeta { tx_apply_processing: TransactionMeta::V2 },
            v3(Some(vec![event(Some(1), 1)])),
        ],
    };
    assert!(l.get_transaction_meta().is_none());

    let l = LedgerCloseMetaV2 { ledger_seq: 1, tx_processing: vec![] };
    assert!(l.get_transaction_meta().is_none());
}

#[test]
fn soroban_meta_without_events_gives_none() {
    let m = TransactionMetaV3 { soroban_meta: None };
    assert!(parse_soroban_events(&m, 3).is_none());
    let m = TransactionMetaV3 { soroban_meta: Some(SorobanTransactionMeta { events: vec![] }) };
    assert!(parse_soroban_events(&m, 3).is_none());
    let m = TransactionMetaV3 {
        soroban_meta: Some(SorobanTransactionMeta { events: vec![event(None, 1)] }),
    };
    let r = parse_soroban_events(&m, 3).unwrap();
    assert!(r.is_empty());
}

#[test]
fn extract_events_of_a_ledger() {
    let l = LedgerCloseMetaV1 {
        ledger_seq: 9,
        tx_processing: vec![v3(Some(vec![event(Some(1), 1), event(None, 2), event(Some(2), 3)]))],
    };
    let r = extract_events(l, 40).unwrap();
    let ids: Vec<&str> = r.iter().map(|e| e.id.as_str()).collect();
    assert_eq!(ids, vec!["40_0", "40_1"]);
}

#[test]
fn version_zero_ledgers_have_no_events() {
    let l = LedgerCloseMeta::V0(LedgerCloseMetaV0 { ledger_seq: 12 });
    assert_eq!(ledger_sequence(&l), 12);
    assert!(ledger_events(l).is_none());
}

#[test]
fn ledger_events_use_the_header_sequence() {
    let l = v1(5584, vec![v3(Some(vec![event(Some(7), 1)]))]);
    assert_eq!(ledger_sequence(&l), 5584);
    let r = ledger_events(l).unwrap();
    assert_eq!(r[0].id, "5584_0");
    assert_eq!(r[0].sequence, 5584);
    let l = LedgerCloseMeta::V2(LedgerCloseMetaV2 {
        ledger_seq: 6,
        tx_processing: vec![v3(Some(vec![event(Some(7), 1)]))],
    });
    assert_eq!(ledger_events(l).unwrap()[0].id, "6_0");
}

#[test]
fn accumulation_appends_in_order() {
    let mut acc = Vec::new();
    accumulate_ledger_events(&mut acc, v1(1, vec![v3(Some(vec![event(Some(1), 1)]))]));
    accumulate_ledger_events(&mut acc, LedgerCloseMeta::V0(LedgerCloseMetaV0 { ledger_seq: 2 }));
    accumulate_ledger_events(&mut acc, v1(3, vec![v3(Some(vec![]))]));
    accumulate_ledger_events(&mut acc, v1(4, vec![v3(Some(vec![event(Some(1), 1), event(Some(2), 2)]))]));
    let ids: Vec<&str> = acc.iter().map(|e| e.id.as_str()).collect();
    assert_eq!(ids, vec!["1_0", "4_0", "4_1"]);
}

#[test]
fn historic_run_has_unique_ids() {
    let ledgers: Vec<LedgerCloseMeta> = (100..110)
        .map(|s| v1(s, vec![v3(Some(vec![event(Some(1), s), event(None, 0), event(Some(2), s)]))]))
        .collect();
    let r = collect_historic_events(ledgers);
    assert_eq!(r.len(), 20);
    assert_eq!(r[0].id, "100_0");
    assert_eq!(r[19].id, "109_1");
    let ids: HashSet<&str> = r.iter().map(|e| e.id.as_str()).collect();
    assert_eq!(ids.len(), 20);
}

#[test]
fn empty_run_gives_nothing() {
    assert!(collect_historic_events(vec![]).is_empty());
}
