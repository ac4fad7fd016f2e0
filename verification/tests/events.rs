use derisk_stellar_events::event::{
    construct_derisk_event, derisk_events, generate_id, ContractEvent, ContractEventBody,
    ContractEventV0, CoreNetwork, StellarNetwork,
};
use derisk_stellar_events::text::{push_decimal_i64, push_decimal_u64, push_hex_lower};
use stellar_xdr::next::{Limits, ScVal, WriteXdr};

fn xdr(v: ScVal) -> Vec<u8> {
    v.to_xdr(Limits::none()).unwrap()
}

fn event(contract_id: Option<[u8; 32]>, topics: Vec<ScVal>, data: ScVal) -> ContractEvent {
    ContractEvent {
        contract_id,
        body: ContractEventBody::V0(ContractEventV0 {
            topics: topics.into_iter().map(xdr).collect(),
            data: xdr(data),
        }),
    }
}

#[test]
fn network_names() {
    assert_eq!(StellarNetwork::Futurenet.name(), "stellar-futurenet");
    assert_eq!(StellarNetwork::Testnet.name(), "stellar-testnet");
    assert_eq!(StellarNetwork::Mainnet.name(), "stellar-mainnet");
    assert!(StellarNetwork::Mainnet.is_mainnet());
    assert!(!StellarNetwork::Futurenet.is_mainnet());
    assert!(!StellarNetwork::Testnet.is_mainnet());
    assert_eq!(StellarNetwork::Mainnet.core_network(), CoreNetwork::Pubnet);
    assert_eq!(StellarNetwork::Testnet.core_network(), CoreNetwork::Testnet);
    assert_eq!(StellarNetwork::Futurenet.core_network(), CoreNetwork::Futurenet);
}

#[test]
fn ids_are_sequence_underscore_index() {
    assert_eq!(generate_id(5584, 0), "5584_0");
    assert_eq!(generate_id(1100676, 12), "1100676_12");
    assert_eq!(generate_id(0, 0), "0_0");
    assert_eq!(generate_id(-12, 3), "-12_3");
    assert_eq!(generate_id(i64::MIN, usize::MAX), format!("{}_{}", i64::MIN, usize::MAX));
    assert_eq!(generate_id(i64::MAX, 10), format!("{}_10", i64::MAX));
}

#[test]
fn decimal_and_hex_rendering() {
    let mut s = String::from("x");
    push_decimal_u64(&mut s, 1234567890);
    assert_eq!(s, "x1234567890");
    let mut s = String::new();
    push_decimal_u64(&mut s, u64::MAX);
    assert_eq!(s, u64::MAX.to_string());
    let mut s = String::new();
    push_decimal_i64(&mut s, -9);
    assert_eq!(s, "-9");
    let mut s = String::new();
    push_hex_lower(&mut s, &[0x00, 0x0f, 0xa0, 0xff, 0x7b]);
    assert_eq!(s, "000fa0ff7b");
}

#[test]
fn event_without_contract_id_gives_nothing() {
    let e = event(None, vec![ScVal::U32(7)], ScVal::Void);
    assert!(construct_derisk_event(&e, 10, 0).is_none());
}

#[test]
fn event_with_contract_id_is_recorded() {
    let mut id = [0u8; 32];
    id[0] = 0xab;
    id[31] = 0x01;
    let e = event(Some(id), vec![ScVal::U32(7), ScVal::Bool(true)], ScVal::I32(-5));
    let r = construct_derisk_event(&e, 5584, 3).unwrap();
    assert_eq!(r.id, "5584_3");
    assert_eq!(
        r.contract_id,
        "ab00000000000000000000000000000000000000000000000000000000000001"
    );
    assert_eq!(r.contract_id.len(), 64);
    assert_eq!(r.index, 3);
    assert_eq!(r.sequence, 5584);
    assert_eq!(r.topics, r#"[{"u32":7},{"bool":true}]"#);
    assert_eq!(r.data, r#"{"i32":-5}"#);
}

#[test]
fn contract_id_matches_xdr_hash_display() {
    let id: [u8; 32] = core::array::from_fn(|i| (i * 37 % 256) as u8);
    let e = event(Some(id), vec![], ScVal::Void);
    let r = construct_derisk_event(&e, 1, 0).unwrap();
    assert_eq!(r.contract_id, format!("{}", stellar_xdr::next::Hash(id)));
    assert_eq!(r.topics, "[]");
    assert_eq!(r.data, r#""void""#);
}

#[test]
fn topics_and_data_are_serde_json_of_the_values() {
    let topics = vec![ScVal::U64(42), ScVal::Void];
    let data = ScVal::Bool(false);
    let e = event(Some([1u8; 32]), topics.clone(), data.clone());
    let r = construct_derisk_event(&e, 2, 0).unwrap();
    let vecm: stellar_xdr::next::VecM<ScVal> = topics.try_into().unwrap();
    assert_eq!(r.topics, serde_json::to_string(&vecm).unwrap());
    assert_eq!(r.data, serde_json::to_string(&data).unwrap());
}

#[test]
fn undecodable_values_give_nothing() {
    let e = ContractEvent {
        contract_id: Some([2u8; 32]),
        body: ContractEventBody::V0(ContractEventV0 {
            topics: vec![vec![0xff, 0xff]],
            data: xdr(ScVal::Void),
        }),
    };
    assert!(construct_derisk_event(&e, 1, 0).is_none());
    let e = ContractEvent {
        contract_id: Some([2u8; 32]),
        body: ContractEventBody::V0(ContractEventV0 { topics: vec![], data: vec![1, 2, 3] }),
    };
    assert!(construct_derisk_event(&e, 1, 0).is_none());
}

#[test]
fn events_without_contract_id_are_dropped_and_others_numbered() {
    let events = vec![
        event(None, vec![], ScVal::U32(0)),
        event(Some([1u8; 32]), vec![], ScVal::U32(1)),
        event(None, vec![], ScVal::U32(2)),
        event(Some([3u8; 32]), vec![ScVal::U32(9)], ScVal::U32(3)),
        event(Some([4u8; 32]), vec![], ScVal::U32(4)),
    ];
    let r = derisk_events(&events, 77);
    assert_eq!(r.len(), 3);
    let ids: Vec<&str> = r.iter().map(|e| e.id.as_str()).collect();
    assert_eq!(ids, vec!["77_0", "77_1", "77_2"]);
    let idx: Vec<i32> = r.iter().map(|e| e.index).collect();
    assert_eq!(idx, vec![0, 1, 2]);
    assert_eq!(r[0].data, r#"{"u32":1}"#);
    assert_eq!(r[1].data, r#"{"u32":3}"#);
    assert_eq!(r[1].topics, r#"[{"u32":9}]"#);
    assert_eq!(r[2].data, r#"{"u32":4}"#);
    assert!(r.iter().all(|e| e.sequence == 77));
}

#[test]
fn failed_conversion_keeps_its_number() {
    let bad = ContractEvent {
        contract_id: Some([5u8; 32]),
        body: ContractEventBody::V0(ContractEventV0 { topics: vec![], data: vec![9] }),
    };
    let events = vec![
        event(Some([1u8; 32]), vec![], ScVal::Void),
        bad,
        event(Some([2u8; 32]), vec![], ScVal::Void),
    ];
    let r = derisk_events(&events, 8);
    let ids: Vec<&str> = r.iter().map(|e| e.id.as_str()).collect();
    assert_eq!(ids, vec!["8_0", "8_2"]);
}

#[test]
fn no_events_give_no_records() {
    assert!(derisk_events(&vec![], 1).is_empty());
}

fn nested_vec_xdr(levels: usize) -> Vec<u8> {
    let mut bytes = Vec::with_capacity(levels * 12 + 4);
    for _ in 0..levels {
        bytes.extend_from_slice(&[0, 0, 0, 16, 0, 0, 0, 1, 0, 0, 0, 1]);
    }
    bytes.extend_from_slice(&[0, 0, 0, 1]);
    bytes
}

#[test]
fn moderately_nested_values_render() {
    let e = ContractEvent {
        contract_id: Some([6u8; 32]),
        body: ContractEventBody::V0(ContractEventV0 {
            topics: vec![nested_vec_xdr(3)],
            data: nested_vec_xdr(2),
        }),
    };
    let r = construct_derisk_event(&e, 1, 0).unwrap();
    assert_eq!(r.data, r#"{"vec":[{"vec":["void"]}]}"#);
    assert_eq!(r.topics, r#"[{"vec":[{"vec":[{"vec":["void"]}]}]}]"#);
}

#[test]
fn too_deeply_nested_values_give_nothing() {
    let deep = nested_vec_xdr(100_000);
    let e = ContractEvent {
        contract_id: Some([6u8; 32]),
        body: ContractEventBody::V0(ContractEventV0 { topics: vec![], data: deep.clone() }),
    };
    assert!(construct_derisk_event(&e, 1, 0).is_none());
    let e = ContractEvent {
        contract_id: Some([6u8; 32]),
        body: ContractEventBody::V0(ContractEventV0 {
            topics: vec![deep],
            data: xdr(ScVal::Void),
        }),
    };
    assert!(construct_derisk_event(&e, 1, 0).is_none());
}
