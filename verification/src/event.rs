//! Contract events as they come out of a ledger, and the records that are
//! stored for them.
use vstd::prelude::*;

use ingest::DEFAULT_XDR_RW_DEPTH_LIMIT;
use stellar_xdr::next::{Limits, ReadXdr, ScVal, VecM};

use crate::text::{
    hex_lower, int_decimal, lemma_hex_lower_len, nat_decimal, push_char,
    push_decimal_i64, push_decimal_u64, push_hex_lower,
};

verus! {

/// The Stellar networks whose events are stored.
#[derive(Clone, Copy, Debug, PartialEq, Eq, Structural)]
pub enum StellarNetwork {
    Futurenet,
    Testnet,
    Mainnet,
}

/// The networks stellar-core can ingest from; the main network is called the
/// public network there.
#[derive(Clone, Copy, Debug, PartialEq, Eq, Structural)]
pub enum CoreNetwork {
    Futurenet,
    Pubnet,
    Testnet,
}

/// The stellar-core network that serves a network's ledgers.
pub open spec fn core_network_of(network: StellarNetwork) -> CoreNetwork {
    match network {
        StellarNetwork::Futurenet => CoreNetwork::Futurenet,
        StellarNetwork::Testnet => CoreNetwork::Testnet,
        StellarNetwork::Mainnet => CoreNetwork::Pubnet,
    }
}

/// The name under which a network is known, which is also its database's name.
pub open spec fn network_name(network: StellarNetwork) -> Seq<char> {
    match network {
        StellarNetwork::Futurenet => "stellar-futurenet"@,
        StellarNetwork::Testnet => "stellar-testnet"@,
        StellarNetwork::Mainnet => "stellar-mainnet"@,
    }
}

impl StellarNetwork {
    /// The network's name: `stellar-futurenet`, `stellar-testnet` or `stellar-mainnet`.
    pub fn name(&self) -> (r: &'static str)
        ensures
            r@ == network_name(*self),
    {
        match self {
            StellarNetwork::Futurenet => "stellar-futurenet",
            StellarNetwork::Testnet => "stellar-testnet",
            StellarNetwork::Mainnet => "stellar-mainnet",
        }
    }

    /// The stellar-core network to ingest this network's ledgers from.
    pub fn core_network(&self) -> (r: CoreNetwork)
        ensures
            r == core_network_of(*self),
    {
        match self {
            StellarNetwork::Futurenet => CoreNetwork::Futurenet,
            StellarNetwork::Testnet => CoreNetwork::Testnet,
            StellarNetwork::Mainnet => CoreNetwork::Pubnet,
        }
    }

    /// Whether this is the public main network, the only one whose database
    /// holds StellarX pools.
    pub fn is_mainnet(&self) -> (r: bool)
        ensures
            r == (*self is Mainnet),
    {
        match self {
            StellarNetwork::Mainnet => true,
            _ => false,
        }
    }
}

/// The body of a contract event: its topics and its data, each value in its
/// XDR encoding (an `ScVal`).
pub struct ContractEventV0 {
    pub topics: Vec<Vec<u8>>,
    pub data: Vec<u8>,
}

/// The versions of a contract event's body.
pub enum ContractEventBody {
    V0(ContractEventV0),
}

/// A contract event: the id of the contract that emitted it, if any, and its body.
pub struct ContractEvent {
    pub contract_id: Option<[u8; 32]>,
    pub body: ContractEventBody,
}

/// A stored event. `topics` and `data` are JSON texts.
#[derive(Debug)]
pub struct DeriskEvent {
    pub id: String,
    pub contract_id: String,
    pub index: i32,
    pub sequence: i64,
    pub topics: String,
    pub data: String,
}

/// What a stored event holds, as mathematical values.
pub struct DeriskEventView {
    pub id: Seq<char>,
    pub contract_id: Seq<char>,
    pub index: i32,
    pub sequence: i64,
    pub topics: Seq<char>,
    pub data: Seq<char>,
}

impl View for DeriskEvent {
    type V = DeriskEventView;

    open spec fn view(&self) -> DeriskEventView {
        DeriskEventView {
            id: self.id@,
            contract_id: self.contract_id@,
            index: self.index,
            sequence: self.sequence,
            topics: self.topics@,
            data: self.data@,
        }
    }
}

/// The JSON text that serde_json makes of the `ScVal` whose XDR encoding is
/// given, or `None` where the bytes are no such encoding, where the encoding
/// nests deeper than ingest's decoding depth limit, or where serialising fails.
pub uninterp spec fn scval_json_text(xdr: Seq<u8>) -> Option<Seq<char>>;

/// The JSON text that serde_json makes of the list of `ScVal`s whose XDR
/// encodings are given, or `None` where one of them is no such encoding or
/// nests deeper than ingest's decoding depth limit, or where serialising fails.
pub uninterp spec fn scval_list_json_text(xdrs: Seq<Seq<u8>>) -> Option<Seq<char>>;

/// The view of an optional string.
pub open spec fn opt_text(s: Option<String>) -> Option<Seq<char>> {
    match s {
        Some(t) => Some(t@),
        None => None,
    }
}

/// Decodes an `ScVal` from its XDR encoding (`ReadXdr::from_xdr` of
/// stellar-xdr, which fails where the bytes are not one whole value) under
/// the depth limit that ingest decodes ledgers with
/// (`ingest::DEFAULT_XDR_RW_DEPTH_LIMIT`), so that a too-deep encoding gives
/// `None` rather than exhausting the stack, and serialises it with
/// `serde_json::to_string`. The result is named `scval_json_text` of the
/// bytes; nothing more is claimed of its text.
#[verifier::external_body]
fn scval_json(xdr: &[u8]) -> (r: Option<String>)
    ensures
        opt_text(r) == scval_json_text(xdr@),
{
    let value = ScVal::from_xdr(xdr, Limits::depth(DEFAULT_XDR_RW_DEPTH_LIMIT)).ok()?;
    serde_json::to_string(&value).ok()
}

/// Decodes each `ScVal` from its XDR encoding (`ReadXdr::from_xdr`) under
/// the depth limit that ingest decodes ledgers with
/// (`ingest::DEFAULT_XDR_RW_DEPTH_LIMIT`), so that a too-deep encoding gives
/// `None` rather than exhausting the stack, gathers them in a `VecM` and
/// serialises that with `serde_json::to_string`. The result is named
/// `scval_list_json_text` of the encodings; nothing more is claimed of its
/// text.
#[verifier::external_body]
fn scval_list_json(xdrs: &Vec<Vec<u8>>) -> (r: Option<String>)
    ensures
        opt_text(r) == scval_list_json_text(xdrs.deep_view()),
{
    let mut values: Vec<ScVal> = Vec::new();
    for x in xdrs.iter() {
        values.push(ScVal::from_xdr(x, Limits::depth(DEFAULT_XDR_RW_DEPTH_LIMIT)).ok()?);
    }
    let values: VecM<ScVal> = values.try_into().ok()?;
    serde_json::to_string(&values).ok()
}

/// The identifier of the `index`-th stored event of ledger `sequence`:
/// `<sequence>_<index>` in decimal.
pub open spec fn event_id(sequence: int, index: nat) -> Seq<char> {
    int_decimal(sequence) + seq!['_'] + nat_decimal(index)
}

/// The identifier of the `index`-th stored event of ledger `sequence`.
pub fn generate_id(sequence: i64, index: usize) -> (id: String)
    ensures
        id@ == event_id(sequence as int, index as nat),
{
    let mut s = String::new();
    push_decimal_i64(&mut s, sequence);
    push_char(&mut s, '_');
    push_decimal_u64(&mut s, index as u64);
    assert(s@ =~= event_id(sequence as int, index as nat));
    s
}

/// The stored record of a contract event, as the `index`-th event of ledger
/// `sequence`: none for an event without a contract id, or whose topics or
/// data cannot be rendered as JSON.
pub open spec fn constructed_event(event: ContractEvent, sequence: u32, index: usize) -> Option<
    DeriskEventView,
> {
    match event.contract_id {
        None => None,
        Some(id) => match event.body {
            ContractEventBody::V0(body) => match (
                scval_list_json_text(body.topics.deep_view()),
                scval_json_text(body.data@),
            ) {
                (Some(topics), Some(data)) => Some(
                    DeriskEventView {
                        id: event_id(sequence as int, index as nat),
                        contract_id: hex_lower(id@),
                        index: index as i32,
                        sequence: sequence as i64,
                        topics,
                        data,
                    },
                ),
                _ => None,
            },
        },
    }
}

/// The view of an optional stored event.
pub open spec fn opt_event(e: Option<DeriskEvent>) -> Option<DeriskEventView> {
    match e {
        Some(d) => Some(d@),
        None => None,
    }
}

/// The record to store for a contract event seen as the `index`-th event of
/// ledger `sequence`; `None` for an event without a contract id.
pub fn construct_derisk_event(contract_event: &ContractEvent, sequence: u32, index: usize) -> (r:
    Option<DeriskEvent>)
    ensures
        opt_event(r) == constructed_event(*contract_event, sequence, index),
        contract_event.contract_id is None ==> r is None,
        r matches Some(e) ==> e.contract_id@.len() == 64,
{
    let contract_id = match &contract_event.contract_id {
        Some(id) => {
            let mut s = String::new();
            push_hex_lower(&mut s, id.as_slice());
            proof {
                lemma_hex_lower_len(id@);
                assert(s@ =~= hex_lower(id@));
            }
            s
        },
        None => return None,
    };
    let (topics, data) = match &contract_event.body {
        ContractEventBody::V0(body) => {
            let topics = scval_list_json(&body.topics);
            let data = scval_json(body.data.as_slice());
            match (topics, data) {
                (Some(t), Some(d)) => (t, d),
                _ => return None,
            }
        },
    };
    let index_i32: i32 = index as i32;
    Some(
        DeriskEvent {
            id: generate_id(sequence as i64, index),
            contract_id,
            index: index_i32,
            sequence: sequence as i64,
            topics,
            data,
        },
    )
}

/// The events that carry a contract id, in their order.
pub open spec fn with_contract_id(events: Seq<ContractEvent>) -> Seq<ContractEvent>
    decreases events.len(),
{
    if events.len() == 0 {
        Seq::empty()
    } else if events.last().contract_id is Some {
        with_contract_id(events.drop_last()).push(events.last())
    } else {
        with_contract_id(events.drop_last())
    }
}

/// The records of `events`, the `i`-th of them taken as the `i`-th event of
/// ledger `sequence`; those that give no record are skipped.
pub open spec fn records_of(events: Seq<ContractEvent>, sequence: u32) -> Seq<DeriskEventView>
    decreases events.len(),
{
    if events.len() == 0 {
        Seq::empty()
    } else {
        let before = records_of(events.drop_last(), sequence);
        match constructed_event(events.last(), sequence, (events.len() - 1) as usize) {
            Some(e) => before.push(e),
            None => before,
        }
    }
}

/// The records of a ledger's contract events: those without a contract id
/// are dropped, the others numbered from 0 in their order.
pub open spec fn derisk_records(events: Seq<ContractEvent>, sequence: u32) -> Seq<DeriskEventView> {
    records_of(with_contract_id(events), sequence)
}

/// The view of a list of stored events.
pub open spec fn events_view(events: Seq<DeriskEvent>) -> Seq<DeriskEventView> {
    events.map_values(|e: DeriskEvent| e@)
}

/// Keeping the events with a contract id keeps at most all of them.
pub proof fn lemma_with_contract_id_len(events: Seq<ContractEvent>)
    ensures
        with_contract_id(events).len() <= events.len(),
    decreases events.len(),
{
    if events.len() > 0 {
        lemma_with_contract_id_len(events.drop_last());
    }
}

/// The records to store for the contract events of ledger `sequence`: events
/// without a contract id are left out, the others are numbered from 0 in
/// their order.
pub fn derisk_events(events: &Vec<ContractEvent>, sequence: u32) -> (r: Vec<DeriskEvent>)
    ensures
        events_view(r@) == derisk_records(events@, sequence),
{
    let n = events.len();
    let mut out: Vec<DeriskEvent> = Vec::new();
    let mut k: usize = 0;
    let mut i: usize = 0;
    assert(events@.take(0) =~= Seq::<ContractEvent>::empty());
    assert(events_view(out@) =~= Seq::<DeriskEventView>::empty());
    while i < n
        invariant
            n == events@.len(),
            i <= n,
            k as nat == with_contract_id(events@.take(i as int)).len(),
            k <= i,
            events_view(out@) == records_of(with_contract_id(events@.take(i as int)), sequence),
        decreases n - i,
    {
        let ghost prefix = events@.take(i as int);
        let ghost next = events@.take(i + 1);
        proof {
            assert(next.drop_last() =~= prefix);
            assert(next.last() == events@[i as int]);
        }
        let e = &events[i];
        if e.contract_id.is_some() {
            let ghost filtered = with_contract_id(next);
            proof {
                assert(filtered == with_contract_id(prefix).push(events@[i as int]));
                assert(filtered.drop_last() =~= with_contract_id(prefix));
            }
            let made = construct_derisk_event(e, sequence, k);
            match made {
                Some(d) => {
                    let ghost before = out@;
                    out.push(d);
                    assert(events_view(out@) =~= events_view(before).push(d@));
                },
                None => {},
            }
            k = k + 1;
        } else {
            assert(with_contract_id(next) == with_contract_id(prefix));
        }
        i = i + 1;
    }
    assert(events@.take(n as int) =~= events@);
    out
}

} // verus!
