use derisk_stellar_events::db::{batch_bounds, connection_string, db_url, BATCH_SIZE};
use derisk_stellar_events::event::StellarNetwork;
use derisk_stellar_events::streaming::{EventStream, LOOP_COUNT_RESET};

#[test]
fn connection_strings() {
    assert_eq!(
        connection_string("user", "pw", "localhost", "5432", &StellarNetwork::Futurenet),
        "postgres://user:pw@localhost:5432/stellar-futurenet"
    );
    assert_eq!(
        connection_string("a", "b", "db.example", "6000", &StellarNetwork::Mainnet),
        "postgres://a:b@db.example:6000/stellar-mainnet"
    );
    assert_eq!(
        connection_string("", "", "", "", &StellarNetwork::Testnet),
        "postgres://:@:/stellar-testnet"
    );
    assert_eq!(db_url("u", "p", "h"), "postgres://u:p@h/stellar-futurenet");
}

#[test]
fn batches_of_five_hundred() {
    assert_eq!(BATCH_SIZE, 500);
    assert_eq!(batch_bounds(0, BATCH_SIZE), vec![]);
    assert_eq!(batch_bounds(1, BATCH_SIZE), vec![(0, 1)]);
    assert_eq!(batch_bounds(500, BATCH_SIZE), vec![(0, 500)]);
    assert_eq!(batch_bounds(1001, BATCH_SIZE), vec![(0, 500), (500, 1000), (1000, 1001)]);
}

#[test]
fn batches_match_slice_chunks() {
    for len in 0..40usize {
        for size in 1..9usize {
            let v: Vec<usize> = (0..len).collect();
            let expected: Vec<(usize, usize)> = v
                .chunks(size)
                .map(|c| (c[0], c[c.len() - 1] + 1))
                .collect();
            assert_eq!(batch_bounds(len, size), expected);
        }
    }
}

#[test]
fn batches_near_the_top_of_usize() {
    let b = batch_bounds(usize::MAX, usize::MAX - 1);
    assert_eq!(b, vec![(0, usize::MAX - 1), (usize::MAX - 1, usize::MAX)]);
}

#[test]
fn stream_reports_every_hundred_ledgers() {
    assert_eq!(LOOP_COUNT_RESET, 100);
    let mut s = EventStream::new();
    let mut reports = Vec::new();
    for n in 1..=250usize {
        if let Some(r) = s.ledger_stored(n % 3) {
            reports.push((n, r.events, r.ledgers));
        }
    }
    let sum = |a: usize, b: usize| (a..=b).map(|n| n % 3).sum::<usize>();
    assert_eq!(reports, vec![(100, sum(1, 100), 100), (200, sum(101, 200), 100)]);
    assert_eq!(s.loop_count, 50);
    assert_eq!(s.event_count, sum(201, 250));
}

#[test]
fn stream_counts_before_a_report() {
    let mut s = EventStream::new();
    assert!(s.ledger_stored(7).is_none());
    assert!(s.ledger_stored(0).is_none());
    assert_eq!(s.event_count, 7);
    assert_eq!(s.loop_count, 2);
}
