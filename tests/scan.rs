use eth_checksum::scan::{FetchOutcome, HistoryScan, ScanError, Transaction, DEFAULT_BLOCK_COUNT, is_target_address, transaction_matches};

const TARGET: &str = "0x9492c313f500319e87937F1dA86b7938757627AD";
const OTHER: &str = "0x5aAeb6053F3E94C9b9A09f33669435E7Ef1BeAed";

fn tx(hash: &str, from: &str, to: Option<&str>) -> Transaction {
    Transaction { hash: hash.to_string(), from: from.to_string(), to: to.map(|t| t.to_string()) }
}

/// Feeds the outcomes in order while the scan asks for heights; returns the
/// heights asked for and the result.
fn drive(mut scan: HistoryScan, outcomes: Vec<FetchOutcome>) -> (Vec<u64>, Result<Vec<Transaction>, ScanError>) {
    let mut asked = Vec::new();
    let mut outcomes = outcomes.into_iter();
    while let Some(h) = scan.next_height() {
        asked.push(h);
        let o = outcomes.next().expect("more heights asked for than outcomes given");
        match scan.advance(o) {
            Ok(s) => scan = s,
            Err(e) => return (asked, Err(e)),
        }
    }
    (asked, Ok(scan.into_transactions()))
}

#[test]
fn empty_range_reads_nothing() {
    let scan = HistoryScan::new(TARGET, Some(0), 105).unwrap();
    assert_eq!(scan.next_height(), None);
    let (asked, r) = drive(scan, vec![]);
    assert!(asked.is_empty());
    assert_eq!(r, Ok(vec![]));
}

#[test]
fn missing_blocks_are_not_errors() {
    let scan = HistoryScan::new(TARGET, Some(3), 105).unwrap();
    let (asked, r) = drive(scan, vec![FetchOutcome::NoBlock, FetchOutcome::NoBlock, FetchOutcome::NoBlock]);
    assert_eq!(asked, vec![105, 104, 103]);
    assert_eq!(r, Ok(vec![]));
}

#[test]
fn matches_in_block_order() {
    let a = tx("a", TARGET, Some(OTHER));
    let b = tx("b", OTHER, Some(OTHER));
    let c = tx("c", OTHER, Some(&TARGET.to_lowercase()));
    let scan = HistoryScan::new(TARGET, Some(3), 105).unwrap();
    let (asked, r) = drive(
        scan,
        vec![
            FetchOutcome::Block(vec![a.clone(), b]),
            FetchOutcome::Block(vec![c.clone()]),
            FetchOutcome::NoBlock,
        ],
    );
    assert_eq!(asked, vec![105, 104, 103]);
    assert_eq!(r, Ok(vec![a, c]));
}

#[test]
fn failure_aborts_with_height() {
    let scan = HistoryScan::new(TARGET, Some(3), 105).unwrap();
    let (asked, r) = drive(
        scan,
        vec![FetchOutcome::Block(vec![tx("a", TARGET, None)]), FetchOutcome::Failed, FetchOutcome::NoBlock],
    );
    assert_eq!(asked, vec![105, 104]);
    assert_eq!(r, Err(ScanError::ProviderError { height: 104 }));
}

#[test]
fn cancellation_stops_scan() {
    let scan = HistoryScan::new(TARGET, Some(3), 105).unwrap();
    let (asked, r) = drive(scan, vec![FetchOutcome::NoBlock, FetchOutcome::Cancelled]);
    assert_eq!(asked, vec![105, 104]);
    assert_eq!(r, Err(ScanError::Cancelled));
}

#[test]
fn scan_stops_at_height_zero() {
    let scan = HistoryScan::new(TARGET, Some(5), 1).unwrap();
    let (asked, r) = drive(scan, vec![FetchOutcome::NoBlock, FetchOutcome::Block(vec![tx("z", OTHER, Some(TARGET))])]);
    assert_eq!(asked, vec![1, 0]);
    assert_eq!(r, Ok(vec![tx("z", OTHER, Some(TARGET))]));
}

#[test]
fn default_block_count() {
    assert_eq!(DEFAULT_BLOCK_COUNT, 1000);
    let scan = HistoryScan::new(TARGET, None, 5000).unwrap();
    let (asked, r) = drive(scan, (0..1000).map(|_| FetchOutcome::NoBlock).collect());
    assert_eq!(asked.len(), 1000);
    assert_eq!(asked[999], 4001);
    assert_eq!(r, Ok(vec![]));
}

#[test]
fn invalid_target_is_refused() {
    assert_eq!(HistoryScan::new("0x1234", Some(3), 105).err(), Some(ScanError::InvalidAddressFormat));
}

#[test]
fn advance_without_pending_keeps_scan() {
    let scan = HistoryScan::new(TARGET, Some(0), 105).unwrap();
    let scan = scan.advance(FetchOutcome::Failed).unwrap();
    assert_eq!(scan.next_height(), None);
    assert_eq!(scan.into_transactions(), vec![]);
}

#[test]
fn address_matching_normalizes() {
    let target = eth_checksum::codec::eth_checksum_encode(TARGET).unwrap();
    assert!(is_target_address(&TARGET.to_uppercase().replace("0X", "0x"), &target));
    assert!(is_target_address(&TARGET[2..].to_lowercase(), &target));
    assert!(!is_target_address(OTHER, &target));
    assert!(!is_target_address("garbage", &target));
}

#[test]
fn contract_creation_matches_only_by_sender() {
    let target = eth_checksum::codec::eth_checksum_encode(TARGET).unwrap();
    assert!(transaction_matches(&tx("x", TARGET, None), &target));
    assert!(!transaction_matches(&tx("y", OTHER, None), &target));
    assert!(transaction_matches(&tx("w", OTHER, Some(TARGET)), &target));
}
