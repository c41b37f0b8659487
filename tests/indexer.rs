use bet_indexer::decoder::{bet_placed_event_key, parse_bet_placed_event, DecodeError, Profile, Slot};
use bet_indexer::field::{wide_integer_from_halves, FieldElement, WideUint};
use bet_indexer::ingest::{
    last_processed_block_column, last_processed_block_from, process_block, Cycle, RawEvent, Step,
};
use bet_indexer::store::{bet_row, EventTable, StoredBet};
use bet_indexer::text::{to_fixed_hex_string, to_fixed_point_decimal};

fn word(v: u128) -> Vec<u8> {
    let mut b = vec![0u8; 16];
    b.extend_from_slice(&v.to_be_bytes());
    b
}

fn fe(v: u128) -> FieldElement {
    FieldElement::from_be_bytes(word(v)).unwrap()
}

fn wide(v: u128) -> WideUint {
    WideUint::from_be_bytes(word(v)).unwrap()
}

fn decimal(w: &WideUint) -> String {
    to_fixed_point_decimal(w, 0)
}

fn payload(values: &[u128]) -> Vec<FieldElement> {
    values.iter().map(|v| fe(*v)).collect()
}

fn raw_event(values: &[u128], tx: u128) -> RawEvent {
    RawEvent { data: payload(values), transaction_hash: fe(tx), from_address: fe(0xabc) }
}

/// Drives one cycle over an in-memory chain: `events(block, contract)` gives the
/// page of a fetch, or `None` when the fetch fails. Returns the new checkpoint and
/// the fetches made.
fn run_cycle(
    checkpoint: u64,
    height: u64,
    n_contracts: usize,
    profile: &Profile,
    table: &mut EventTable,
    events: &dyn Fn(u64, usize) -> Option<Vec<RawEvent>>,
) -> (u64, Vec<(u64, usize)>) {
    let mut cycle = Cycle::start(checkpoint, height, n_contracts);
    let mut fetches = Vec::new();
    loop {
        match cycle.next_step() {
            Step::Idle => return (checkpoint, fetches),
            Step::Commit { checkpoint } => return (checkpoint, fetches),
            Step::Fetch { block, contract } => {
                fetches.push((block, contract));
                match events(block, contract) {
                    Some(page) => {
                        for item in process_block(&page, block, profile) {
                            if let Ok(stored) = item {
                                table.upsert(stored);
                            }
                        }
                    }
                    None => cycle.record_failure(),
                }
                cycle.advance();
            }
        }
    }
}

#[test]
fn wide_integer_round_trip() {
    let high = fe(0x1234_5678_9abc_def0_1122_3344_5566_7788);
    let low = fe(u128::MAX);
    let w = wide_integer_from_halves(&high, &low);
    assert_eq!(w.high_half().to_be_bytes(), high.to_be_bytes());
    assert_eq!(w.low_half().to_be_bytes(), low.to_be_bytes());
    let mut expected = 0x1234_5678_9abc_def0_1122_3344_5566_7788u128.to_be_bytes().to_vec();
    expected.extend_from_slice(&u128::MAX.to_be_bytes());
    assert_eq!(w.to_be_bytes(), expected);
}

#[test]
fn wide_integer_value_in_decimal() {
    let w = wide_integer_from_halves(&fe(1), &fe(0));
    assert_eq!(decimal(&w), "340282366920938463463374607431768211456");
    let w = wide_integer_from_halves(&fe(0), &fe(1000));
    assert_eq!(decimal(&w), "1000");
}

#[test]
fn scaling_one_token_is_exact() {
    let w = wide(1_000_000_000_000_000_000);
    assert_eq!(to_fixed_point_decimal(&w, 18), "1.000000000000000000");
}

#[test]
fn scaling_pads_small_values() {
    assert_eq!(to_fixed_point_decimal(&wide(1000), 18), "0.000000000000001000");
    assert_eq!(to_fixed_point_decimal(&wide(0), 2), "0.00");
    assert_eq!(to_fixed_point_decimal(&wide(12345), 2), "123.45");
    assert_eq!(to_fixed_point_decimal(&wide(12345), 5), "0.12345");
    assert_eq!(to_fixed_point_decimal(&wide(0), 0), "0");
}

#[test]
fn scaling_the_largest_value() {
    let w = WideUint::from_be_bytes(vec![0xffu8; 32]).unwrap();
    assert_eq!(
        to_fixed_point_decimal(&w, 18),
        "115792089237316195423570985008687907853269984665640564039457.584007913129639935"
    );
}

#[test]
fn fixed_hex_text() {
    let s = to_fixed_hex_string(&fe(0xff));
    assert_eq!(s.len(), 66);
    assert_eq!(s, format!("0x{}ff", "0".repeat(62)));
    let s = to_fixed_hex_string(&fe(0x1234_abcd));
    assert!(s.ends_with("1234abcd"));
}

#[test]
fn from_bytes_needs_thirty_two() {
    assert!(FieldElement::from_be_bytes(vec![0u8; 31]).is_none());
    assert!(FieldElement::from_be_bytes(vec![0u8; 33]).is_none());
    assert!(WideUint::from_be_bytes(vec![0u8; 32]).is_some());
}

#[test]
fn booleans_test_against_zero() {
    assert!(!fe(0).is_nonzero());
    assert!(fe(1).is_nonzero());
    let mut top = vec![0u8; 32];
    top[0] = 1;
    assert!(FieldElement::from_be_bytes(top).unwrap().is_nonzero());
}

#[test]
fn event_key_is_the_chain_selector() {
    let expected = starknet::core::utils::get_selector_from_name("BetPlace").unwrap();
    assert_eq!(bet_placed_event_key().to_be_bytes(), expected.to_bytes_be().to_vec());
    assert!(bet_placed_event_key().is_nonzero());
}

#[test]
fn decode_v1_layout() {
    let data = payload(&[1, 1000, 9, 0, 500, 9, 30, 9, 70, 9, 0xbeef]);
    let e = parse_bet_placed_event(&data, &Profile::v1()).unwrap();
    assert!(e.direction);
    assert!(!e.has_claimed);
    assert_eq!(decimal(&e.amount), "1000");
    assert_eq!(decimal(&e.claimable_amount), "500");
    assert_eq!(decimal(&e.no_probability), "30");
    assert_eq!(decimal(&e.yes_probability), "70");
    assert_eq!(e.user_address.unwrap().to_be_bytes(), word(0xbeef));
}

#[test]
fn decode_v2_layout() {
    let data = payload(&[1, 0, 1000, 0, 500, 0, 30, 0, 70, 0]);
    let e = parse_bet_placed_event(&data, &Profile::v2()).unwrap();
    assert!(e.direction);
    assert!(!e.has_claimed);
    assert_eq!(decimal(&e.amount), "1000");
    assert_eq!(decimal(&e.claimable_amount), "500");
    assert_eq!(decimal(&e.no_probability), "30");
    assert_eq!(decimal(&e.yes_probability), "70");
    assert!(e.user_address.is_none());
}

#[test]
fn decode_v2_high_half() {
    let data = payload(&[0, 7, 5, 1, 0, 0, 0, 0, 0, 0]);
    let e = parse_bet_placed_event(&data, &Profile::v2()).unwrap();
    assert!(!e.direction);
    assert!(e.has_claimed);
    assert_eq!(decimal(&e.amount), "340282366920938463463374607431768211461");
}

#[test]
fn decoder_boundary_v1() {
    let p = Profile::v1();
    let short = payload(&[1; 10]);
    assert!(matches!(parse_bet_placed_event(&short, &p), Err(DecodeError::TooShort)));
    let exact = payload(&[1; 11]);
    assert!(parse_bet_placed_event(&exact, &p).is_ok());
    assert!(matches!(parse_bet_placed_event(&[], &p), Err(DecodeError::TooShort)));
}

#[test]
fn decoder_boundary_v2() {
    let p = Profile::v2();
    let short = payload(&[1; 9]);
    assert!(matches!(parse_bet_placed_event(&short, &p), Err(DecodeError::TooShort)));
    let exact = payload(&[1; 10]);
    assert!(parse_bet_placed_event(&exact, &p).is_ok());
    assert_eq!(p.top_index(), 9);
    assert_eq!(Profile::v1().top_index(), 10);
}

#[test]
fn decoder_rejects_oversized_half() {
    let mut data = payload(&[1, 0, 1000, 0, 500, 0, 30, 0, 70, 0]);
    let mut big = vec![0u8; 32];
    big[15] = 1;
    data[3] = FieldElement::from_be_bytes(big).unwrap();
    assert!(matches!(
        parse_bet_placed_event(&data, &Profile::v2()),
        Err(DecodeError::HalfOutOfRange)
    ));
}

#[test]
fn custom_profile_reads_its_own_offsets() {
    let p = Profile {
        direction: 5,
        amount: Slot::Single(0),
        has_claimed: 4,
        claimable_amount: Slot::Single(1),
        no_probability: Slot::Single(2),
        yes_probability: Slot::Single(3),
        user_address: None,
        amount_scale: None,
        odds_scale: None,
    };
    let e = parse_bet_placed_event(&payload(&[11, 22, 33, 44, 1, 0]), &p).unwrap();
    assert!(!e.direction);
    assert!(e.has_claimed);
    assert_eq!(decimal(&e.amount), "11");
    assert_eq!(decimal(&e.yes_probability), "44");
    assert!(parse_bet_placed_event(&payload(&[11, 22, 33, 44, 1]), &p).is_err());
}

#[test]
fn upsert_same_key_keeps_first_write() {
    let p = Profile::v2();
    let first = process_block(&[raw_event(&[1, 0, 1000, 0, 500, 0, 30, 0, 70, 0], 0x77)], 3, &p);
    let second = process_block(&[raw_event(&[0, 1, 2000, 0, 0, 0, 1, 0, 2, 0], 0x77)], 3, &p);
    let mut table = EventTable::new();
    assert!(table.upsert(first.into_iter().next().unwrap().unwrap()));
    assert!(!table.upsert(second.into_iter().next().unwrap().unwrap()));
    assert_eq!(table.len(), 1);
    let row = table.get(0);
    assert!(row.event.direction);
    assert_eq!(decimal(&row.event.amount), "1000");
}

#[test]
fn upsert_distinct_keys_adds_rows() {
    let p = Profile::v2();
    let data = [1, 0, 1000, 0, 500, 0, 30, 0, 70, 0];
    let page = [raw_event(&data, 0x1), raw_event(&data, 0x2)];
    let mut table = EventTable::new();
    for item in process_block(&page, 3, &p) {
        assert!(table.upsert(item.unwrap()));
    }
    for item in process_block(&page, 4, &p) {
        assert!(table.upsert(item.unwrap()));
    }
    assert_eq!(table.len(), 4);
    assert_eq!(table.find(4, &fe(0x2)), Some(3));
    assert_eq!(table.find(5, &fe(0x2)), None);
}

#[test]
fn first_run_scenario() {
    let p = Profile::v2();
    let mut table = EventTable::new();
    let events = |block: u64, _contract: usize| {
        if block == 3 {
            Some(vec![raw_event(&[1, 0, 1000, 0, 500, 0, 30, 0, 70, 0], 0x99)])
        } else {
            Some(vec![])
        }
    };
    let (checkpoint, fetches) = run_cycle(0, 5, 1, &p, &mut table, &events);
    assert_eq!(checkpoint, 5);
    assert_eq!(fetches, vec![(1, 0), (2, 0), (3, 0), (4, 0), (5, 0)]);
    assert_eq!(table.len(), 1);
    let stored: &StoredBet = table.get(0);
    assert_eq!(stored.block_number, 3);
    let row = bet_row(stored, &p).unwrap();
    assert_eq!(row.bet, 1);
    assert_eq!(row.amount, "0.000000000000001000");
    assert_eq!(row.claimable_amount, "0.000000000000000500");
    assert!(!row.has_claimed);
    assert!(!row.is_claimable);
    assert_eq!(row.no_probability, "30");
    assert_eq!(row.yes_probability, "70");
    assert_eq!(row.block_number, 3);
    assert_eq!(row.user_address, None);
    assert_eq!(row.transaction_hash, format!("0x{}99", "0".repeat(62)));
    assert_eq!(row.event_address, format!("0x{}abc", "0".repeat(61)));
}

#[test]
fn no_new_blocks_scenario() {
    let p = Profile::v2();
    let mut table = EventTable::new();
    let events = |_b: u64, _c: usize| -> Option<Vec<RawEvent>> { panic!("no fetch expected") };
    let (checkpoint, fetches) = run_cycle(5, 5, 3, &p, &mut table, &events);
    assert_eq!(checkpoint, 5);
    assert!(fetches.is_empty());
    assert_eq!(Cycle::start(7, 5, 3).next_step(), Step::Idle);
}

#[test]
fn malformed_event_scenario() {
    let p = Profile::v2();
    let mut table = EventTable::new();
    let events = |block: u64, _c: usize| {
        if block == 3 {
            Some(vec![raw_event(&[1, 0, 1000, 0, 500, 0, 30, 0, 70], 0x99)])
        } else {
            Some(vec![])
        }
    };
    let (checkpoint, _) = run_cycle(0, 5, 1, &p, &mut table, &events);
    assert_eq!(checkpoint, 5);
    assert_eq!(table.len(), 0);
}

#[test]
fn failed_fetch_holds_checkpoint_below_it() {
    let p = Profile::v2();
    let mut table = EventTable::new();
    let events = |block: u64, _c: usize| if block == 2 || block == 4 { None } else { Some(vec![]) };
    let (checkpoint, fetches) = run_cycle(0, 5, 1, &p, &mut table, &events);
    assert_eq!(checkpoint, 1);
    assert_eq!(fetches.len(), 5);
    let first = |block: u64, _c: usize| if block == 11 { None } else { Some(vec![]) };
    let (checkpoint, _) = run_cycle(10, 12, 2, &p, &mut table, &first);
    assert_eq!(checkpoint, 10);
}

#[test]
fn profiles_by_version() {
    let v1 = Profile::for_version(1).unwrap();
    assert_eq!(v1, Profile::v1());
    assert_eq!(v1.direction, 0);
    assert_eq!(v1.amount, Slot::Single(1));
    assert_eq!(v1.has_claimed, 3);
    assert_eq!(v1.user_address, Some(10));
    let v2 = Profile::for_version(2).unwrap();
    assert_eq!(v2, Profile::v2());
    assert_eq!(v2.amount, Slot::Wide { low: 2, high: 3 });
    assert_eq!(v2.yes_probability, Slot::Wide { low: 8, high: 9 });
    assert_eq!(v2.amount_scale, Some(18));
    assert_eq!(v2.odds_scale, None);
    assert!(Profile::for_version(0).is_none());
    assert!(Profile::for_version(3).is_none());
}

#[test]
fn cycle_visits_every_contract_per_block() {
    let mut table = EventTable::new();
    let events = |_b: u64, _c: usize| Some(vec![]);
    let (checkpoint, fetches) = run_cycle(10, 12, 3, &Profile::v1(), &mut table, &events);
    assert_eq!(checkpoint, 12);
    assert_eq!(fetches, vec![(11, 0), (11, 1), (11, 2), (12, 0), (12, 1), (12, 2)]);
    let (checkpoint, fetches) = run_cycle(10, 12, 0, &Profile::v1(), &mut table, &events);
    assert_eq!(checkpoint, 12);
    assert!(fetches.is_empty());
}

#[test]
fn checkpoint_never_decreases() {
    let mut table = EventTable::new();
    let events = |_b: u64, _c: usize| Some(vec![]);
    let mut checkpoint = 0u64;
    let mut seen = Vec::new();
    for height in [3u64, 2, 7, 7, 1, 9] {
        let (next, _) = run_cycle(checkpoint, height, 1, &Profile::v2(), &mut table, &events);
        assert!(next >= checkpoint);
        seen.push(next);
        checkpoint = next;
    }
    assert_eq!(seen, vec![3, 3, 7, 7, 7, 9]);
}

#[test]
fn checkpoint_columns() {
    assert_eq!(last_processed_block_from(None), Some(0));
    assert_eq!(last_processed_block_from(Some(42)), Some(42));
    assert_eq!(last_processed_block_from(Some(-1)), None);
    assert_eq!(last_processed_block_column(42), Some(42));
    assert_eq!(last_processed_block_column(u64::MAX), None);
    assert_eq!(last_processed_block_column(i64::MAX as u64), Some(i64::MAX));
}

#[test]
fn bet_row_v1_with_address() {
    let p = Profile::v1();
    let page = [raw_event(&[0, 2_000_000_000_000_000_000, 0, 1, 0, 0, 30, 0, 70, 0, 0xbeef], 0x5)];
    let stored = process_block(&page, 8, &p).into_iter().next().unwrap().unwrap();
    let row = bet_row(&stored, &p).unwrap();
    assert_eq!(row.bet, 0);
    assert_eq!(row.amount, "2.000000000000000000");
    assert!(row.has_claimed);
    assert_eq!(row.claimable_amount, "0.000000000000000000");
    assert_eq!(row.user_address, Some(format!("0x{}beef", "0".repeat(60))));
}

#[test]
fn bet_row_block_out_of_range() {
    let p = Profile::v2();
    let page = [raw_event(&[1, 0, 1000, 0, 500, 0, 30, 0, 70, 0], 0x5)];
    let stored = process_block(&page, u64::MAX, &p).into_iter().next().unwrap().unwrap();
    assert!(bet_row(&stored, &p).is_none());
}
