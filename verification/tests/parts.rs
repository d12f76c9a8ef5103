use tickbook::tick::TickData;
use tickbook::util::{extract_date, last_with_suffix, round};

#[test]
fn round_snaps_to_three_decimals() {
    assert_eq!(round(0), 0);
    assert_eq!(round(4), 0);
    assert_eq!(round(5), 10);
    assert_eq!(round(14), 10);
    assert_eq!(round(15), 20);
    assert_eq!(round(1_990_000), 1_990_000);
    assert_eq!(round(-4), 0);
    assert_eq!(round(-5), -10);
    assert_eq!(round(-15), -20);
}

#[test]
fn extract_date_finds_the_first_date() {
    assert_eq!(
        extract_date("BTCUSD2023-01-15.data.gz"),
        Some("2023-01-15".to_string())
    );
    assert_eq!(
        extract_date("dump_1999-12-31_and_2000-01-01.csv"),
        Some("1999-12-31".to_string())
    );
    assert_eq!(extract_date("no_date_here.csv"), None);
    assert_eq!(extract_date("2023-1-15.csv"), None);
}

#[test]
fn last_with_suffix_picks_the_last_match() {
    let names: Vec<Vec<u8>> = vec![
        b"a.data".to_vec(),
        b"b.csv".to_vec(),
        b"c.data".to_vec(),
    ];
    let sfx = b".data".to_vec();
    assert_eq!(last_with_suffix(&names, &sfx), Some(2));
    let sfx = b".csv".to_vec();
    assert_eq!(last_with_suffix(&names, &sfx), Some(1));
    let sfx = b".gz".to_vec();
    assert_eq!(last_with_suffix(&names, &sfx), None);
    let empty: Vec<Vec<u8>> = Vec::new();
    assert_eq!(last_with_suffix(&empty, &b".data".to_vec()), None);
}

#[test]
fn tick_volume_sums() {
    let t = TickData {
        ask_price: vec![(100_0000, 1_0000), (101_0000, 2_0000), (0, 0), (0, 0), (0, 0)],
        bid_price: vec![(99_0000, 3_0000), (98_0000, 4_0000), (0, 0), (0, 0), (0, 0)],
        mid_price: 99_5000,
        turnover: 0,
        volume: 0,
        buy_volume: 0,
        sell_volume: 0,
        snap_time: 1,
        ms: 0,
        last_price: 0,
        code: 0,
    };
    assert_eq!(t.ask_volume_all(), 3_0000);
    assert_eq!(t.bid_volume_all(), 7_0000);
    assert_eq!(t.open_interest(), 0);
}
