// Scenario tests for the replay core. Prices and sizes are four-decimal
// fixed point: 1_0000 stands for 1.0.

use tickbook::{Data, Depth, DepthData, Direction, OrderBook, OrderBookType, PriceVecArray, Trade};
use tickbook::merge_tick;
use tickbook::sort_data;

fn depth(kind: OrderBookType, ts: u64, ask: Vec<(i64, i64)>, bid: Vec<(i64, i64)>) -> Depth {
    Depth {
        topic: "orderBookL2_25.BTCUSD".to_string(),
        data_type: kind,
        timestamp: ts,
        data: DepthData {
            symbol: "BTCUSD".to_string(),
            ask: PriceVecArray(ask),
            bid: PriceVecArray(bid),
            seq: 0,
        },
        cts: ts,
    }
}

fn trade(ts: u64, dir: Direction, volume: i64, price: i64) -> Trade {
    Trade {
        timestamp: ts,
        symbol: "BTCUSD".to_string(),
        direction: dir,
        volume,
        price,
        tick_direction: "PlusTick".to_string(),
        match_id: "00000000-0000-0000-0000-000000000000".to_string(),
    }
}

#[test]
fn one_delta_emits_one_tick() {
    // Snapshot at t=1000 with ask [(100, 5)], bid [(99, 5)]; delta at
    // t=1100 with ask [(100, 3)]; interval 1.
    let events = vec![
        Data::Depth(depth(
            OrderBookType::Snapshot,
            1000,
            vec![(100_0000, 5_0000)],
            vec![(99_0000, 5_0000)],
        )),
        Data::Depth(depth(OrderBookType::Delta, 1100, vec![(100_0000, 3_0000)], vec![])),
    ];
    let ticks = merge_tick(events, 1);
    assert_eq!(ticks.len(), 1);
    let t = &ticks[0];
    assert_eq!(t.ask_price[0], (100_0000, 3_0000));
    assert_eq!(t.bid_price[0], (99_0000, 5_0000));
    assert_eq!(t.ask_price[1], (0, 0));
    // mid price: round(100 + 99) / 2 = 99.5
    assert_eq!(t.mid_price, 99_5000);
    assert_eq!(t.snap_time, 1);
    assert_eq!(t.ms, 100);
}

#[test]
fn trade_accumulates_and_reset_keeps_last_price() {
    // A Buy of size 2 at price 100 accumulates buy_volume 2.0,
    // volume 2.0, turnover 200.0, last_price 100; a reset zeroes the
    // accumulators but keeps the last price.
    let mut book = OrderBook::default();
    book.update_with_trade(&trade(1000, Direction::Buy, 2_0000, 100_0000));
    assert_eq!(book.buy_volume, 2_0000);
    assert_eq!(book.sell_volume, 0);
    assert_eq!(book.volume, 2_0000);
    // turnover carries eight decimal places: 200.0 is 200 * 10^8
    assert_eq!(book.turnover, 200_0000_0000u128);
    assert_eq!(book.last_price, 100_0000);
    book.reset();
    assert_eq!(book.buy_volume, 0);
    assert_eq!(book.volume, 0);
    assert_eq!(book.turnover, 0);
    assert_eq!(book.last_price, 100_0000);
}

#[test]
fn stepwise_rounding_swallows_dust() {
    // Thirty additions of 0.0001, each rounded to three decimals at once:
    // every step rounds 0.0001 down to zero, so nothing accumulates.
    // A single final rounding of 0.003 would have kept it.
    let mut book = OrderBook::default();
    for _ in 0..30 {
        book.update_with_trade(&trade(1000, Direction::Sell, 1, 100_0000));
    }
    assert_eq!(book.volume, 0);
    assert_eq!(book.sell_volume, 0);
    // turnover is not rounded: 30 * 100.0 * 0.0001 = 0.3
    assert_eq!(book.turnover, 30_000_000u128);
}

#[test]
fn rounding_ties_go_away_from_zero() {
    let mut book = OrderBook::default();
    book.update_with_trade(&trade(1000, Direction::Buy, 5, 100_0000));
    // 0.0005 rounds to 0.001
    assert_eq!(book.buy_volume, 10);
}

#[test]
fn everything_before_first_snapshot_is_discarded() {
    let events = vec![
        Data::Depth(depth(OrderBookType::Delta, 100, vec![(100_0000, 5_0000)], vec![])),
        Data::Trade(trade(200, Direction::Buy, 1_0000, 100_0000)),
        Data::Depth(depth(OrderBookType::Delta, 300, vec![(101_0000, 5_0000)], vec![])),
    ];
    let ticks = merge_tick(events, 1);
    assert!(ticks.is_empty());
}

#[test]
fn discarded_prefix_leaves_no_trace_after_seeding() {
    // The deltas and the trade before the snapshot leave no mark on the
    // first emitted tick.
    let events = vec![
        Data::Depth(depth(OrderBookType::Delta, 100, vec![(55_0000, 5_0000)], vec![])),
        Data::Trade(trade(200, Direction::Buy, 1_0000, 55_0000)),
        Data::Depth(depth(
            OrderBookType::Snapshot,
            1000,
            vec![(100_0000, 5_0000)],
            vec![(99_0000, 5_0000)],
        )),
        Data::Depth(depth(OrderBookType::Delta, 1100, vec![], vec![])),
    ];
    let ticks = merge_tick(events, 1);
    assert_eq!(ticks.len(), 1);
    assert_eq!(ticks[0].ask_price[0], (100_0000, 5_0000));
    assert_eq!(ticks[0].ask_price[1], (0, 0));
    assert_eq!(ticks[0].last_price, 0);
    assert_eq!(ticks[0].volume, 0);
}

#[test]
fn nonpositive_size_removes_the_level() {
    let mut book = OrderBook::default();
    book.update_with_depth(&depth(
        OrderBookType::Snapshot,
        1000,
        vec![(100_0000, 5_0000), (101_0000, 4_0000)],
        vec![],
    ));
    book.update_with_depth(&depth(OrderBookType::Delta, 1100, vec![(100_0000, 0)], vec![]));
    let five = book.get_five_lob(1);
    assert_eq!(five[0], (101_0000, 4_0000));
    assert_eq!(five[1], (0, 0));
    // removing an absent level is not an error
    book.update_with_depth(&depth(OrderBookType::Delta, 1200, vec![(100_0000, -1)], vec![]));
    let five = book.get_five_lob(1);
    assert_eq!(five[0], (101_0000, 4_0000));
}

#[test]
fn snapshot_fully_replaces_the_ladders() {
    let events = vec![
        Data::Depth(depth(
            OrderBookType::Snapshot,
            1000,
            vec![(100_0000, 5_0000)],
            vec![(99_0000, 5_0000)],
        )),
        Data::Depth(depth(
            OrderBookType::Snapshot,
            2000,
            vec![(200_0000, 7_0000)],
            vec![(199_0000, 7_0000)],
        )),
        Data::Depth(depth(OrderBookType::Delta, 2100, vec![], vec![])),
    ];
    let ticks = merge_tick(events, 1);
    assert_eq!(ticks.len(), 1);
    let t = &ticks[0];
    assert_eq!(t.ask_price[0], (200_0000, 7_0000));
    assert_eq!(t.ask_price[1], (0, 0));
    assert_eq!(t.bid_price[0], (199_0000, 7_0000));
    assert_eq!(t.bid_price[1], (0, 0));
}

#[test]
fn emission_cadence_counts_applied_deltas_from_zero() {
    // With interval 2, five applied deltas emit at counts 0, 2 and 4.
    let mut events = vec![Data::Depth(depth(
        OrderBookType::Snapshot,
        1000,
        vec![(100_0000, 5_0000)],
        vec![(99_0000, 5_0000)],
    ))];
    for k in 0..5u64 {
        events.push(Data::Depth(depth(OrderBookType::Delta, 1100 + k, vec![], vec![])));
    }
    let ticks = merge_tick(events, 2);
    assert_eq!(ticks.len(), 3);
}

#[test]
fn whole_intervals_emit_their_quotient() {
    // With interval 5, ten applied deltas emit exactly 10 / 5 = 2 ticks.
    let mut events = vec![Data::Depth(depth(
        OrderBookType::Snapshot,
        1000,
        vec![(100_0000, 5_0000)],
        vec![(99_0000, 5_0000)],
    ))];
    for k in 0..10u64 {
        events.push(Data::Depth(depth(OrderBookType::Delta, 1100 + k, vec![], vec![])));
    }
    let ticks = merge_tick(events, 5);
    assert_eq!(ticks.len(), 2);
}

#[test]
fn trades_and_snapshots_never_trigger_emission() {
    let events = vec![
        Data::Depth(depth(
            OrderBookType::Snapshot,
            1000,
            vec![(100_0000, 5_0000)],
            vec![(99_0000, 5_0000)],
        )),
        Data::Trade(trade(1050, Direction::Buy, 1_0000, 100_0000)),
        Data::Depth(depth(
            OrderBookType::Snapshot,
            1060,
            vec![(100_0000, 5_0000)],
            vec![(99_0000, 5_0000)],
        )),
        Data::Trade(trade(1070, Direction::Sell, 1_0000, 100_0000)),
    ];
    let ticks = merge_tick(events, 1);
    assert!(ticks.is_empty());
}

#[test]
fn emitted_tick_carries_accumulators_then_resets() {
    let events = vec![
        Data::Depth(depth(
            OrderBookType::Snapshot,
            1000,
            vec![(100_0000, 5_0000)],
            vec![(99_0000, 5_0000)],
        )),
        Data::Trade(trade(1010, Direction::Buy, 2_0000, 100_0000)),
        Data::Trade(trade(1020, Direction::Sell, 1_0000, 101_0000)),
        Data::Depth(depth(OrderBookType::Delta, 1100, vec![], vec![])),
        Data::Depth(depth(OrderBookType::Delta, 1200, vec![], vec![])),
    ];
    let ticks = merge_tick(events, 1);
    assert_eq!(ticks.len(), 2);
    let first = &ticks[0];
    assert_eq!(first.buy_volume, 2_0000);
    assert_eq!(first.sell_volume, 1_0000);
    assert_eq!(first.volume, 3_0000);
    // 2 * 100 + 1 * 101 = 301, in eight decimal places
    assert_eq!(first.turnover, 301_0000_0000u128);
    assert_eq!(first.last_price, 101_0000);
    // after the reset the next tick starts from zero, the last price stays
    let second = &ticks[1];
    assert_eq!(second.buy_volume, 0);
    assert_eq!(second.volume, 0);
    assert_eq!(second.turnover, 0);
    assert_eq!(second.last_price, 101_0000);
}

#[test]
fn mid_price_rounds_the_sum_before_halving() {
    // best ask 0.0004, best bid 0.0004: the sum 0.0008 rounds to 0.001
    // before halving, so the mid price is 0.0005, not 0.0004.
    let events = vec![
        Data::Depth(depth(OrderBookType::Snapshot, 1000, vec![(4, 5_0000)], vec![(4, 5_0000)])),
        Data::Depth(depth(OrderBookType::Delta, 1100, vec![], vec![])),
    ];
    let ticks = merge_tick(events, 1);
    assert_eq!(ticks.len(), 1);
    assert_eq!(ticks[0].mid_price, 5);
}

#[test]
fn bids_come_out_highest_first() {
    let mut book = OrderBook::default();
    book.update_with_depth(&depth(
        OrderBookType::Snapshot,
        1000,
        vec![],
        vec![(97_0000, 1_0000), (98_0000, 2_0000), (99_0000, 3_0000)],
    ));
    let five = book.get_five_lob(0);
    assert_eq!(five[0], (99_0000, 3_0000));
    assert_eq!(five[1], (98_0000, 2_0000));
    assert_eq!(five[2], (97_0000, 1_0000));
    assert_eq!(five[3], (0, 0));
    assert_eq!(five[4], (0, 0));
}

#[test]
fn sort_is_chronological_and_stable_on_ties() {
    // All depth events precede all trade events in the input; on a
    // timestamp tie the depth event must stay first.
    let events = vec![
        Data::Depth(depth(OrderBookType::Delta, 500, vec![], vec![])),
        Data::Depth(depth(OrderBookType::Delta, 700, vec![], vec![])),
        Data::Trade(trade(300, Direction::Buy, 1_0000, 100_0000)),
        Data::Trade(trade(500, Direction::Sell, 1_0000, 100_0000)),
    ];
    let sorted = sort_data(events);
    let stamps: Vec<u64> = sorted.iter().map(|e| e.timestamp()).collect();
    assert_eq!(stamps, vec![300, 500, 500, 700]);
    assert!(matches!(sorted[0], Data::Trade(_)));
    assert!(matches!(sorted[1], Data::Depth(_)));
    assert!(matches!(sorted[2], Data::Trade(_)));
    assert!(matches!(sorted[3], Data::Depth(_)));
}
