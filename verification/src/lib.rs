use vstd::prelude::*;

pub mod laws;
pub mod model;
pub mod tick;
pub mod util;

verus! {

use crate::model::{
    BookModel, PRICE_BOUND, SIZE_BOUND, TickModel, book_init, delta_step, depth_levels_step, five_of,
    ladder_apply, ladder_set, ladder_wf, lemma_ladder_apply_push, lemma_ladder_pos_is,
    lemma_ladder_set_wf, lemma_round_milli_bounds, lemma_run_fold_step, reset_step, round_milli,
    run_fold, tick_of, trade_step, valid_depth, valid_event, valid_events, valid_level,
    valid_levels, valid_trade,
};
use crate::tick::TickData;
use crate::util::round;

/// The kind of a depth event: a full book image or an incremental change.
#[derive(Clone, Copy)]
pub enum OrderBookType {
    Delta,
    Snapshot,
}

/// The aggressor side of a trade.
#[derive(Clone, Copy)]
pub enum Direction {
    Buy,
    Sell,
}

/// One side of a depth event: a list of (price, size) levels in
/// four-decimal fixed point.
pub struct PriceVecArray(pub Vec<(i64, i64)>);

/// The payload of a depth event.
pub struct DepthData {
    pub symbol: String,
    pub ask: PriceVecArray,
    pub bid: PriceVecArray,
    pub seq: u64,
}

/// A depth event: a snapshot or delta of the visible book, stamped in
/// integer milliseconds.
pub struct Depth {
    pub topic: String,
    pub data_type: OrderBookType,
    pub timestamp: u64,
    pub data: DepthData,
    pub cts: u64,
}

/// A trade event. The timestamp is in integer milliseconds, normalized
/// once at ingestion; price and size are four-decimal fixed point.
pub struct Trade {
    pub timestamp: u64,
    pub symbol: String,
    pub direction: Direction,
    pub volume: i64,
    pub price: i64,
    pub tick_direction: String,
    pub match_id: String,
}

/// An event of either log, with a single ordering key.
pub enum Data {
    Depth(Depth),
    Trade(Trade),
}

pub open spec fn ts_of(e: Data) -> u64 {
    match e {
        Data::Depth(d) => d.timestamp,
        Data::Trade(t) => t.timestamp,
    }
}

impl Data {
    /// The single sort key shared by both event kinds.
    pub fn timestamp(&self) -> (r: u64)
        ensures
            r == ts_of(*self),
    {
        match self {
            Data::Depth(d) => d.timestamp,
            Data::Trade(t) => t.timestamp,
        }
    }
}

pub open spec fn sorted_by_ts(s: Seq<Data>) -> bool {
    forall|i: int, j: int| 0 <= i < j < s.len() ==> ts_of(#[trigger] s[i]) <= ts_of(#[trigger] s[j])
}

/// The events of one timestamp, in order of appearance.
pub open spec fn ts_filter(s: Seq<Data>, t: u64) -> Seq<Data> {
    s.filter(|e: Data| ts_of(e) == t)
}

/// Two event sequences hold the same events of every timestamp in the
/// same relative order: one is a stable rearrangement of the other.
pub open spec fn same_ts_groups(a: Seq<Data>, b: Seq<Data>) -> bool {
    forall|t: u64| #[trigger] ts_filter(a, t) == ts_filter(b, t)
}

/// Relies on Vec::sort_by_key from std: sorts in place by the key and is
/// documented as stable, so events of equal timestamp keep their order.
#[verifier::external_body]
fn sort_by_timestamp(data: &mut Vec<Data>)
    ensures
        sorted_by_ts(final(data)@),
        same_ts_groups(old(data)@, final(data)@),
{
    data.sort_by_key(|e| e.timestamp())
}

/// Order the merged event collection non-decreasing by timestamp with a
/// stable sort, so that on a tie the earlier source keeps precedence.
pub fn sort_data(data: Vec<Data>) -> (r: Vec<Data>)
    ensures
        sorted_by_ts(r@),
        same_ts_groups(data@, r@),
{
    let mut d = data;
    sort_by_timestamp(&mut d);
    d
}

/// The replay target: the two price ladders, the running trade
/// accumulators, and whether a snapshot has seeded the book yet.
pub struct OrderBook {
    pub ask: Vec<(i64, i64)>,
    pub bid: Vec<(i64, i64)>,
    pub buy_volume: u128,
    pub sell_volume: u128,
    pub init: bool,
    pub timestamp: u64,
    pub turnover: u128,
    pub volume: u128,
    pub symbol: u64,
    pub last_price: i64,
}

impl View for OrderBook {
    type V = BookModel;

    open spec fn view(&self) -> BookModel {
        BookModel {
            asks: self.ask@,
            bids: self.bid@,
            buy_volume: self.buy_volume as int,
            sell_volume: self.sell_volume as int,
            volume: self.volume as int,
            turnover: self.turnover as int,
            init: self.init,
            timestamp: self.timestamp as int,
            symbol: self.symbol as int,
            last_price: self.last_price as int,
        }
    }
}

impl Default for OrderBook {
    fn default() -> (r: Self)
        ensures
            r@ == book_init(),
            r.wf(),
    {
        let book = OrderBook {
            ask: Vec::new(),
            bid: Vec::new(),
            buy_volume: 0,
            sell_volume: 0,
            init: false,
            timestamp: 0,
            turnover: 0,
            volume: 0,
            symbol: 0,
            last_price: 0,
        };
        proof {
            assert(book@ =~= book_init());
        }
        book
    }
}

/// One level update against a sorted ladder, in place.
fn apply_level(lv: &mut Vec<(i64, i64)>, p: i64, sz: i64)
    requires
        ladder_wf(old(lv)@),
        0 <= p <= PRICE_BOUND,
        sz <= SIZE_BOUND,
    ensures
        final(lv)@ == ladder_set(old(lv)@, p, sz),
        ladder_wf(final(lv)@),
{
    proof {
        lemma_ladder_set_wf(old(lv)@, p, sz);
    }
    let mut k: usize = 0;
    while k < lv.len() && lv[k].0 < p
        invariant
            0 <= k <= lv@.len(),
            lv@ == old(lv)@,
            forall|j: int| 0 <= j < k ==> (#[trigger] lv@[j]).0 < p,
        decreases lv@.len() - k,
    {
        k += 1;
    }
    proof {
        lemma_ladder_pos_is(lv@, p, k as int);
    }
    if sz > 0 {
        if k < lv.len() && lv[k].0 == p {
            lv.remove(k);
            lv.insert(k, (p, sz));
            proof {
                assert(lv@ =~= old(lv)@.update(k as int, (p, sz)));
            }
        } else {
            lv.insert(k, (p, sz));
            proof {
                assert(lv@ =~= old(lv)@.subrange(0, k as int) + seq![(p, sz)] + old(
                    lv,
                )@.subrange(k as int, old(lv)@.len() as int));
            }
        }
    } else {
        if k < lv.len() && lv[k].0 == p {
            lv.remove(k);
            proof {
                assert(lv@ =~= old(lv)@.subrange(0, k as int) + old(lv)@.subrange(
                    k as int + 1,
                    old(lv)@.len() as int,
                ));
            }
        }
    }
}

/// The three-decimal rounding step of the trade accumulators, on the
/// non-negative fixed-point accumulator.
fn round_accum(v: u128) -> (r: u128)
    requires
        v + 5 <= u128::MAX,
    ensures
        r as int == round_milli(v as int),
{
    ((v + 5) / 10) * 10
}

impl OrderBook {
    /// Every ladder well formed, the last trade price in range.
    pub open spec fn wf(&self) -> bool {
        ladder_wf(self.ask@) && ladder_wf(self.bid@) && 0 <= self.last_price <= PRICE_BOUND
    }

    /// Apply the level updates of a depth event to both ladders: positive
    /// sizes upsert, other sizes remove. Nothing else changes.
    pub fn update_with_depth(&mut self, depth: &Depth)
        requires
            old(self).wf(),
            valid_depth(*depth),
        ensures
            final(self)@ == depth_levels_step(old(self)@, *depth),
            final(self).wf(),
    {
        let ghost pre = *self;
        let ghost asks = depth.data.ask.0@;
        let ghost bids = depth.data.bid.0@;
        proof {
            assert(asks.take(0int) =~= Seq::<(i64, i64)>::empty());
            assert(ladder_apply(pre.ask@, Seq::<(i64, i64)>::empty()) == pre.ask@);
        }
        let mut i: usize = 0;
        while i < depth.data.ask.0.len()
            invariant
                0 <= i <= asks.len(),
                asks == depth.data.ask.0@,
                valid_levels(asks),
                ladder_wf(self.ask@),
                self.ask@ == ladder_apply(pre.ask@, asks.take(i as int)),
                ladder_wf(pre.ask@),
                self.bid == pre.bid,
                self.buy_volume == pre.buy_volume,
                self.sell_volume == pre.sell_volume,
                self.volume == pre.volume,
                self.turnover == pre.turnover,
                self.init == pre.init,
                self.timestamp == pre.timestamp,
                self.symbol == pre.symbol,
                self.last_price == pre.last_price,
            decreases asks.len() - i,
        {
            let (p, sz) = depth.data.ask.0[i];
            proof {
                assert(valid_level(asks[i as int]));
                lemma_ladder_apply_push(pre.ask@, asks.take(i as int), asks[i as int]);
                assert(asks.take(i as int).push(asks[i as int]) =~= asks.take(i as int + 1));
            }
            apply_level(&mut self.ask, p, sz);
            i += 1;
        }
        proof {
            assert(asks.take(asks.len() as int) =~= asks);
            assert(bids.take(0int) =~= Seq::<(i64, i64)>::empty());
            assert(ladder_apply(pre.bid@, Seq::<(i64, i64)>::empty()) == pre.bid@);
        }
        let ghost ask_done = self.ask@;
        let mut i2: usize = 0;
        while i2 < depth.data.bid.0.len()
            invariant
                0 <= i2 <= bids.len(),
                bids == depth.data.bid.0@,
                valid_levels(bids),
                ladder_wf(self.bid@),
                self.bid@ == ladder_apply(pre.bid@, bids.take(i2 as int)),
                ladder_wf(pre.bid@),
                self.ask@ == ask_done,
                ladder_wf(ask_done),
                self.buy_volume == pre.buy_volume,
                self.sell_volume == pre.sell_volume,
                self.volume == pre.volume,
                self.turnover == pre.turnover,
                self.init == pre.init,
                self.timestamp == pre.timestamp,
                self.symbol == pre.symbol,
                self.last_price == pre.last_price,
            decreases bids.len() - i2,
        {
            let (p, sz) = depth.data.bid.0[i2];
            proof {
                assert(valid_level(bids[i2 as int]));
                lemma_ladder_apply_push(pre.bid@, bids.take(i2 as int), bids[i2 as int]);
                assert(bids.take(i2 as int).push(bids[i2 as int]) =~= bids.take(i2 as int + 1));
            }
            apply_level(&mut self.bid, p, sz);
            i2 += 1;
        }
        proof {
            assert(bids.take(bids.len() as int) =~= bids);
            assert(self@ =~= depth_levels_step(pre@, *depth));
        }
    }

    /// Accumulate one trade: the side volume and the total volume with the
    /// stepwise three-decimal rounding, turnover exactly, the last price.
    pub fn update_with_trade(&mut self, trade: &Trade)
        requires
            old(self).wf(),
            valid_trade(*trade),
            old(self)@.volume + trade.volume + 5 <= u128::MAX,
            old(self)@.buy_volume + trade.volume + 5 <= u128::MAX,
            old(self)@.sell_volume + trade.volume + 5 <= u128::MAX,
            old(self)@.turnover + trade.price * trade.volume <= u128::MAX,
        ensures
            final(self)@ == trade_step(old(self)@, *trade),
            final(self).wf(),
    {
        let vol = trade.volume as u128;
        match trade.direction {
            Direction::Buy => {
                self.buy_volume = round_accum(self.buy_volume + vol);
            },
            Direction::Sell => {
                self.sell_volume = round_accum(self.sell_volume + vol);
            },
        }
        self.volume = round_accum(self.volume + vol);
        self.turnover = self.turnover + (trade.price as u128) * (trade.volume as u128);
        self.last_price = trade.price;
        proof {
            assert(self@ =~= trade_step(old(self)@, *trade));
        }
    }

    /// The best five levels of one side, in ascending price order for the
    /// asks and descending for the bids, padded with empty levels.
    pub fn get_five_lob(&self, direction: u8) -> (r: Vec<(i64, i64)>)
        requires
            self.wf(),
        ensures
            r@.len() == 5,
            direction == 1 ==> r@ == five_of(self@.asks),
            direction != 1 ==> r@ == five_of(self@.bids.reverse()),
    {
        let mut five: Vec<(i64, i64)> = Vec::new();
        if direction == 1 {
            let mut i: usize = 0;
            while i < 5
                invariant
                    0 <= i <= 5,
                    five@.len() == i,
                    forall|j: int| 0 <= j < i ==> five@[j] == five_of(self@.asks)[j],
                decreases 5 - i,
            {
                if i < self.ask.len() {
                    five.push(self.ask[i]);
                } else {
                    five.push((0, 0));
                }
                i += 1;
            }
            proof {
                assert(five@ =~= five_of(self@.asks));
            }
        } else {
            let mut i: usize = 0;
            while i < 5
                invariant
                    0 <= i <= 5,
                    five@.len() == i,
                    forall|j: int| 0 <= j < i ==> five@[j] == five_of(self@.bids.reverse())[j],
                decreases 5 - i,
            {
                if i < self.bid.len() {
                    let idx = self.bid.len() - 1 - i;
                    five.push(self.bid[idx]);
                } else {
                    five.push((0, 0));
                }
                i += 1;
            }
            proof {
                assert(five@ =~= five_of(self@.bids.reverse()));
            }
        }
        five
    }

    /// Freeze the current state into a tick record. The mid price rounds
    /// the sum of the two best prices before halving.
    pub fn snapshot_tick(&mut self) -> (r: TickData)
        requires
            old(self).wf(),
        ensures
            *final(self) == *old(self),
            r@ == tick_of(old(self)@),
    {
        let ask = self.get_five_lob(1);
        let bid = self.get_five_lob(0);
        let snap_time = self.timestamp / 1000;
        let ms = (self.timestamp % 1000) as u16;
        proof {
            if self@.asks.len() > 0 {
                assert(0 <= self@.asks[0].0 <= PRICE_BOUND);
            }
            if self@.bids.len() > 0 {
                assert(0 <= self@.bids[self@.bids.len() - 1].0 <= PRICE_BOUND);
            }
            assert(0 <= ask@[0].0 + bid@[0].0 <= 2 * PRICE_BOUND);
            lemma_round_milli_bounds(ask@[0].0 + bid@[0].0);
        }
        let mid_price = round(ask[0].0 + bid[0].0) / 2;
        let t = TickData {
            ask_price: ask,
            bid_price: bid,
            mid_price,
            turnover: self.turnover,
            volume: self.volume,
            buy_volume: self.buy_volume,
            sell_volume: self.sell_volume,
            snap_time,
            ms,
            last_price: self.last_price,
            code: self.symbol,
        };
        proof {
            assert(t@ =~= tick_of(old(self)@));
        }
        t
    }

    /// Zero the four accumulators after an emission; the ladders and the
    /// last trade price persist.
    pub fn reset(&mut self)
        ensures
            final(self)@ == reset_step(old(self)@),
            old(self).wf() ==> final(self).wf(),
    {
        self.buy_volume = 0;
        self.sell_volume = 0;
        self.volume = 0;
        self.turnover = 0;
        proof {
            assert(self@ =~= reset_step(old(self)@));
        }
    }
}

/// The mathematical content of an emitted tick sequence.
pub open spec fn ticks_view(v: Seq<TickData>) -> Seq<TickModel> {
    v.map_values(|t: TickData| t@)
}

/// Replay the chronologically ordered events through a fresh book,
/// emitting a tick record after every `interval`-th applied delta,
/// counted from zero, and resetting the accumulators at each emission.
pub fn merge_tick(data: Vec<Data>, interval: i32) -> (r: Vec<TickData>)
    requires
        1 <= interval,
        valid_events(data@),
        data@.len() <= 1_000_000_000_000,
    ensures
        ticks_view(r@) == run_fold(data@, interval as int).ticks,
{
    let ghost gint: int = interval as int;
    let iv: u64 = interval as u64;
    let mut book = OrderBook::default();
    let mut opt: Vec<TickData> = Vec::new();
    let mut count: u64 = 0;
    proof {
        assert(data@.take(0int) =~= Seq::<Data>::empty());
        assert(ticks_view(opt@) =~= Seq::<TickModel>::empty());
    }
    let mut i: usize = 0;
    while i < data.len()
        invariant
            0 <= i <= data@.len(),
            data@.len() <= 1_000_000_000_000,
            valid_events(data@),
            1 <= gint,
            iv as int == gint,
            book@ == run_fold(data@.take(i as int), gint).book,
            count as int == run_fold(data@.take(i as int), gint).count,
            ticks_view(opt@) == run_fold(data@.take(i as int), gint).ticks,
            book.wf(),
            count as int <= i as int,
            book@.volume <= (i as int) * 1_000_000_000_005,
            book@.buy_volume <= (i as int) * 1_000_000_000_005,
            book@.sell_volume <= (i as int) * 1_000_000_000_005,
            book@.turnover <= (i as int) * 1_000_000_000_000_000_000_000_000,
        decreases data@.len() - i,
    {
        proof {
            lemma_run_fold_step(data@, i as int, gint);
            assert(valid_event(data@[i as int]));
        }
        let ghost st = run_fold(data@.take(i as int), gint);
        match &data[i] {
            Data::Depth(depth) => {
                proof {
                    assert(data@[i as int] == Data::Depth(*depth));
                }
                match depth.data_type {
                    OrderBookType::Snapshot => {
                        book.ask = Vec::new();
                        book.bid = Vec::new();
                        book.init = true;
                        book.timestamp = depth.timestamp;
                        book.update_with_depth(depth);
                        proof {
                            assert(book@ =~= run_fold(data@.take(i as int + 1), gint).book);
                            assert(ticks_view(opt@) == run_fold(
                                data@.take(i as int + 1),
                                gint,
                            ).ticks);
                        }
                    },
                    OrderBookType::Delta => {
                        if book.init {
                            book.timestamp = depth.timestamp;
                            book.update_with_depth(depth);
                            let ghost b1 = book@;
                            proof {
                                assert(b1 =~= delta_step(st.book, *depth));
                            }
                            if count % iv == 0 {
                                let ghost t0 = opt@;
                                let tick = book.snapshot_tick();
                                opt.push(tick);
                                book.reset();
                                proof {
                                    assert(book@ =~= reset_step(b1));
                                    assert(ticks_view(opt@) =~= ticks_view(t0).push(tick_of(b1)));
                                    assert(ticks_view(opt@) =~= run_fold(
                                        data@.take(i as int + 1),
                                        gint,
                                    ).ticks);
                                }
                            }
                            count = count + 1;
                            proof {
                                assert(book@ =~= run_fold(data@.take(i as int + 1), gint).book);
                            }
                        }
                    },
                }
            },
            Data::Trade(trade) => {
                proof {
                    assert(data@[i as int] == Data::Trade(*trade));
                }
                if book.init {
                    proof {
                        assert(trade.price * trade.volume <= 1_000_000_000_000_000_000_000_000)
                            by (nonlinear_arith)
                            requires
                                0 <= trade.price <= 1_000_000_000_000,
                                0 <= trade.volume <= 1_000_000_000_000,
                        ;
                        lemma_round_milli_bounds(st.book.volume + trade.volume);
                        lemma_round_milli_bounds(st.book.buy_volume + trade.volume);
                        lemma_round_milli_bounds(st.book.sell_volume + trade.volume);
                    }
                    book.update_with_trade(trade);
                    proof {
                        assert(book@ =~= run_fold(data@.take(i as int + 1), gint).book);
                    }
                }
            },
        }
        i = i + 1;
    }
    proof {
        assert(data@.take(data@.len() as int) =~= data@);
    }
    opt
}

} // verus!
