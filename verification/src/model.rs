use vstd::prelude::*;

verus! {

use crate::{Data, Depth, Trade, OrderBookType};

/// Prices and sizes are fixed-point numbers with four decimal places:
/// a stored value `v` stands for the quantity `v / 10000`.
/// These bounds keep every accumulation within machine range.
pub const PRICE_BOUND: i64 = 1_000_000_000_000;

pub const SIZE_BOUND: i64 = 1_000_000_000_000;

/// Rounding to three decimal places in the four-decimal fixed point:
/// the nearest multiple of 10, ties away from zero.
pub open spec fn round_milli(v: int) -> int {
    if v >= 0 {
        ((v + 5) / 10) * 10
    } else {
        -(((-v + 5) / 10) * 10)
    }
}

pub proof fn lemma_round_milli_bounds(v: int)
    requires
        v >= 0,
    ensures
        0 <= round_milli(v) <= v + 5,
{
    vstd::arithmetic::div_mod::lemma_fundamental_div_mod(v + 5, 10);
}

pub open spec fn valid_level(l: (i64, i64)) -> bool {
    0 <= l.0 <= PRICE_BOUND && -SIZE_BOUND <= l.1 <= SIZE_BOUND
}

pub open spec fn valid_levels(s: Seq<(i64, i64)>) -> bool {
    forall|i: int| 0 <= i < s.len() ==> #[trigger] valid_level(s[i])
}

pub open spec fn valid_depth(d: Depth) -> bool {
    valid_levels(d.data.ask.0@) && valid_levels(d.data.bid.0@)
}

pub open spec fn valid_trade(t: Trade) -> bool {
    0 <= t.price <= PRICE_BOUND && 0 <= t.volume <= SIZE_BOUND
}

pub open spec fn valid_event(e: Data) -> bool {
    match e {
        Data::Depth(d) => valid_depth(d),
        Data::Trade(t) => valid_trade(t),
    }
}

pub open spec fn valid_events(s: Seq<Data>) -> bool {
    forall|i: int| 0 <= i < s.len() ==> #[trigger] valid_event(s[i])
}

/// A well-formed ladder: price levels strictly ascending, sizes positive,
/// everything within the fixed-point bounds.
pub open spec fn ladder_wf(s: Seq<(i64, i64)>) -> bool {
    &&& forall|i: int, j: int|
        0 <= i < j < s.len() ==> (#[trigger] s[i]).0 < (#[trigger] s[j]).0
    &&& forall|i: int|
        0 <= i < s.len() ==> 0 < (#[trigger] s[i]).1 <= SIZE_BOUND && 0 <= s[i].0 <= PRICE_BOUND
}

/// Number of leading entries whose price is below `p`; on a sorted ladder
/// this is the position where `p` belongs.
pub open spec fn ladder_pos(s: Seq<(i64, i64)>, p: i64) -> int
    decreases s.len(),
{
    if s.len() == 0 {
        0
    } else if s[0].0 < p {
        1 + ladder_pos(s.drop_first(), p)
    } else {
        0
    }
}

/// One level update: a positive size upserts the level, any other size
/// removes it if present.
pub open spec fn ladder_set(s: Seq<(i64, i64)>, p: i64, sz: i64) -> Seq<(i64, i64)> {
    let k = ladder_pos(s, p);
    if sz > 0 {
        if k < s.len() && s[k].0 == p {
            s.update(k, (p, sz))
        } else {
            s.subrange(0, k) + seq![(p, sz)] + s.subrange(k, s.len() as int)
        }
    } else {
        if k < s.len() && s[k].0 == p {
            s.subrange(0, k) + s.subrange(k + 1, s.len() as int)
        } else {
            s
        }
    }
}

/// All level updates of one side of a depth event, applied in order.
pub open spec fn ladder_apply(s: Seq<(i64, i64)>, lv: Seq<(i64, i64)>) -> Seq<(i64, i64)>
    decreases lv.len(),
{
    if lv.len() == 0 {
        s
    } else {
        ladder_apply(ladder_set(s, lv[0].0, lv[0].1), lv.drop_first())
    }
}

pub proof fn lemma_ladder_pos_props(s: Seq<(i64, i64)>, p: i64)
    ensures
        0 <= ladder_pos(s, p) <= s.len(),
        forall|j: int| 0 <= j < ladder_pos(s, p) ==> (#[trigger] s[j]).0 < p,
        ladder_pos(s, p) < s.len() ==> s[ladder_pos(s, p)].0 >= p,
    decreases s.len(),
{
    if s.len() == 0 {
    } else if s[0].0 < p {
        lemma_ladder_pos_props(s.drop_first(), p);
        let k = ladder_pos(s, p);
        assert forall|j: int| 0 <= j < k implies (#[trigger] s[j]).0 < p by {
            if j > 0 {
                assert(s.drop_first()[j - 1] == s[j]);
            }
        }
        if k < s.len() {
            assert(s.drop_first()[k - 1] == s[k]);
        }
    } else {
    }
}

pub proof fn lemma_ladder_pos_is(s: Seq<(i64, i64)>, p: i64, k: int)
    requires
        0 <= k <= s.len(),
        forall|j: int| 0 <= j < k ==> (#[trigger] s[j]).0 < p,
        k < s.len() ==> s[k].0 >= p,
    ensures
        ladder_pos(s, p) == k,
    decreases s.len(),
{
    if s.len() == 0 {
    } else if k == 0 {
    } else {
        assert(s[0].0 < p);
        assert forall|j: int| 0 <= j < k - 1 implies (#[trigger] s.drop_first()[j]).0 < p by {
            assert(s.drop_first()[j] == s[j + 1]);
        }
        if k - 1 < s.drop_first().len() {
            assert(s.drop_first()[k - 1] == s[k]);
        }
        lemma_ladder_pos_is(s.drop_first(), p, k - 1);
    }
}

pub proof fn lemma_ladder_set_wf(s: Seq<(i64, i64)>, p: i64, sz: i64)
    requires
        ladder_wf(s),
        0 <= p <= PRICE_BOUND,
        sz <= SIZE_BOUND,
    ensures
        ladder_wf(ladder_set(s, p, sz)),
{
    lemma_ladder_pos_props(s, p);
    let k = ladder_pos(s, p);
    let r = ladder_set(s, p, sz);
    if sz > 0 {
        if k < s.len() && s[k].0 == p {
            assert forall|i: int, j: int| 0 <= i < j < r.len() implies (#[trigger] r[i]).0
                < (#[trigger] r[j]).0 by {
                assert(s[i].0 < s[j].0);
            }
        } else {
            assert(r.len() == s.len() + 1);
            assert forall|i: int| 0 <= i < k implies r[i] == s[i] by {}
            assert(r[k] == (p, sz));
            assert forall|i: int| k < i < r.len() implies r[i] == s[i - 1] by {}
            assert forall|i: int, j: int| 0 <= i < j < r.len() implies (#[trigger] r[i]).0
                < (#[trigger] r[j]).0 by {
                if i < k && j == k {
                    assert(s[i].0 < p);
                } else if i == k && j > k {
                    assert(s[j - 1].0 >= s[k].0 > p);
                } else if i < k && j > k {
                    if i == j - 1 {
                        assert(s[i].0 < p < s[j - 1].0);
                    } else {
                        assert(s[i].0 < s[j - 1].0);
                    }
                }
            }
            assert forall|i: int| 0 <= i < r.len() implies 0 < (#[trigger] r[i]).1 <= SIZE_BOUND
                && 0 <= r[i].0 <= PRICE_BOUND by {}
        }
    } else {
        if k < s.len() && s[k].0 == p {
            assert(r.len() == s.len() - 1);
            assert forall|i: int| 0 <= i < k implies r[i] == s[i] by {}
            assert forall|i: int| k <= i < r.len() implies r[i] == s[i + 1] by {}
            assert forall|i: int, j: int| 0 <= i < j < r.len() implies (#[trigger] r[i]).0
                < (#[trigger] r[j]).0 by {}
        }
    }
}

/// A level update with a non-positive size leaves no entry at that price.
pub proof fn lemma_ladder_set_absent(s: Seq<(i64, i64)>, p: i64, sz: i64)
    requires
        ladder_wf(s),
        sz <= 0,
    ensures
        forall|i: int|
            0 <= i < ladder_set(s, p, sz).len() ==> (#[trigger] ladder_set(s, p, sz)[i]).0 != p,
{
    lemma_ladder_pos_props(s, p);
    let k = ladder_pos(s, p);
    let r = ladder_set(s, p, sz);
    if k < s.len() && s[k].0 == p {
        assert forall|i: int| 0 <= i < r.len() implies (#[trigger] r[i]).0 != p by {
            if i < k {
                assert(r[i] == s[i]);
            } else {
                assert(r[i] == s[i + 1]);
                assert(s[k].0 < s[i + 1].0);
            }
        }
    } else {
        assert forall|i: int| 0 <= i < r.len() implies (#[trigger] r[i]).0 != p by {
            if i > k {
                assert(s[k].0 < s[i].0);
            }
        }
    }
}

/// Some entry of the ladder carries this price.
pub open spec fn price_in(s: Seq<(i64, i64)>, p: i64) -> bool {
    exists|j: int| 0 <= j < s.len() && (#[trigger] s[j]).0 == p
}

proof fn lemma_price_in(s: Seq<(i64, i64)>, i: int, p: i64)
    requires
        0 <= i < s.len(),
        s[i].0 == p,
    ensures
        price_in(s, p),
{
    assert(0 <= i < s.len() && s[i].0 == p);
}

/// Every price present after a level update was the updated price or was
/// already present.
pub proof fn lemma_ladder_set_prices(s: Seq<(i64, i64)>, p: i64, sz: i64)
    ensures
        forall|i: int|
            0 <= i < ladder_set(s, p, sz).len() ==> (#[trigger] ladder_set(s, p, sz)[i]).0 == p
                || price_in(s, ladder_set(s, p, sz)[i].0),
{
    lemma_ladder_pos_props(s, p);
    let k = ladder_pos(s, p);
    let r = ladder_set(s, p, sz);
    assert forall|i: int| 0 <= i < r.len() implies (#[trigger] r[i]).0 == p || price_in(
        s,
        r[i].0,
    ) by {
        if sz > 0 {
            if k < s.len() && s[k].0 == p {
                if i != k {
                    lemma_price_in(s, i, r[i].0);
                }
            } else {
                if i < k {
                    lemma_price_in(s, i, r[i].0);
                } else if i > k {
                    assert(s[i - 1].0 == r[i].0);
                    lemma_price_in(s, i - 1, r[i].0);
                }
            }
        } else {
            if k < s.len() && s[k].0 == p {
                if i < k {
                    lemma_price_in(s, i, r[i].0);
                } else {
                    assert(s[i + 1].0 == r[i].0);
                    lemma_price_in(s, i + 1, r[i].0);
                }
            } else {
                lemma_price_in(s, i, r[i].0);
            }
        }
    }
}

pub proof fn lemma_ladder_apply_wf(s: Seq<(i64, i64)>, lv: Seq<(i64, i64)>)
    requires
        ladder_wf(s),
        valid_levels(lv),
    ensures
        ladder_wf(ladder_apply(s, lv)),
    decreases lv.len(),
{
    if lv.len() == 0 {
    } else {
        assert(valid_level(lv[0]));
        lemma_ladder_set_wf(s, lv[0].0, lv[0].1);
        assert forall|j: int| 0 <= j < lv.drop_first().len() implies #[trigger] valid_level(
            lv.drop_first()[j],
        ) by {
            assert(lv.drop_first()[j] == lv[j + 1]);
            assert(valid_level(lv[j + 1]));
        }
        lemma_ladder_apply_wf(ladder_set(s, lv[0].0, lv[0].1), lv.drop_first());
    }
}

pub proof fn lemma_ladder_apply_push(s: Seq<(i64, i64)>, lv: Seq<(i64, i64)>, x: (i64, i64))
    ensures
        ladder_apply(s, lv.push(x)) == ladder_set(ladder_apply(s, lv), x.0, x.1),
    decreases lv.len(),
{
    if lv.len() == 0 {
        assert(lv.push(x)[0] == x);
        assert(lv.push(x).drop_first() =~= Seq::<(i64, i64)>::empty());
        assert(ladder_apply(s, lv.push(x)) == ladder_apply(
            ladder_set(s, x.0, x.1),
            Seq::<(i64, i64)>::empty(),
        ));
        assert(ladder_apply(ladder_set(s, x.0, x.1), Seq::<(i64, i64)>::empty()) == ladder_set(
            s,
            x.0,
            x.1,
        ));
        assert(ladder_apply(s, lv) == s);
    } else {
        assert(lv.push(x)[0] == lv[0]);
        assert(lv.push(x).drop_first() =~= lv.drop_first().push(x));
        let s1 = ladder_set(s, lv[0].0, lv[0].1);
        assert(ladder_apply(s, lv.push(x)) == ladder_apply(s1, lv.drop_first().push(x)));
        assert(ladder_apply(s, lv) == ladder_apply(s1, lv.drop_first()));
        lemma_ladder_apply_push(s1, lv.drop_first(), x);
    }
}

/// Every price present after applying a list of level updates was already
/// present or occurs in the list.
pub proof fn lemma_ladder_apply_prices(s: Seq<(i64, i64)>, lv: Seq<(i64, i64)>)
    ensures
        forall|i: int|
            0 <= i < ladder_apply(s, lv).len() ==> price_in(
                s,
                (#[trigger] ladder_apply(s, lv)[i]).0,
            ) || price_in(lv, ladder_apply(s, lv)[i].0),
    decreases lv.len(),
{
    if lv.len() == 0 {
        assert(ladder_apply(s, lv) == s);
        assert forall|i: int| 0 <= i < ladder_apply(s, lv).len() implies price_in(
            s,
            (#[trigger] ladder_apply(s, lv)[i]).0,
        ) || price_in(lv, ladder_apply(s, lv)[i].0) by {
            lemma_price_in(s, i, ladder_apply(s, lv)[i].0);
        }
    } else {
        let s1 = ladder_set(s, lv[0].0, lv[0].1);
        lemma_ladder_set_prices(s, lv[0].0, lv[0].1);
        lemma_ladder_apply_prices(s1, lv.drop_first());
        assert forall|i: int| 0 <= i < ladder_apply(s, lv).len() implies price_in(
            s,
            (#[trigger] ladder_apply(s, lv)[i]).0,
        ) || price_in(lv, ladder_apply(s, lv)[i].0) by {
            let r = ladder_apply(s, lv);
            assert(ladder_apply(s1, lv.drop_first())[i] == r[i]);
            assert(price_in(s1, r[i].0) || price_in(lv.drop_first(), r[i].0));
            if price_in(s1, r[i].0) {
                let j1 = choose|j: int| 0 <= j < s1.len() && (#[trigger] s1[j]).0 == r[i].0;
                assert(ladder_set(s, lv[0].0, lv[0].1)[j1] == s1[j1]);
                if s1[j1].0 == lv[0].0 {
                    lemma_price_in(lv, 0, r[i].0);
                } else {
                    assert(price_in(s, s1[j1].0));
                }
            } else {
                let j3 = choose|j: int|
                    0 <= j < lv.drop_first().len() && (#[trigger] lv.drop_first()[j]).0 == r[i].0;
                assert(lv.drop_first()[j3] == lv[j3 + 1]);
                lemma_price_in(lv, j3 + 1, r[i].0);
            }
        }
    }
}

/// The mathematical state of an order book.
#[verifier::ext_equal]
pub struct BookModel {
    pub asks: Seq<(i64, i64)>,
    pub bids: Seq<(i64, i64)>,
    pub buy_volume: int,
    pub sell_volume: int,
    pub volume: int,
    pub turnover: int,
    pub init: bool,
    pub timestamp: int,
    pub symbol: int,
    pub last_price: int,
}

pub open spec fn book_init() -> BookModel {
    BookModel {
        asks: Seq::empty(),
        bids: Seq::empty(),
        buy_volume: 0,
        sell_volume: 0,
        volume: 0,
        turnover: 0,
        init: false,
        timestamp: 0,
        symbol: 0,
        last_price: 0,
    }
}

/// Apply both level lists of a depth event to the ladders, leaving the
/// other fields alone.
pub open spec fn depth_levels_step(b: BookModel, d: Depth) -> BookModel {
    BookModel {
        asks: ladder_apply(b.asks, d.data.ask.0@),
        bids: ladder_apply(b.bids, d.data.bid.0@),
        ..b
    }
}

/// A snapshot rebuilds both ladders from nothing, marks the book live and
/// stamps it; accumulators are untouched.
pub open spec fn snapshot_step(b: BookModel, d: Depth) -> BookModel {
    BookModel {
        asks: ladder_apply(Seq::empty(), d.data.ask.0@),
        bids: ladder_apply(Seq::empty(), d.data.bid.0@),
        init: true,
        timestamp: d.timestamp as int,
        ..b
    }
}

/// A delta applied to a live book updates the ladders and the stamp.
pub open spec fn delta_step(b: BookModel, d: Depth) -> BookModel {
    BookModel { timestamp: d.timestamp as int, ..depth_levels_step(b, d) }
}

/// A trade applied to a live book: volumes accumulate with stepwise
/// rounding, turnover accumulates exactly, the last price is recorded.
pub open spec fn trade_step(b: BookModel, t: Trade) -> BookModel {
    BookModel {
        buy_volume: if t.direction is Buy {
            round_milli(b.buy_volume + t.volume)
        } else {
            b.buy_volume
        },
        sell_volume: if t.direction is Sell {
            round_milli(b.sell_volume + t.volume)
        } else {
            b.sell_volume
        },
        volume: round_milli(b.volume + t.volume),
        turnover: b.turnover + t.price * t.volume,
        last_price: t.price as int,
        ..b
    }
}

/// Emission reset: the four accumulators are zeroed, the ladders and the
/// last trade price persist.
pub open spec fn reset_step(b: BookModel) -> BookModel {
    BookModel { buy_volume: 0, sell_volume: 0, volume: 0, turnover: 0, ..b }
}

/// The best five levels of one side, padded with empty levels.
pub open spec fn five_of(s: Seq<(i64, i64)>) -> Seq<(i64, i64)> {
    Seq::new(5, |i: int| if i < s.len() { s[i] } else { (0i64, 0i64) })
}

/// The mathematical content of one emitted tick record.
#[verifier::ext_equal]
pub struct TickModel {
    pub ask: Seq<(i64, i64)>,
    pub bid: Seq<(i64, i64)>,
    pub mid_price: int,
    pub turnover: int,
    pub volume: int,
    pub buy_volume: int,
    pub sell_volume: int,
    pub snap_time: int,
    pub ms: int,
    pub last_price: int,
    pub code: int,
}

/// Snapshotting a book into a tick record. The mid price rounds the sum
/// of the two best prices before halving, as the replay has always done.
pub open spec fn tick_of(b: BookModel) -> TickModel {
    let fa = five_of(b.asks);
    let fb = five_of(b.bids.reverse());
    TickModel {
        ask: fa,
        bid: fb,
        mid_price: round_milli(fa[0].0 + fb[0].0) / 2,
        turnover: b.turnover,
        volume: b.volume,
        buy_volume: b.buy_volume,
        sell_volume: b.sell_volume,
        snap_time: b.timestamp / 1000,
        ms: b.timestamp % 1000,
        last_price: b.last_price,
        code: b.symbol,
    }
}

/// The whole replay state: the book, the ticks emitted so far, and the
/// number of deltas applied since the book went live.
#[verifier::ext_equal]
pub struct RunState {
    pub book: BookModel,
    pub ticks: Seq<TickModel>,
    pub count: int,
}

pub open spec fn run_init() -> RunState {
    RunState { book: book_init(), ticks: Seq::empty(), count: 0 }
}

/// One event of the replay. Before the first snapshot everything is
/// discarded; an applied delta emits when the pre-increment counter is a
/// multiple of the interval.
pub open spec fn run_step(st: RunState, e: Data, interval: int) -> RunState {
    match e {
        Data::Depth(d) => match d.data_type {
            OrderBookType::Snapshot => RunState { book: snapshot_step(st.book, d), ..st },
            OrderBookType::Delta => {
                if st.book.init {
                    let b1 = delta_step(st.book, d);
                    if st.count % interval == 0 {
                        RunState {
                            book: reset_step(b1),
                            ticks: st.ticks.push(tick_of(b1)),
                            count: st.count + 1,
                        }
                    } else {
                        RunState { book: b1, ticks: st.ticks, count: st.count + 1 }
                    }
                } else {
                    st
                }
            },
        },
        Data::Trade(t) => if st.book.init {
            RunState { book: trade_step(st.book, t), ..st }
        } else {
            st
        },
    }
}

pub open spec fn run_fold(events: Seq<Data>, interval: int) -> RunState
    decreases events.len(),
{
    if events.len() == 0 {
        run_init()
    } else {
        run_step(run_fold(events.drop_last(), interval), events.last(), interval)
    }
}

pub proof fn lemma_run_fold_step(s: Seq<Data>, i: int, interval: int)
    requires
        0 <= i < s.len(),
    ensures
        run_fold(s.take(i + 1), interval) == run_step(run_fold(s.take(i), interval), s[i], interval),
{
    let a = s.take(i + 1);
    assert(a.len() == i + 1);
    assert(a.drop_last() =~= s.take(i));
    assert(a.last() == s[i]);
}

} // verus!
