use vstd::prelude::*;

verus! {

use crate::model::{SIZE_BOUND, TickModel};

/// One emitted tick record: the best five levels of each side, the
/// accumulators since the previous emission, and the split timestamp.
/// Prices and sizes are four-decimal fixed point; turnover carries eight
/// decimal places, being a sum of price-size products.
pub struct TickData {
    pub ask_price: Vec<(i64, i64)>,
    pub bid_price: Vec<(i64, i64)>,
    pub mid_price: i64,
    pub turnover: u128,
    pub volume: u128,
    pub buy_volume: u128,
    pub sell_volume: u128,
    pub snap_time: u64,
    pub ms: u16,
    pub last_price: i64,
    pub code: u64,
}

impl View for TickData {
    type V = TickModel;

    open spec fn view(&self) -> TickModel {
        TickModel {
            ask: self.ask_price@,
            bid: self.bid_price@,
            mid_price: self.mid_price as int,
            turnover: self.turnover as int,
            volume: self.volume as int,
            buy_volume: self.buy_volume as int,
            sell_volume: self.sell_volume as int,
            snap_time: self.snap_time as int,
            ms: self.ms as int,
            last_price: self.last_price as int,
            code: self.code as int,
        }
    }
}

impl TickData {
    /// The resting size summed over the five ask levels.
    pub fn ask_volume_all(&self) -> (r: i64)
        requires
            self.ask_price@.len() == 5,
            forall|i: int| 0 <= i < 5 ==> -SIZE_BOUND <= (#[trigger] self.ask_price@[i]).1 <= SIZE_BOUND,
        ensures
            r as int == self@.ask[0].1 + self@.ask[1].1 + self@.ask[2].1 + self@.ask[3].1
                + self@.ask[4].1,
    {
        self.ask_price[0].1 + self.ask_price[1].1 + self.ask_price[2].1 + self.ask_price[3].1
            + self.ask_price[4].1
    }

    /// The resting size summed over the five bid levels.
    pub fn bid_volume_all(&self) -> (r: i64)
        requires
            self.bid_price@.len() == 5,
            forall|i: int| 0 <= i < 5 ==> -SIZE_BOUND <= (#[trigger] self.bid_price@[i]).1 <= SIZE_BOUND,
        ensures
            r as int == self@.bid[0].1 + self@.bid[1].1 + self@.bid[2].1 + self@.bid[3].1
                + self@.bid[4].1,
    {
        self.bid_price[0].1 + self.bid_price[1].1 + self.bid_price[2].1 + self.bid_price[3].1
            + self.bid_price[4].1
    }

    /// Open interest is not tracked by the replay; the column is always zero.
    pub fn open_interest(&self) -> (r: i64)
        ensures
            r == 0,
    {
        0
    }
}

} // verus!
