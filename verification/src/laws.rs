use vstd::prelude::*;

verus! {

use crate::{Data, Depth, same_ts_groups, ts_filter, ts_of};
use crate::model::{
    BookModel, RunState, ladder_apply, lemma_ladder_apply_prices, price_in, run_fold, run_init,
    run_step, snapshot_step,
};
use vstd::arithmetic::div_mod::{lemma_fundamental_div_mod, lemma_fundamental_div_mod_converse};

/// No trade stands before a depth event: the shape of the concatenated
/// input, all depth events first, and what a stable merge must keep on
/// every timestamp tie.
pub open spec fn no_trade_before_depth(s: Seq<Data>) -> bool {
    forall|i: int, j: int|
        0 <= i < j < s.len() ==> !((#[trigger] s[i]) is Trade && (#[trigger] s[j]) is Depth)
}

proof fn lemma_seq_index_in<A>(s: Seq<A>, i: int, x: A)
    requires
        0 <= i < s.len(),
        s[i] == x,
    ensures
        exists|n: int| 0 <= n < s.len() && #[trigger] s[n] == x,
{
    assert(0 <= i < s.len() && s[i] == x);
}

/// Every element of the timestamp filter is an element of the sequence
/// with that timestamp.
proof fn lemma_ts_filter_elem(s: Seq<Data>, t: u64, m: int)
    requires
        0 <= m < ts_filter(s, t).len(),
    ensures
        exists|n: int| 0 <= n < s.len() && #[trigger] s[n] == ts_filter(s, t)[m],
        ts_of(ts_filter(s, t)[m]) == t,
    decreases s.len(),
{
    reveal(Seq::filter);
    let f = ts_filter(s, t);
    if s.len() == 0 {
    } else {
        let u = s.drop_last();
        let fu = ts_filter(u, t);
        if ts_of(s.last()) == t && m == f.len() - 1 {
            assert(f[m] == s.last());
            lemma_seq_index_in(s, s.len() - 1, f[m]);
        } else {
            assert(f[m] == fu[m]);
            lemma_ts_filter_elem(u, t, m);
            let n = choose|n: int| 0 <= n < u.len() && #[trigger] u[n] == fu[m];
            assert(s[n] == u[n]);
            lemma_seq_index_in(s, n, f[m]);
        }
    }
}

/// Every element of the sequence with the timestamp appears in the
/// timestamp filter.
proof fn lemma_ts_filter_keeps(s: Seq<Data>, t: u64, n: int)
    requires
        0 <= n < s.len(),
        ts_of(s[n]) == t,
    ensures
        exists|m: int| 0 <= m < ts_filter(s, t).len() && #[trigger] ts_filter(s, t)[m] == s[n],
    decreases s.len(),
{
    reveal(Seq::filter);
    let f = ts_filter(s, t);
    let u = s.drop_last();
    let fu = ts_filter(u, t);
    if n == s.len() - 1 {
        assert(f[f.len() - 1] == s[n]);
        lemma_seq_index_in(f, f.len() - 1, s[n]);
    } else {
        assert(u[n] == s[n]);
        lemma_ts_filter_keeps(u, t, n);
        let m = choose|m: int| 0 <= m < fu.len() && #[trigger] fu[m] == u[n];
        assert(f[m] == fu[m]);
        lemma_seq_index_in(f, m, s[n]);
    }
}

/// Filtering one timestamp out of an input in source order keeps that
/// order.
proof fn lemma_ts_filter_ordered(s: Seq<Data>, t: u64)
    requires
        no_trade_before_depth(s),
    ensures
        no_trade_before_depth(ts_filter(s, t)),
    decreases s.len(),
{
    reveal(Seq::filter);
    let f = ts_filter(s, t);
    if s.len() == 0 {
    } else {
        let u = s.drop_last();
        let fu = ts_filter(u, t);
        assert forall|i: int, j: int| 0 <= i < j < u.len() implies !((#[trigger] u[i]) is Trade
            && (#[trigger] u[j]) is Depth) by {
            assert(u[i] == s[i] && u[j] == s[j]);
        }
        lemma_ts_filter_ordered(u, t);
        assert forall|a: int, b: int| 0 <= a < b < f.len() implies !((#[trigger] f[a]) is Trade
            && (#[trigger] f[b]) is Depth) by {
            if ts_of(s.last()) == t && b == f.len() - 1 {
                assert(f[a] == fu[a]);
                assert(f[b] == s.last());
                if f[a] is Trade && f[b] is Depth {
                    lemma_ts_filter_elem(u, t, a);
                    let n = choose|n: int| 0 <= n < u.len() && #[trigger] u[n] == fu[a];
                    assert(s[n] == u[n]);
                    assert(s[n] is Trade && s[s.len() - 1] is Depth);
                    assert(false);
                }
            } else {
                assert(f[a] == fu[a] && f[b] == fu[b]);
            }
        }
    }
}

/// A pair of same-timestamp positions violating source order would
/// violate it in the timestamp filter too.
proof fn lemma_ts_filter_reflects(s: Seq<Data>, t: u64, i: int, j: int)
    requires
        0 <= i < j < s.len(),
        ts_of(s[i]) == t,
        ts_of(s[j]) == t,
        no_trade_before_depth(ts_filter(s, t)),
    ensures
        !(s[i] is Trade && s[j] is Depth),
    decreases s.len(),
{
    reveal(Seq::filter);
    let f = ts_filter(s, t);
    let u = s.drop_last();
    let fu = ts_filter(u, t);
    if j == s.len() - 1 {
        if s[i] is Trade && s[j] is Depth {
            assert(u[i] == s[i]);
            lemma_ts_filter_keeps(u, t, i);
            let m = choose|m: int| 0 <= m < fu.len() && #[trigger] fu[m] == u[i];
            assert(f[m] == fu[m]);
            assert(f[f.len() - 1] == s[j]);
            assert(f[m] is Trade && f[f.len() - 1] is Depth);
            assert(false);
        }
    } else {
        assert forall|a: int, b: int| 0 <= a < b < fu.len() implies !((#[trigger] fu[a]) is Trade
            && (#[trigger] fu[b]) is Depth) by {
            if ts_of(s.last()) == t {
                assert(fu[a] == f[a] && fu[b] == f[b]);
            } else {
                assert(fu == f);
            }
        }
        assert(u[i] == s[i] && u[j] == s[j]);
        lemma_ts_filter_reflects(u, t, i, j);
    }
}

/// A stable merge keeps the source order on every timestamp tie: when the
/// input holds all depth events before all trade events, no two events of
/// equal timestamp come out with the trade first.
pub proof fn lemma_merge_preserves_source_order(input: Seq<Data>, output: Seq<Data>)
    requires
        no_trade_before_depth(input),
        same_ts_groups(input, output),
    ensures
        forall|i: int, j: int|
            0 <= i < j < output.len() && ts_of(#[trigger] output[i]) == ts_of(#[trigger] output[j])
                ==> !(output[i] is Trade && output[j] is Depth),
{
    assert forall|i: int, j: int|
        0 <= i < j < output.len() && ts_of(#[trigger] output[i]) == ts_of(
            #[trigger] output[j],
        ) implies !(output[i] is Trade && output[j] is Depth) by {
        let t = ts_of(output[i]);
        lemma_ts_filter_ordered(input, t);
        assert(ts_filter(input, t) == ts_filter(output, t));
        lemma_ts_filter_reflects(output, t, i, j);
    }
}

pub open spec fn is_snapshot_event(e: Data) -> bool {
    match e {
        Data::Depth(d) => d.data_type is Snapshot,
        Data::Trade(_) => false,
    }
}

/// Until the first snapshot arrives, the replay discards every event: the
/// book stays in its initial state and no tick record is emitted.
pub proof fn lemma_discards_before_snapshot(events: Seq<Data>, interval: int)
    requires
        forall|i: int| 0 <= i < events.len() ==> !is_snapshot_event(#[trigger] events[i]),
    ensures
        run_fold(events, interval) == run_init(),
    decreases events.len(),
{
    if events.len() > 0 {
        let u = events.drop_last();
        assert forall|i: int| 0 <= i < u.len() implies !is_snapshot_event(#[trigger] u[i]) by {
            assert(u[i] == events[i]);
        }
        lemma_discards_before_snapshot(u, interval);
        assert(events.last() == events[events.len() - 1]);
        assert(!is_snapshot_event(events.last()));
    }
}

/// Once a snapshot has seeded the book it stays live for the rest of the
/// replay: no later event, a further snapshot included, demotes it.
pub proof fn lemma_book_stays_live(st: RunState, e: Data, interval: int)
    requires
        st.book.init,
    ensures
        run_step(st, e, interval).book.init,
{
}

/// A snapshot rebuilds both ladders from the snapshot's own level lists
/// alone: whatever the book held before, every surviving price level
/// comes from the snapshot event.
pub proof fn lemma_snapshot_replaces(b: BookModel, d: Depth)
    requires
        d.data_type is Snapshot,
    ensures
        snapshot_step(b, d).asks == ladder_apply(Seq::empty(), d.data.ask.0@),
        snapshot_step(b, d).bids == ladder_apply(Seq::empty(), d.data.bid.0@),
        forall|i: int|
            0 <= i < snapshot_step(b, d).asks.len() ==> price_in(
                d.data.ask.0@,
                (#[trigger] snapshot_step(b, d).asks[i]).0,
            ),
        forall|i: int|
            0 <= i < snapshot_step(b, d).bids.len() ==> price_in(
                d.data.bid.0@,
                (#[trigger] snapshot_step(b, d).bids[i]).0,
            ),
{
    lemma_ladder_apply_prices(Seq::empty(), d.data.ask.0@);
    lemma_ladder_apply_prices(Seq::empty(), d.data.bid.0@);
    assert forall|i: int| 0 <= i < snapshot_step(b, d).asks.len() implies price_in(
        d.data.ask.0@,
        (#[trigger] snapshot_step(b, d).asks[i]).0,
    ) by {
        assert(snapshot_step(b, d).asks[i] == ladder_apply(Seq::empty(), d.data.ask.0@)[i]);
    }
    assert forall|i: int| 0 <= i < snapshot_step(b, d).bids.len() implies price_in(
        d.data.bid.0@,
        (#[trigger] snapshot_step(b, d).bids[i]).0,
    ) by {
        assert(snapshot_step(b, d).bids[i] == ladder_apply(Seq::empty(), d.data.bid.0@)[i]);
    }
}

/// The number of emissions after `c` applied deltas with the zero-based
/// cadence: one at count 0, then one for every further full interval.
pub open spec fn emitted_count(c: int, interval: int) -> int {
    if c <= 0 {
        0
    } else {
        (c - 1) / interval + 1
    }
}

proof fn lemma_emitted_step(c: int, n: int)
    requires
        0 <= c,
        1 <= n,
    ensures
        c % n == 0 ==> emitted_count(c + 1, n) == emitted_count(c, n) + 1,
        c % n != 0 ==> emitted_count(c + 1, n) == emitted_count(c, n),
{
    lemma_fundamental_div_mod(c, n);
    let q = c / n;
    let r = c % n;
    if c == 0 {
        lemma_fundamental_div_mod_converse(0, n, 0, 0);
    } else if r == 0 {
        assert(q >= 1 && c - 1 == (q - 1) * n + (n - 1) && c == q * n + 0) by (nonlinear_arith)
            requires
                n >= 1,
                c == n * q + r,
                r == 0,
                c > 0,
        ;
        lemma_fundamental_div_mod_converse(c - 1, n, q - 1, n - 1);
        lemma_fundamental_div_mod_converse(c, n, q, 0);
    } else {
        assert(c - 1 == q * n + (r - 1)) by (nonlinear_arith)
            requires
                c == n * q + r,
        ;
        lemma_fundamental_div_mod_converse(c - 1, n, q, r - 1);
    }
}

/// The emission count invariant: after any event sequence, the number of
/// tick records equals the emission count of the number of applied
/// deltas, one at delta 0 and one per further full interval.
pub proof fn lemma_emission_count(events: Seq<Data>, interval: int)
    requires
        1 <= interval,
    ensures
        run_fold(events, interval).count >= 0,
        run_fold(events, interval).ticks.len() == emitted_count(
            run_fold(events, interval).count,
            interval,
        ),
    decreases events.len(),
{
    if events.len() > 0 {
        lemma_emission_count(events.drop_last(), interval);
        let st = run_fold(events.drop_last(), interval);
        match events.last() {
            Data::Depth(d) => {
                if d.data_type is Delta && st.book.init {
                    lemma_emitted_step(st.count, interval);
                }
            },
            Data::Trade(_) => {},
        }
    }
}

/// Where the number of applied deltas is a whole number of intervals, the
/// emission count is exactly their quotient.
pub proof fn lemma_emission_count_multiple(events: Seq<Data>, interval: int)
    requires
        1 <= interval,
        run_fold(events, interval).count % interval == 0,
    ensures
        run_fold(events, interval).ticks.len() == run_fold(events, interval).count / interval,
{
    lemma_emission_count(events, interval);
    let c = run_fold(events, interval).count;
    lemma_fundamental_div_mod(c, interval);
    let q = c / interval;
    if c == 0 {
        lemma_fundamental_div_mod_converse(0, interval, 0, 0);
    } else {
        assert(q >= 1 && c - 1 == (q - 1) * interval + (interval - 1)) by (nonlinear_arith)
            requires
                interval >= 1,
                c == interval * q + (c % interval),
                c % interval == 0,
                c > 0,
        ;
        lemma_fundamental_div_mod_converse(c - 1, interval, q - 1, interval - 1);
    }
}

} // verus!
