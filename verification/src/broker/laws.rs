//! Ledger-wide laws: how the derived views relate to the recorded history.

use vstd::prelude::*;

use crate::broker::events::{BrokerRecordedEvent, DividendPayment, Trade};
use crate::broker::record::{
    basis_after, date_in_window, dividends_of, trades_in_window, trades_of, BasisState,
};

verus! {

/// A trade sequence wrapped back into ledger events.
pub open spec fn as_trade_events(ts: Seq<Trade>) -> Seq<BrokerRecordedEvent> {
    ts.map_values(|t: Trade| BrokerRecordedEvent::TradeCompleted(t))
}

/// A dividend sequence wrapped back into ledger events.
pub open spec fn as_dividend_events(ds: Seq<DividendPayment>) -> Seq<BrokerRecordedEvent> {
    ds.map_values(|d: DividendPayment| BrokerRecordedEvent::DividendPaid(d))
}

/// Whether an event is a completed trade in `symbol`.
pub open spec fn is_trade_for(e: BrokerRecordedEvent, symbol: Seq<char>) -> bool {
    e matches BrokerRecordedEvent::TradeCompleted(t) && t.symbol@ == symbol
}

/// The trade view and the dividend view together account for every recorded
/// event: their combined multiset equals the multiset of the full history.
pub proof fn lemma_trades_dividends_partition(s: Seq<BrokerRecordedEvent>)
    ensures
        s.to_multiset() == as_trade_events(trades_of(s)).to_multiset().add(
            as_dividend_events(dividends_of(s)).to_multiset(),
        ),
    decreases s.len(),
{
    broadcast use vstd::seq_lib::group_to_multiset_ensures;

    if s.len() == 0 {
        assert(as_trade_events(trades_of(s)) =~= Seq::<BrokerRecordedEvent>::empty());
        assert(as_dividend_events(dividends_of(s)) =~= Seq::<BrokerRecordedEvent>::empty());
        assert(s.to_multiset() =~= as_trade_events(trades_of(s)).to_multiset().add(
            as_dividend_events(dividends_of(s)).to_multiset(),
        ));
    } else {
        let rest = s.drop_last();
        let e = s.last();
        lemma_trades_dividends_partition(rest);
        assert(s =~= rest.push(e));
        assert(s.to_multiset() == rest.push(e).to_multiset());
        match e {
            BrokerRecordedEvent::TradeCompleted(t) => {
                assert(as_trade_events(trades_of(s)) =~= as_trade_events(trades_of(rest)).push(e));
                assert(as_dividend_events(dividends_of(s)) =~= as_dividend_events(
                    dividends_of(rest),
                ));
                assert(s.to_multiset() =~= as_trade_events(trades_of(s)).to_multiset().add(
                    as_dividend_events(dividends_of(s)).to_multiset(),
                ));
            },
            BrokerRecordedEvent::DividendPaid(d) => {
                assert(as_trade_events(trades_of(s)) =~= as_trade_events(trades_of(rest)));
                assert(as_dividend_events(dividends_of(s)) =~= as_dividend_events(
                    dividends_of(rest),
                ).push(e));
                assert(s.to_multiset() =~= as_trade_events(trades_of(s)).to_multiset().add(
                    as_dividend_events(dividends_of(s)).to_multiset(),
                ));
            },
        }
    }
}

/// The payload of a trade event, and nothing for a dividend.
pub open spec fn trade_payload(e: BrokerRecordedEvent) -> Option<Trade> {
    match e {
        BrokerRecordedEvent::TradeCompleted(t) => Some(t),
        BrokerRecordedEvent::DividendPaid(_) => None,
    }
}

/// The payload of a dividend event, and nothing for a trade.
pub open spec fn dividend_payload(e: BrokerRecordedEvent) -> Option<DividendPayment> {
    match e {
        BrokerRecordedEvent::TradeCompleted(_) => None,
        BrokerRecordedEvent::DividendPaid(d) => Some(d),
    }
}

/// The trade view is exactly the type-filtered subsequence of the history,
/// in original order, in the standard `filter_map` sense; likewise the
/// dividend view.
pub proof fn lemma_views_are_type_filters(s: Seq<BrokerRecordedEvent>)
    ensures
        trades_of(s) == s.filter_map(|e: BrokerRecordedEvent| trade_payload(e)),
        dividends_of(s) == s.filter_map(|e: BrokerRecordedEvent| dividend_payload(e)),
    decreases s.len(),
{
    let ft = |e: BrokerRecordedEvent| trade_payload(e);
    let fd = |e: BrokerRecordedEvent| dividend_payload(e);
    if s.len() == 0 {
        assert(trades_of(s) =~= s.filter_map(ft));
        assert(dividends_of(s) =~= s.filter_map(fd));
    } else {
        lemma_views_are_type_filters(s.drop_last());
        match s.last() {
            BrokerRecordedEvent::TradeCompleted(t) => {
                assert(s.filter_map(ft) =~= s.drop_last().filter_map(ft) + seq![t]);
                assert(trades_of(s) =~= trades_of(s.drop_last()).push(t));
                assert(trades_of(s) =~= s.filter_map(ft));
                assert(dividends_of(s) =~= s.filter_map(fd));
            },
            BrokerRecordedEvent::DividendPaid(d) => {
                assert(s.filter_map(fd) =~= s.drop_last().filter_map(fd) + seq![d]);
                assert(dividends_of(s) =~= dividends_of(s.drop_last()).push(d));
                assert(dividends_of(s) =~= s.filter_map(fd));
                assert(trades_of(s) =~= s.filter_map(ft));
            },
        }
    }
}

/// Recording histories back to back filters back to back: the trade view of
/// a concatenated history is the concatenation of the trade views. With
/// `record` appending one event at a time, this says that recording events
/// in order reconstructs exactly the type-filtered subsequence, order
/// preserved.
pub proof fn lemma_trades_of_append(s: Seq<BrokerRecordedEvent>, t: Seq<BrokerRecordedEvent>)
    ensures
        trades_of(s + t) == trades_of(s) + trades_of(t),
    decreases t.len(),
{
    if t.len() == 0 {
        assert(s + t =~= s);
        assert(trades_of(s) + trades_of(t) =~= trades_of(s));
    } else {
        lemma_trades_of_append(s, t.drop_last());
        assert((s + t).drop_last() =~= s + t.drop_last());
        assert((s + t).last() == t.last());
        match t.last() {
            BrokerRecordedEvent::TradeCompleted(tr) => {
                assert(trades_of(s) + trades_of(t) =~= (trades_of(s) + trades_of(
                    t.drop_last(),
                )).push(tr));
            },
            BrokerRecordedEvent::DividendPaid(_) => {
                assert(trades_of(s) + trades_of(t) =~= trades_of(s) + trades_of(t.drop_last()));
            },
        }
    }
}

/// The dividend-side counterpart of [`lemma_trades_of_append`].
pub proof fn lemma_dividends_of_append(s: Seq<BrokerRecordedEvent>, t: Seq<BrokerRecordedEvent>)
    ensures
        dividends_of(s + t) == dividends_of(s) + dividends_of(t),
    decreases t.len(),
{
    if t.len() == 0 {
        assert(s + t =~= s);
        assert(dividends_of(s) + dividends_of(t) =~= dividends_of(s));
    } else {
        lemma_dividends_of_append(s, t.drop_last());
        assert((s + t).drop_last() =~= s + t.drop_last());
        assert((s + t).last() == t.last());
        match t.last() {
            BrokerRecordedEvent::DividendPaid(d) => {
                assert(dividends_of(s) + dividends_of(t) =~= (dividends_of(s) + dividends_of(
                    t.drop_last(),
                )).push(d));
            },
            BrokerRecordedEvent::TradeCompleted(_) => {
                assert(dividends_of(s) + dividends_of(t) =~= dividends_of(s) + dividends_of(
                    t.drop_last(),
                ));
            },
        }
    }
}

/// A windowed view never invents a trade: everything it holds was in the
/// unwindowed sequence.
pub proof fn lemma_window_subset(ts: Seq<Trade>, start: i64, stop: i64)
    ensures
        forall|t: Trade|
            trades_in_window(ts, start, stop).contains(t) ==> #[trigger] ts.contains(t),
    decreases ts.len(),
{
    if ts.len() > 0 {
        let rest = ts.drop_last();
        lemma_window_subset(rest, start, stop);
        let w = trades_in_window(ts, start, stop);
        let wr = trades_in_window(rest, start, stop);
        assert forall|t: Trade| w.contains(t) implies ts.contains(t) by {
            if wr.contains(t) {
                assert(rest.contains(t));
                let j = choose|j: int| 0 <= j < rest.len() && rest[j] == t;
                assert(ts[j] == t);
            } else {
                assert(date_in_window(ts.last().date, start, stop) && t == ts.last());
                assert(ts[ts.len() - 1] == t);
            }
        }
    }
}

/// Narrowing the window commutes with filtering: filtering with a window
/// contained in an already-applied wider one gives exactly the narrow
/// window's view.
pub proof fn lemma_window_narrowing(
    ts: Seq<Trade>,
    outer_start: i64,
    outer_stop: i64,
    start: i64,
    stop: i64,
)
    requires
        outer_start <= start,
        stop <= outer_stop,
    ensures
        trades_in_window(trades_in_window(ts, outer_start, outer_stop), start, stop)
            == trades_in_window(ts, start, stop),
    decreases ts.len(),
{
    if ts.len() > 0 {
        let rest = ts.drop_last();
        let last = ts.last();
        lemma_window_narrowing(rest, outer_start, outer_stop, start, stop);
        let wo_rest = trades_in_window(rest, outer_start, outer_stop);
        if date_in_window(last.date, outer_start, outer_stop) {
            assert(trades_in_window(ts, outer_start, outer_stop) == wo_rest.push(last));
            assert(wo_rest.push(last).drop_last() =~= wo_rest);
            assert(wo_rest.push(last).last() == last);
            if date_in_window(last.date, start, stop) {
                assert(trades_in_window(trades_in_window(ts, outer_start, outer_stop), start, stop)
                    =~= trades_in_window(ts, start, stop));
            } else {
                assert(trades_in_window(trades_in_window(ts, outer_start, outer_stop), start, stop)
                    =~= trades_in_window(ts, start, stop));
            }
        } else {
            assert(!date_in_window(last.date, start, stop));
            assert(trades_in_window(ts, outer_start, outer_stop) == wo_rest);
            assert(trades_in_window(trades_in_window(ts, outer_start, outer_stop), start, stop)
                =~= trades_in_window(ts, start, stop));
        }
    }
}

/// Filtering by the same window twice changes nothing.
pub proof fn lemma_window_idempotent(ts: Seq<Trade>, start: i64, stop: i64)
    ensures
        trades_in_window(trades_in_window(ts, start, stop), start, stop)
            == trades_in_window(ts, start, stop),
{
    lemma_window_narrowing(ts, start, stop, start, stop);
}

/// Widening the window never removes a trade: whatever the narrow window
/// holds, a containing window holds too.
pub proof fn lemma_window_monotone(
    ts: Seq<Trade>,
    outer_start: i64,
    outer_stop: i64,
    start: i64,
    stop: i64,
)
    requires
        outer_start <= start,
        stop <= outer_stop,
    ensures
        forall|t: Trade|
            trades_in_window(ts, start, stop).contains(t) ==> #[trigger] trades_in_window(
                ts,
                outer_start,
                outer_stop,
            ).contains(t),
{
    lemma_window_narrowing(ts, outer_start, outer_stop, start, stop);
    lemma_window_subset(trades_in_window(ts, outer_start, outer_stop), start, stop);
}

/// A symbol with no recorded trades stays flat: its accumulators end at
/// zero, so `cost_basis` reports the same absence as a position that nets
/// out to zero.
pub proof fn lemma_no_trades_flat(s: Seq<BrokerRecordedEvent>, symbol: Seq<char>)
    requires
        forall|i: int| 0 <= i < s.len() ==> !is_trade_for(#[trigger] s[i], symbol),
    ensures
        basis_after(s, symbol) == (BasisState { qty: 0, val: 0 }),
    decreases s.len(),
{
    if s.len() > 0 {
        let rest = s.drop_last();
        assert(forall|i: int| 0 <= i < rest.len() ==> !is_trade_for(#[trigger] rest[i], symbol));
        lemma_no_trades_flat(rest, symbol);
        assert(!is_trade_for(s[s.len() - 1], symbol));
    }
}

} // verus!
