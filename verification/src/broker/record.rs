//! The append-only ledger of broker events and its derived views.

use vstd::prelude::*;

use crate::broker::events::{
    BrokerRecordedEvent, DividendPayment, IntoBrokerEvent, Price, Trade, TradeType,
};

verus! {

/// The trades of an event history, in recorded order: exactly the payloads
/// of the `TradeCompleted` events, dividends dropped.
pub open spec fn trades_of(s: Seq<BrokerRecordedEvent>) -> Seq<Trade>
    decreases s.len(),
{
    if s.len() == 0 {
        Seq::empty()
    } else {
        let rest = trades_of(s.drop_last());
        match s.last() {
            BrokerRecordedEvent::TradeCompleted(t) => rest.push(t),
            BrokerRecordedEvent::DividendPaid(_) => rest,
        }
    }
}

/// The dividend payments of an event history, in recorded order.
pub open spec fn dividends_of(s: Seq<BrokerRecordedEvent>) -> Seq<DividendPayment>
    decreases s.len(),
{
    if s.len() == 0 {
        Seq::empty()
    } else {
        let rest = dividends_of(s.drop_last());
        match s.last() {
            BrokerRecordedEvent::TradeCompleted(_) => rest,
            BrokerRecordedEvent::DividendPaid(d) => rest.push(d),
        }
    }
}

/// Whether a date lies in the inclusive window `[start, stop]`.
pub open spec fn date_in_window(date: i64, start: i64, stop: i64) -> bool {
    start <= date && date <= stop
}

/// The trades whose date lies in the inclusive window `[start, stop]`,
/// order preserved.
pub open spec fn trades_in_window(ts: Seq<Trade>, start: i64, stop: i64) -> Seq<Trade>
    decreases ts.len(),
{
    if ts.len() == 0 {
        Seq::empty()
    } else {
        let rest = trades_in_window(ts.drop_last(), start, stop);
        if date_in_window(ts.last().date, start, stop) {
            rest.push(ts.last())
        } else {
            rest
        }
    }
}

/// The dividend payments whose date lies in the inclusive window
/// `[start, stop]`, order preserved.
pub open spec fn dividends_in_window(ds: Seq<DividendPayment>, start: i64, stop: i64) -> Seq<
    DividendPayment,
>
    decreases ds.len(),
{
    if ds.len() == 0 {
        Seq::empty()
    } else {
        let rest = dividends_in_window(ds.drop_last(), start, stop);
        if date_in_window(ds.last().date, start, stop) {
            rest.push(ds.last())
        } else {
            rest
        }
    }
}

/// The running cost-basis accumulators for one symbol: net signed quantity
/// and net signed value, as unbounded integers.
pub struct BasisState {
    pub qty: int,
    pub val: int,
}

/// One event applied to the cost-basis accumulators for `symbol`. A matching
/// buy adds the trade's quantity and value, a matching sell subtracts them,
/// and whenever the net quantity reaches exactly zero the accumulated value
/// resets, so a reopened position starts a fresh average. Dividends and
/// other symbols leave the state unchanged.
pub open spec fn basis_step(
    st: BasisState,
    e: BrokerRecordedEvent,
    symbol: Seq<char>,
) -> BasisState {
    match e {
        BrokerRecordedEvent::TradeCompleted(t) => {
            if t.symbol@ == symbol {
                let q = if t.typ is Buy {
                    st.qty + t.quantity
                } else {
                    st.qty - t.quantity
                };
                let v = if t.typ is Buy {
                    st.val + t.value
                } else {
                    st.val - t.value
                };
                BasisState { qty: q, val: if q == 0 { 0 } else { v } }
            } else {
                st
            }
        },
        BrokerRecordedEvent::DividendPaid(_) => st,
    }
}

/// The cost-basis accumulators for `symbol` after an event history has been
/// processed in insertion order, starting from zero.
pub open spec fn basis_after(s: Seq<BrokerRecordedEvent>, symbol: Seq<char>) -> BasisState
    decreases s.len(),
{
    if s.len() == 0 {
        BasisState { qty: 0, val: 0 }
    } else {
        basis_step(basis_after(s.drop_last(), symbol), s.last(), symbol)
    }
}

/// Records the events executed by the broker.
///
/// The ledger is an append-only sequence: `record` pushes one event at the
/// tail and nothing ever mutates or removes an entry. Its view is the
/// sequence of recorded events in arrival order.
#[derive(Debug)]
pub struct BrokerLog {
    log: Vec<BrokerRecordedEvent>,
}

impl View for BrokerLog {
    type V = Seq<BrokerRecordedEvent>;

    closed spec fn view(&self) -> Seq<BrokerRecordedEvent> {
        self.log@
    }
}

impl Clone for BrokerLog {
    fn clone(&self) -> (r: Self)
        ensures
            r@ == self@,
    {
        let r = BrokerLog { log: self.log.clone() };
        proof {
            assert forall|i: int| 0 <= i < self.log@.len() implies r.log@[i] == self.log@[i] by {
                assert(cloned::<BrokerRecordedEvent>(self.log[i], r.log[i]));
            }
            assert(r@ =~= self@);
        }
        r
    }
}

impl Default for BrokerLog {
    fn default() -> (r: Self)
        ensures
            r@ == Seq::<BrokerRecordedEvent>::empty(),
    {
        Self::new()
    }
}

impl BrokerLog {
    pub fn new() -> (r: Self)
        ensures
            r@ == Seq::<BrokerRecordedEvent>::empty(),
    {
        BrokerLog { log: Vec::new() }
    }

    /// Appends one event at the tail of the ledger; nothing else changes.
    pub fn record<E: IntoBrokerEvent>(&mut self, event: E)
        ensures
            final(self)@ == old(self)@.push(event.as_event()),
    {
        let brokerevent: BrokerRecordedEvent = event.into_broker_event();
        self.log.push(brokerevent);
    }

    /// The trades recorded so far, in insertion order, as a fresh vector.
    pub fn trades(&self) -> (r: Vec<Trade>)
        ensures
            r@ == trades_of(self@),
    {
        let mut trades: Vec<Trade> = Vec::new();
        let n: usize = self.log.len();
        for i in 0..n
            invariant
                n == self.log.len(),
                trades@ == trades_of(self@.take(i as int)),
        {
            proof {
                assert(self@.take(i + 1).drop_last() =~= self@.take(i as int));
                assert(self@.take(i + 1).last() == self@[i as int]);
            }
            if let BrokerRecordedEvent::TradeCompleted(trade) = &self.log[i] {
                trades.push(trade.clone());
            }
        }
        proof {
            assert(self@.take(n as int) =~= self@);
        }
        trades
    }

    /// The dividend payments recorded so far, in insertion order, as a fresh
    /// vector.
    pub fn dividends(&self) -> (r: Vec<DividendPayment>)
        ensures
            r@ == dividends_of(self@),
    {
        let mut dividends: Vec<DividendPayment> = Vec::new();
        let n: usize = self.log.len();
        for i in 0..n
            invariant
                n == self.log.len(),
                dividends@ == dividends_of(self@.take(i as int)),
        {
            proof {
                assert(self@.take(i + 1).drop_last() =~= self@.take(i as int));
                assert(self@.take(i + 1).last() == self@[i as int]);
            }
            if let BrokerRecordedEvent::DividendPaid(dividend) = &self.log[i] {
                dividends.push(dividend.clone());
            }
        }
        proof {
            assert(self@.take(n as int) =~= self@);
        }
        dividends
    }

    /// The recorded trades whose date lies in the inclusive window
    /// `[start, stop]`, in insertion order. An inverted window yields an
    /// empty result.
    pub fn trades_between(&self, start: &i64, stop: &i64) -> (r: Vec<Trade>)
        ensures
            r@ == trades_in_window(trades_of(self@), *start, *stop),
    {
        let trades = self.trades();
        let mut filtered: Vec<Trade> = Vec::new();
        let n: usize = trades.len();
        for i in 0..n
            invariant
                n == trades.len(),
                trades@ == trades_of(self@),
                filtered@ == trades_in_window(trades@.take(i as int), *start, *stop),
        {
            proof {
                assert(trades@.take(i + 1).drop_last() =~= trades@.take(i as int));
                assert(trades@.take(i + 1).last() == trades@[i as int]);
            }
            let trade = &trades[i];
            if *start <= trade.date && trade.date <= *stop {
                filtered.push(trade.clone());
            }
        }
        proof {
            assert(trades@.take(n as int) =~= trades@);
        }
        filtered
    }

    /// The recorded dividend payments whose date lies in the inclusive
    /// window `[start, stop]`, in insertion order.
    pub fn dividends_between(&self, start: &i64, stop: &i64) -> (r: Vec<DividendPayment>)
        ensures
            r@ == dividends_in_window(dividends_of(self@), *start, *stop),
    {
        let dividends = self.dividends();
        let mut filtered: Vec<DividendPayment> = Vec::new();
        let n: usize = dividends.len();
        for i in 0..n
            invariant
                n == dividends.len(),
                dividends@ == dividends_of(self@),
                filtered@ == dividends_in_window(dividends@.take(i as int), *start, *stop),
        {
            proof {
                assert(dividends@.take(i + 1).drop_last() =~= dividends@.take(i as int));
                assert(dividends@.take(i + 1).last() == dividends@[i as int]);
            }
            let dividend = &dividends[i];
            if *start <= dividend.date && dividend.date <= *stop {
                filtered.push(dividend.clone());
            }
        }
        proof {
            assert(dividends@.take(n as int) =~= dividends@);
        }
        filtered
    }

    /// The weighted-average cost per unit currently held of `symbol`,
    /// computed over the full trade history in insertion order.
    ///
    /// Returns `None` exactly when the net quantity is zero — both for a
    /// symbol that was never traded and for a position that nets out flat —
    /// and otherwise the exact ratio of accumulated value to accumulated
    /// quantity, with the reset-on-closure rule of [`basis_step`] applied.
    pub fn cost_basis(&self, symbol: &str) -> (r: Option<Price>)
        ensures
            ({
                let st = basis_after(self@, symbol@);
                match r {
                    None => st.qty == 0,
                    Some(p) => st.qty != 0 && p.num == st.val && p.den == st.qty && p.wf(),
                }
            }),
    {
        let sym: String = symbol.to_owned();
        let mut cum_qty: i128 = 0;
        let mut cum_val: i128 = 0;
        let n: usize = self.log.len();
        for i in 0..n
            invariant
                n == self.log.len(),
                sym@ == symbol@,
                cum_qty as int == basis_after(self@.take(i as int), symbol@).qty,
                cum_val as int == basis_after(self@.take(i as int), symbol@).val,
                // each trade moves an accumulator by at most 2^63, so after i
                // events both stay well inside i128
                -(i as int) * 0x8000_0000_0000_0000 <= cum_qty as int,
                cum_qty as int <= (i as int) * 0x8000_0000_0000_0000,
                -(i as int) * 0x8000_0000_0000_0000 <= cum_val as int,
                cum_val as int <= (i as int) * 0x8000_0000_0000_0000,
        {
            proof {
                assert(self@.take(i + 1).drop_last() =~= self@.take(i as int));
                assert(self@.take(i + 1).last() == self@[i as int]);
            }
            if let BrokerRecordedEvent::TradeCompleted(trade) = &self.log[i] {
                if trade.symbol.eq(&sym) {
                    match trade.typ {
                        TradeType::Buy => {
                            cum_qty = cum_qty + (trade.quantity as i128);
                            cum_val = cum_val + (trade.value as i128);
                        },
                        TradeType::Sell => {
                            cum_qty = cum_qty - (trade.quantity as i128);
                            cum_val = cum_val - (trade.value as i128);
                        },
                    }
                    // reset the value if the position is back to zero
                    if cum_qty == 0 {
                        cum_val = 0;
                    }
                }
            }
        }
        proof {
            assert(self@.take(n as int) =~= self@);
        }
        if cum_qty == 0 {
            return None;
        }
        Some(Price { num: cum_val, den: cum_qty })
    }
}

} // verus!
