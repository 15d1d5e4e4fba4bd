//! The event records a broker can append to its ledger.

use vstd::prelude::*;

verus! {

/// Whether a trade bought or sold the instrument.
#[derive(Clone, Copy, Debug, PartialEq, Eq, Structural)]
pub enum TradeType {
    Buy,
    Sell,
}

/// A completed trade execution.
///
/// `value` is the total currency amount exchanged and `quantity` the number
/// of units traded, both in the caller's fixed-point scale; `date` is a raw
/// simulated timestamp. The ledger performs no validation of these fields.
#[derive(Debug)]
pub struct Trade {
    pub symbol: String,
    pub value: i64,
    pub quantity: i64,
    pub date: i64,
    pub typ: TradeType,
}

impl Clone for Trade {
    fn clone(&self) -> (r: Self)
        ensures
            r == *self,
    {
        Trade {
            symbol: self.symbol.clone(),
            value: self.value,
            quantity: self.quantity,
            date: self.date,
            typ: self.typ,
        }
    }
}

impl Trade {
    pub fn new(symbol: &str, value: i64, quantity: i64, date: i64, typ: TradeType) -> (r: Self)
        ensures
            r.symbol@ == symbol@,
            r.value == value,
            r.quantity == quantity,
            r.date == date,
            r.typ == typ,
    {
        Trade { symbol: symbol.to_owned(), value, quantity, date, typ }
    }
}

/// A dividend payment credited for a held instrument.
#[derive(Debug)]
pub struct DividendPayment {
    pub symbol: String,
    pub amount: i64,
    pub date: i64,
}

impl Clone for DividendPayment {
    fn clone(&self) -> (r: Self)
        ensures
            r == *self,
    {
        DividendPayment { symbol: self.symbol.clone(), amount: self.amount, date: self.date }
    }
}

impl DividendPayment {
    pub fn new(symbol: &str, amount: i64, date: i64) -> (r: Self)
        ensures
            r.symbol@ == symbol@,
            r.amount == amount,
            r.date == date,
    {
        DividendPayment { symbol: symbol.to_owned(), amount, date }
    }
}

/// An event the broker records: a closed sum over the two record kinds.
#[derive(Debug)]
pub enum BrokerRecordedEvent {
    TradeCompleted(Trade),
    DividendPaid(DividendPayment),
}

impl Clone for BrokerRecordedEvent {
    fn clone(&self) -> (r: Self)
        ensures
            r == *self,
    {
        match self {
            BrokerRecordedEvent::TradeCompleted(t) => BrokerRecordedEvent::TradeCompleted(
                t.clone(),
            ),
            BrokerRecordedEvent::DividendPaid(d) => BrokerRecordedEvent::DividendPaid(d.clone()),
        }
    }
}

/// Conversion into a ledger event, so that a trade or a dividend payment can
/// be recorded directly.
pub trait IntoBrokerEvent: Sized {
    /// The event this value stands for once recorded.
    spec fn as_event(self) -> BrokerRecordedEvent;

    fn into_broker_event(self) -> (r: BrokerRecordedEvent)
        ensures
            r == self.as_event(),
    ;
}

impl IntoBrokerEvent for Trade {
    open spec fn as_event(self) -> BrokerRecordedEvent {
        BrokerRecordedEvent::TradeCompleted(self)
    }

    fn into_broker_event(self) -> (r: BrokerRecordedEvent) {
        BrokerRecordedEvent::TradeCompleted(self)
    }
}

impl IntoBrokerEvent for DividendPayment {
    open spec fn as_event(self) -> BrokerRecordedEvent {
        BrokerRecordedEvent::DividendPaid(self)
    }

    fn into_broker_event(self) -> (r: BrokerRecordedEvent) {
        BrokerRecordedEvent::DividendPaid(self)
    }
}

impl IntoBrokerEvent for BrokerRecordedEvent {
    open spec fn as_event(self) -> BrokerRecordedEvent {
        self
    }

    fn into_broker_event(self) -> (r: BrokerRecordedEvent) {
        self
    }
}

/// An exact price per unit, kept as the ratio `num / den` so that the
/// weighted average needs no rounding. `den` is never zero.
#[derive(Clone, Copy, Debug, PartialEq, Eq, Structural)]
pub struct Price {
    pub num: i128,
    pub den: i128,
}

impl Price {
    /// A price is well formed when its denominator is nonzero.
    pub open spec fn wf(self) -> bool {
        self.den != 0
    }
}

} // verus!
