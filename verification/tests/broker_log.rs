use broker_ledger::broker::events::{BrokerRecordedEvent, DividendPayment, Trade, TradeType};
use broker_ledger::broker::record::BrokerLog;

fn setup() -> BrokerLog {
    let mut rec = BrokerLog::new();

    let t1 = Trade::new("ABC", 100, 10, 100, TradeType::Buy);
    let t2 = Trade::new("ABC", 500, 90, 101, TradeType::Buy);
    let t3 = Trade::new("BCD", 100, 100, 102, TradeType::Buy);
    let t4 = Trade::new("BCD", 500, 100, 103, TradeType::Sell);
    let t5 = Trade::new("BCD", 50, 50, 104, TradeType::Buy);

    rec.record(t1);
    rec.record(t2);
    rec.record(t3);
    rec.record(t4);
    rec.record(t5);
    rec
}

#[test]
fn test_that_log_filters_trades_between_dates() {
    let log = setup();
    let between = log.trades_between(&102, &104);
    assert!(between.len() == 3);
}

#[test]
fn test_that_log_calculates_the_cost_basis() {
    let log = setup();
    let abc_cost = log.cost_basis("ABC").unwrap();
    let bcd_cost = log.cost_basis("BCD").unwrap();

    assert_eq!(abc_cost.num as f64 / abc_cost.den as f64, 6.0);
    assert_eq!(bcd_cost.num as f64 / bcd_cost.den as f64, 1.0);
}

#[test]
fn test_weighted_average_formula() {
    // Two buys of the same symbol: the basis is the exact ratio of summed
    // value to summed quantity, (100 + 500) / (100 + 101).
    let mut rec = BrokerLog::new();
    rec.record(Trade::new("ABC", 100, 100, 1, TradeType::Buy));
    rec.record(Trade::new("ABC", 500, 101, 2, TradeType::Buy));
    let cost = rec.cost_basis("ABC").unwrap();
    assert_eq!(cost.num, 600);
    assert_eq!(cost.den, 201);
    assert_eq!(cost.num as f64 / cost.den as f64, 600.0 / 201.0);
}

#[test]
fn test_position_closure_resets_basis() {
    // Closing the position to exactly zero resets the accumulated value, so
    // a reopened position starts a fresh average.
    let mut rec = BrokerLog::new();
    rec.record(Trade::new("BCD", 100, 100, 1, TradeType::Buy));
    rec.record(Trade::new("BCD", 500, 100, 2, TradeType::Sell));
    rec.record(Trade::new("BCD", 50, 50, 3, TradeType::Buy));
    let cost = rec.cost_basis("BCD").unwrap();
    assert_eq!(cost.num, 50);
    assert_eq!(cost.den, 50);
    assert_eq!(cost.num as f64 / cost.den as f64, 1.0);
}

#[test]
fn test_flat_and_unknown_symbols_have_no_basis() {
    let mut rec = BrokerLog::new();
    rec.record(Trade::new("BCD", 100, 100, 1, TradeType::Buy));
    rec.record(Trade::new("BCD", 500, 100, 2, TradeType::Sell));
    // A fully closed position and a never-traded symbol are both absent.
    assert!(rec.cost_basis("BCD").is_none());
    assert!(rec.cost_basis("XYZ").is_none());
    // An empty ledger has no basis for anything either.
    let empty = BrokerLog::new();
    assert!(empty.cost_basis("BCD").is_none());
}

#[test]
fn test_trades_and_dividends_split_the_history() {
    let mut rec = BrokerLog::new();
    rec.record(Trade::new("ABC", 100, 10, 1, TradeType::Buy));
    rec.record(DividendPayment::new("ABC", 25, 2));
    rec.record(Trade::new("DEF", 200, 20, 3, TradeType::Sell));
    rec.record(DividendPayment::new("DEF", 75, 4));

    let trades = rec.trades();
    let dividends = rec.dividends();
    assert_eq!(trades.len(), 2);
    assert_eq!(dividends.len(), 2);
    assert_eq!(trades.len() + dividends.len(), 4);

    // Insertion order is preserved within each view.
    assert_eq!(trades[0].symbol, "ABC");
    assert_eq!(trades[0].value, 100);
    assert_eq!(trades[0].typ, TradeType::Buy);
    assert_eq!(trades[1].symbol, "DEF");
    assert_eq!(trades[1].typ, TradeType::Sell);
    assert_eq!(dividends[0].symbol, "ABC");
    assert_eq!(dividends[0].amount, 25);
    assert_eq!(dividends[1].symbol, "DEF");
    assert_eq!(dividends[1].amount, 75);
}

#[test]
fn test_record_accepts_tagged_events() {
    let mut rec = BrokerLog::new();
    let trade = Trade::new("ABC", 100, 10, 1, TradeType::Buy);
    rec.record(BrokerRecordedEvent::TradeCompleted(trade));
    let dividend = DividendPayment::new("ABC", 5, 2);
    rec.record(BrokerRecordedEvent::DividendPaid(dividend));
    assert_eq!(rec.trades().len(), 1);
    assert_eq!(rec.dividends().len(), 1);
}

#[test]
fn test_window_boundaries_are_inclusive() {
    let mut rec = BrokerLog::new();
    rec.record(Trade::new("ABC", 1, 1, 99, TradeType::Buy));
    rec.record(Trade::new("ABC", 2, 1, 100, TradeType::Buy));
    rec.record(Trade::new("ABC", 3, 1, 105, TradeType::Buy));
    rec.record(Trade::new("ABC", 4, 1, 110, TradeType::Buy));
    rec.record(Trade::new("ABC", 5, 1, 111, TradeType::Buy));

    let between = rec.trades_between(&100, &110);
    // Events exactly at the bounds are kept; one unit outside is not.
    assert_eq!(between.len(), 3);
    assert_eq!(between[0].date, 100);
    assert_eq!(between[1].date, 105);
    assert_eq!(between[2].date, 110);
}

#[test]
fn test_inverted_window_is_empty() {
    let log = setup();
    let between = log.trades_between(&104, &102);
    assert!(between.is_empty());
}

#[test]
fn test_widening_the_window_keeps_every_trade() {
    let log = setup();
    let narrow = log.trades_between(&102, &103);
    let wide = log.trades_between(&100, &104);
    let all = log.trades();
    assert_eq!(narrow.len(), 2);
    for t in &narrow {
        assert!(wide.iter().any(|w| w.date == t.date && w.symbol == t.symbol));
    }
    assert_eq!(wide.len(), all.len());
}

#[test]
fn test_dividends_between_dates() {
    let mut rec = BrokerLog::new();
    rec.record(DividendPayment::new("ABC", 10, 100));
    rec.record(DividendPayment::new("ABC", 20, 101));
    rec.record(DividendPayment::new("DEF", 30, 105));
    rec.record(Trade::new("ABC", 1, 1, 101, TradeType::Buy));

    let between = rec.dividends_between(&101, &105);
    assert_eq!(between.len(), 2);
    assert_eq!(between[0].amount, 20);
    assert_eq!(between[1].amount, 30);
}

#[test]
fn test_default_log_is_empty() {
    let log = BrokerLog::default();
    assert!(log.trades().is_empty());
    assert!(log.dividends().is_empty());
    assert!(log.trades_between(&0, &1000).is_empty());
    assert!(log.cost_basis("ABC").is_none());
}

#[test]
fn test_clone_preserves_the_history() {
    let log = setup();
    let copy = log.clone();
    assert_eq!(copy.trades().len(), log.trades().len());
    let a = copy.cost_basis("ABC").unwrap();
    let b = log.cost_basis("ABC").unwrap();
    assert_eq!(a.num, b.num);
    assert_eq!(a.den, b.den);
}

#[test]
fn test_symbol_match_is_exact() {
    let mut rec = BrokerLog::new();
    rec.record(Trade::new("abc", 100, 10, 1, TradeType::Buy));
    // Case differs: no trade matches the upper-case symbol.
    assert!(rec.cost_basis("ABC").is_none());
    let cost = rec.cost_basis("abc").unwrap();
    assert_eq!(cost.num, 100);
    assert_eq!(cost.den, 10);
}
