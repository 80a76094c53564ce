use goose::{
    data::{Date, DateBar, MarketData, Ohlc, Price, PriceAdjust, Quantity},
    engine::{
        Account, BTEngine, Broker, EquityLogger, Event, FillEvent, Logger, MarketEvent,
        OpenPriceBroker, Order, SymbolMap,
    },
    error::{BacktestError, Error},
    strat::Strategy,
};
use std::{cell::RefCell, rc::Rc};

fn price(value: &str) -> Price {
    value.parse().unwrap()
}

fn quantity(value: &str) -> Quantity {
    value.parse().unwrap()
}

fn date(value: &str) -> Date {
    value.parse().unwrap()
}

fn bar(symbol: &str, date: &str, open: &str, close: &str) -> DateBar {
    let volume = quantity("1000");
    DateBar::new(
        symbol,
        date.parse().unwrap(),
        Ohlc::new(
            PriceAdjust::Raw,
            Some(price(open)),
            Some(price(open).max(price(close))),
            Some(price(open).min(price(close))),
            Some(price(close)),
        )
        .unwrap(),
        Some(volume),
        Some(price(close).checked_mul_quantity(volume).unwrap()),
    )
    .unwrap()
}

/// Trading days and bars held in memory.
struct MemoryData {
    calendar: Vec<(Date, bool)>,
    bars: Vec<DateBar>,
}

impl MarketData for MemoryData {
    fn get_trading_days(&mut self, start: &Date, end: &Date) -> Result<Vec<Date>, Error> {
        let mut days: Vec<Date> = self
            .calendar
            .iter()
            .filter(|(d, open)| *open && start <= d && d <= end)
            .map(|(d, _)| *d)
            .collect();
        days.sort();
        Ok(days)
    }

    fn get_cross_section(&mut self, date: &Date) -> Result<SymbolMap<DateBar>, Error> {
        let mut section = SymbolMap::new();
        for bar in self.bars.iter().filter(|b| b.date == *date) {
            section.insert(bar.symbol.clone(), bar.clone());
        }
        Ok(section)
    }
}

fn market() -> MemoryData {
    MemoryData {
        calendar: vec![
            (date("2026-06-12"), true),
            (date("2026-06-13"), false),
            (date("2026-06-15"), true),
        ],
        bars: vec![
            bar("AAPL", "2026-06-12", "10.0000", "12.0000"),
            bar("AAPL", "2026-06-15", "12.0000", "13.0000"),
        ],
    }
}

#[test]
fn apply_fill_updates_cash_and_position_for_buys_and_sells() {
    let mut account = Account::new(price("100.0000"));

    account
        .apply_fill(
            "AAPL".into(),
            price("10.0000"),
            quantity("5.0000"),
            price("1.0000"),
        )
        .unwrap();
    assert_eq!(account.cash(), price("49.0000"));
    assert_eq!(account.position("AAPL"), quantity("5.0000"));

    account
        .apply_fill(
            "AAPL".into(),
            price("10.0000"),
            quantity("-2.0000"),
            price("1.0000"),
        )
        .unwrap();
    assert_eq!(account.cash(), price("68.0000"));
    assert_eq!(account.position("AAPL"), quantity("3.0000"));
}

#[test]
fn apply_fill_allows_negative_cash_for_broker_approved_fills() {
    let mut account = Account::new(price("100.0000"));

    account
        .apply_fill(
            "AAPL".into(),
            price("20.0000"),
            quantity("5.0000"),
            price("1.0000"),
        )
        .unwrap();

    assert_eq!(account.cash(), price("-1.0000"));
    assert_eq!(account.position("AAPL"), quantity("5.0000"));
}

#[test]
fn apply_fill_fails_atomically() {
    let mut account = Account::new(Price::from_units(i64::MIN + 5));
    let result = account.apply_fill("AAPL".into(), price("1.0000"), quantity("1.0000"), price("0"));
    assert!(matches!(result, Err(Error::Backtest(BacktestError::CashOverflow))));
    assert_eq!(account.cash(), Price::from_units(i64::MIN + 5));
    assert_eq!(account.position("AAPL"), quantity("0"));

    let mut account = Account::new(price("0"));
    account
        .change_position("MSFT".into(), Quantity::from_units(i64::MAX))
        .unwrap();
    let result = account.apply_fill("MSFT".into(), price("0"), quantity("0.0001"), price("0"));
    match result {
        Err(Error::Backtest(BacktestError::PositionOverflow { symbol })) => assert_eq!(symbol, "MSFT"),
        other => panic!("unexpected {other:?}"),
    }
    assert_eq!(account.position("MSFT"), Quantity::from_units(i64::MAX));
}

struct BuyOnce {
    bought: bool,
}

impl Strategy for BuyOnce {
    fn on_market(&mut self, market_event: &MarketEvent, _account: &Account) -> Order {
        if self.bought {
            return Order {
                order: SymbolMap::new(),
            };
        }

        let MarketEvent::Open(open) = market_event else {
            return Order {
                order: SymbolMap::new(),
            };
        };

        let Some((_date, Some(open_price))) = open.get("AAPL") else {
            return Order {
                order: SymbolMap::new(),
            };
        };

        self.bought = true;
        let mut order = SymbolMap::new();
        order.insert("AAPL".into(), (*open_price, quantity("1.0000")));
        Order { order }
    }
}

struct FillAllBroker;

impl Broker for FillAllBroker {
    fn on_order(&mut self, order: &Order, _account: &mut Account) -> Event {
        let mut fills = SymbolMap::new();
        for i in 0..order.order.len() {
            let (symbol, (fill_price, quantity)) = order.order.entry(i);
            fills.insert(symbol.clone(), (*fill_price, *quantity, price("0.0000")));
        }
        Event::Fill(FillEvent::Succeed(fills))
    }

    fn preview(&mut self, _market: &MarketEvent) {}
}

#[derive(Clone, Default)]
struct EventLog(Rc<RefCell<Vec<Event>>>);

impl Logger for EventLog {
    fn log(&mut self, event: &Event) {
        self.0.borrow_mut().push(event.clone());
    }
}

#[test]
fn engine_runs_a_minimal_open_fill_close_backtest_pipeline() {
    let mut database = market();

    let event_log = EventLog::default();
    let events = event_log.0.clone();
    let mut engine = BTEngine::new(
        price("100.0000"),
        FillAllBroker,
        BuyOnce { bought: false },
        event_log,
    );

    engine
        .run(date("2026-06-12"), date("2026-06-15"), &mut database)
        .unwrap();

    let events = events.borrow();
    assert!(events.iter().any(|event| matches!(event, Event::Fill(_))));
    assert!(
        events
            .iter()
            .filter(|event| matches!(event, Event::Market(MarketEvent::Close(_))))
            .count()
            == 2
    );
}

#[test]
fn engine_hands_each_day_to_the_logger_in_order() {
    let mut database = market();
    let event_log = EventLog::default();
    let events = event_log.0.clone();
    let mut engine = BTEngine::new(
        price("100.0000"),
        FillAllBroker,
        BuyOnce { bought: false },
        event_log,
    );
    engine
        .run(date("2026-06-01"), date("2026-06-30"), &mut database)
        .unwrap();
    let kinds: Vec<&str> = events
        .borrow()
        .iter()
        .map(|e| match e {
            Event::System(_) => "system",
            Event::Market(MarketEvent::Preview(_)) => "preview",
            Event::Market(MarketEvent::Open(_)) => "open",
            Event::Market(MarketEvent::Close(_)) => "close",
            Event::Order(_) => "order",
            Event::Fill(_) => "fill",
        })
        .collect();
    assert_eq!(
        kinds,
        vec![
            "system", "preview", "open", "order", "fill", "close", "preview", "open", "order",
            "fill", "close", "system"
        ]
    );
    let logged = events.borrow();
    match &logged[2] {
        Event::Market(MarketEvent::Open(open)) => {
            assert_eq!(open.get("AAPL").unwrap().0, date("2026-06-12"));
            assert_eq!(open.get("AAPL").unwrap().1, Some(price("10.0000")));
        }
        _ => panic!("the third event is not an open"),
    };
}

#[test]
fn engine_without_trading_days_does_nothing() {
    let mut database = market();
    let event_log = EventLog::default();
    let events = event_log.0.clone();
    let mut engine = BTEngine::new(price("1"), FillAllBroker, BuyOnce { bought: false }, event_log);
    engine
        .run(date("2026-06-13"), date("2026-06-14"), &mut database)
        .unwrap();
    assert!(events.borrow().is_empty());
}

#[test]
fn open_price_broker_fills_at_the_open_with_commission() {
    let mut broker = OpenPriceBroker::new(quantity("0.1"), false, false);
    let mut section = SymbolMap::new();
    section.insert("AAPL".to_string(), bar("AAPL", "2026-06-12", "10.0000", "12.0000"));
    broker.preview(&MarketEvent::Preview(section));

    let mut account = Account::new(price("100.0000"));
    let mut order = SymbolMap::new();
    order.insert("AAPL".to_string(), (price("11.0000"), quantity("2.0000")));
    order.insert("MSFT".to_string(), (price("11.0000"), quantity("2.0000")));
    match broker.on_order(&Order { order }, &mut account) {
        Event::Fill(FillEvent::Succeed(fills)) => {
            assert_eq!(fills.len(), 1);
            let (fill_price, fill_quantity, commission) = fills.get("AAPL").unwrap();
            assert_eq!(*fill_price, price("10.0000"));
            assert_eq!(*fill_quantity, quantity("2.0000"));
            assert_eq!(*commission, price("1.0000"));
        }
        _ => panic!("the order was not filled"),
    }

    let mut short = SymbolMap::new();
    short.insert("AAPL".to_string(), (price("10.0000"), quantity("-1.0000")));
    assert!(matches!(
        broker.on_order(&Order { order: short }, &mut account),
        Event::Fill(FillEvent::Reject)
    ));

    let mut too_big = SymbolMap::new();
    too_big.insert("AAPL".to_string(), (price("10.0000"), quantity("10.0000")));
    assert!(matches!(
        broker.on_order(&Order { order: too_big }, &mut account),
        Event::Fill(FillEvent::Reject)
    ));
}

#[test]
fn equity_logger_tracks_fills_and_records_closes() {
    let mut logger = EquityLogger::new();
    let mut fills = SymbolMap::new();
    fills.insert("AAPL".to_string(), (price("10.0000"), quantity("2.0000"), price("1.0000")));
    logger.log(&Event::Fill(FillEvent::Succeed(fills)));

    let mut section = SymbolMap::new();
    section.insert("AAPL".to_string(), bar("AAPL", "2026-06-15", "12.0000", "13.0000"));
    logger.log(&Event::Market(MarketEvent::Close(section)));

    let mut earlier = SymbolMap::new();
    earlier.insert("AAPL".to_string(), bar("AAPL", "2026-06-12", "10.0000", "12.0000"));
    logger.log(&Event::Market(MarketEvent::Close(earlier)));

    let curve = logger.equity_curve();
    assert_eq!(curve.len(), 2);
    assert_eq!(curve[0].0, date("2026-06-12"));
    assert_eq!(curve[1].0, date("2026-06-15"));
    assert_eq!(curve[1].1.cash, price("-21.0000"));
    assert_eq!(curve[1].1.equity, price("5.0000"));
    assert_eq!(curve[0].1.equity, price("3.0000"));
}

#[test]
fn a_fill_and_its_reverse_cancel_out() {
    let mut account = Account::new(price("50.0000"));
    account
        .change_position("MSFT".into(), quantity("4.0000"))
        .unwrap();
    account
        .apply_fill("MSFT".into(), price("12.3400"), quantity("1.5000"), price("0"))
        .unwrap();
    assert_eq!(account.cash(), price("31.4900"));
    assert_eq!(account.position("MSFT"), quantity("5.5000"));
    account
        .apply_fill("MSFT".into(), price("12.3400"), quantity("-1.5000"), price("0"))
        .unwrap();
    assert_eq!(account.cash(), price("50.0000"));
    assert_eq!(account.position("MSFT"), quantity("4.0000"));
}

#[test]
fn open_price_broker_fills_within_the_range_of_the_day() {
    let mut broker = OpenPriceBroker::new(quantity("0"), true, true);
    let day = bar("AAPL", "2026-06-15", "12.5000", "11.0000");
    let (low, high) = (day.ohlc.low.unwrap(), day.ohlc.high.unwrap());
    let mut section = SymbolMap::new();
    section.insert("AAPL".to_string(), day);
    broker.preview(&MarketEvent::Preview(section));
    let mut order = SymbolMap::new();
    order.insert("AAPL".to_string(), (price("99.0000"), quantity("-3.0000")));
    let mut account = Account::new(price("0"));
    match broker.on_order(&Order { order }, &mut account) {
        Event::Fill(FillEvent::Succeed(fills)) => {
            let (fill_price, _, _) = fills.get("AAPL").unwrap();
            assert!(low <= *fill_price && *fill_price <= high);
            assert_eq!(*fill_price, price("12.5000"));
        }
        _ => panic!("the order was not filled"),
    }
}

#[test]
fn engine_replays_the_given_days_and_cross_sections() {
    let days = vec![date("2026-06-12"), date("2026-06-15")];
    let mut first = SymbolMap::new();
    first.insert("AAPL".to_string(), bar("AAPL", "2026-06-12", "10.0000", "12.0000"));
    let mut second = SymbolMap::new();
    second.insert("AAPL".to_string(), bar("AAPL", "2026-06-15", "12.0000", "13.0000"));

    let event_log = EventLog::default();
    let events = event_log.0.clone();
    let mut engine = BTEngine::new(
        price("100.0000"),
        FillAllBroker,
        BuyOnce { bought: false },
        event_log,
    );
    engine.replay(&days, vec![first, second]).unwrap();

    let logged = events.borrow();
    assert_eq!(logged.len(), 12);
    assert!(matches!(logged[0], Event::System(_)));
    match &logged[4] {
        Event::Fill(FillEvent::Succeed(fills)) => {
            let (fill_price, fill_quantity, commission) = fills.get("AAPL").unwrap();
            assert_eq!(*fill_price, price("10.0000"));
            assert_eq!(*fill_quantity, quantity("1.0000"));
            assert_eq!(*commission, price("0.0000"));
        }
        _ => panic!("the fifth event is not a fill"),
    }
    match &logged[10] {
        Event::Market(MarketEvent::Close(section)) => {
            assert_eq!(section.get("AAPL").unwrap().date, date("2026-06-15"));
        }
        _ => panic!("the eleventh event is not a close"),
    }
    assert!(matches!(logged[11], Event::System(_)));
}
