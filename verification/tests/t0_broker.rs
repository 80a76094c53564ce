use goose::{
    backtest::{ClockEvent, Event, FillEvent, OrderEvent, T0Broker},
    data::{Date, Decimal},
    error::Error,
};
use uuid::Uuid;

fn date(value: &str) -> Date {
    value.parse().unwrap()
}

fn broker() -> T0Broker {
    T0Broker::new(date("2024-01-02"), Decimal::new(1, 3), Decimal::new(1, 2)).unwrap()
}

fn sell(amount: Decimal, price: Decimal) -> Event {
    Event::Order(OrderEvent::Sell { id: Uuid::nil(), ts: date("2024-01-03"), amount, price })
}

fn buy(amount: Decimal, price: Decimal) -> Event {
    Event::Order(OrderEvent::Buy { id: Uuid::nil(), ts: date("2024-01-03"), amount, price })
}

fn data_error<T>(r: Result<T, Error>) -> String {
    match r {
        Err(Error::InvalidData(m)) => m,
        _ => panic!("expected a data error"),
    }
}

fn only_fill(events: Vec<Event>) -> (OrderEvent, Date, Decimal, Decimal, Decimal) {
    assert_eq!(events.len(), 1);
    match events.into_iter().next().unwrap() {
        Event::Fill(FillEvent::Sell { order, ts, amount, price, commision }) => {
            (order, ts, amount, price, commision)
        }
        _ => panic!("expected a fill of kind Sell"),
    }
}

#[test]
fn t0_broker_refuses_rates_out_of_range() {
    let start = date("2024-01-02");
    let ok = Decimal::new(1, 2);
    assert_eq!(
        data_error(T0Broker::new(start, Decimal::new(-1, 3), ok)),
        "commision_rate must be non-negative"
    );
    assert_eq!(
        data_error(T0Broker::new(start, Decimal::new(1, 0), ok)),
        "commision_rate must be less than 1"
    );
    assert_eq!(
        data_error(T0Broker::new(start, Decimal::new(10000, 4), ok)),
        "commision_rate must be less than 1"
    );
    assert_eq!(
        data_error(T0Broker::new(start, ok, Decimal::new(-1, 2))),
        "slippage_rate must be non-negative"
    );
    assert_eq!(
        data_error(T0Broker::new(start, ok, Decimal::new(15, 1))),
        "slippage_rate must be less than 1"
    );
    assert_eq!(
        data_error(T0Broker::new(start, Decimal::new(2, 0), Decimal::new(2, 0))),
        "commision_rate must be less than 1"
    );
    assert!(T0Broker::new(start, Decimal::new(0, 0), Decimal::new(9999, 4)).is_ok());
}

#[test]
fn t0_broker_fills_a_sale_above_the_price() {
    let mut b = broker();
    let opened = b.on_event(Event::Clock(ClockEvent::Open(date("2024-01-03")))).unwrap();
    assert!(opened.is_empty());
    let fills = b.on_event(sell(Decimal::new(100, 0), Decimal::new(10, 0))).unwrap();
    let (order, ts, amount, price, commision) = only_fill(fills);
    assert!(matches!(order, OrderEvent::Sell { .. }));
    assert_eq!(ts, date("2024-01-03"));
    assert_eq!(amount, Decimal::new(100, 0));
    assert_eq!(price.to_string(), "10.10");
    assert_eq!(commision.to_string(), "1.01000");
}

#[test]
fn t0_broker_fills_a_purchase_below_the_price() {
    let mut b = broker();
    let fills = b.on_event(buy(Decimal::new(100, 0), Decimal::new(10, 0))).unwrap();
    let (order, ts, amount, price, commision) = only_fill(fills);
    assert!(matches!(order, OrderEvent::Buy { .. }));
    assert_eq!(ts, date("2024-01-02"));
    assert_eq!(amount, Decimal::new(100, 0));
    assert_eq!(price.to_string(), "9.90");
    assert_eq!(commision.to_string(), "0.99000");
}

#[test]
fn t0_broker_close_keeps_the_day() {
    let mut b = broker();
    b.on_event(Event::Clock(ClockEvent::Open(date("2024-01-05")))).unwrap();
    let closed = b.on_event(Event::Clock(ClockEvent::Close(date("2024-01-08")))).unwrap();
    assert!(closed.is_empty());
    let (_, ts, _, _, _) = only_fill(b.on_event(sell(Decimal::new(1, 0), Decimal::new(1, 0))).unwrap());
    assert_eq!(ts, date("2024-01-05"));
}

#[test]
fn t0_broker_reports_overflow() {
    let mut b = broker();
    let huge = Decimal::from_i128_with_scale(79228162514264337593543950335, 0);
    assert_eq!(
        data_error(b.on_event(sell(Decimal::new(1, 0), huge))),
        "multiplication overflow"
    );
    let mut flat = T0Broker::new(date("2024-01-02"), Decimal::new(1, 3), Decimal::new(0, 0)).unwrap();
    assert_eq!(
        data_error(flat.on_event(sell(huge, Decimal::new(10, 0)))),
        "multiplicaion overflow"
    );
}
