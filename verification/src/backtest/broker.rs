use vstd::prelude::*;

use crate::backtest::event::{ClockEvent, Event, FillEvent, OrderEvent};
use crate::data::decimal::{
    decimal_add, decimal_mul, decimal_sub, lemma_pow10_add, lemma_pow10_positive,
    outside_checked_add, outside_checked_mul, outside_checked_sub, pow10, MAX_SCALE,
};
use crate::data::{Date, Decimal};
use crate::error::Error;

verus! {

/// Whether a decimal, as mantissa and scale, is at least one.
pub open spec fn at_least_one(d: (int, nat)) -> bool {
    d.0 >= pow10(d.1)
}

/// Why a commission rate and a slippage rate cannot make a broker, if they
/// cannot: each must be at least zero and below one, the commission rate
/// checked first.
pub open spec fn rates_refusal(commision_rate: (int, nat), slippage_rate: (int, nat)) -> Option<
    Seq<char>,
> {
    if commision_rate.0 < 0 {
        Some("commision_rate must be non-negative"@)
    } else if at_least_one(commision_rate) {
        Some("commision_rate must be less than 1"@)
    } else if slippage_rate.0 < 0 {
        Some("slippage_rate must be non-negative"@)
    } else if at_least_one(slippage_rate) {
        Some("slippage_rate must be less than 1"@)
    } else {
        None
    }
}

/// The price at which an order is filled: the order's price times one plus
/// the slippage rate for a sale, times one minus it for a purchase, by the
/// decimal arithmetic of `rust_decimal`; or why it cannot be computed.
pub open spec fn slipped_price(is_sell: bool, slippage_rate: (int, nat), price: (int, nat)) -> Result<
    (int, nat),
    Seq<char>,
> {
    let factor = if is_sell {
        decimal_add((1int, 0nat), slippage_rate)
    } else {
        decimal_sub((1int, 0nat), slippage_rate)
    };
    match factor {
        None => Err(
            if is_sell {
                "add overflow"@
            } else {
                "sub underflow"@
            },
        ),
        Some(f) => match decimal_mul(price, f) {
            None => Err("multiplication overflow"@),
            Some(p) => Ok(p),
        },
    }
}

/// The commission of a fill: the rate times the price times the amount, by
/// the decimal arithmetic of `rust_decimal`; or why it cannot be computed.
pub open spec fn commission_of(commision_rate: (int, nat), price: (int, nat), amount: (int, nat)) -> Result<
    (int, nat),
    Seq<char>,
> {
    match decimal_mul(price, amount) {
        None => Err("multiplicaion overflow"@),
        Some(x) => match decimal_mul(commision_rate, x) {
            None => Err("multiplicaion overflow"@),
            Some(c) => Ok(c),
        },
    }
}

/// The fill price and the commission of an order, or why they cannot be
/// computed.
pub open spec fn order_fill(
    is_sell: bool,
    commision_rate: (int, nat),
    slippage_rate: (int, nat),
    price: (int, nat),
    amount: (int, nat),
) -> Result<((int, nat), (int, nat)), Seq<char>> {
    match slipped_price(is_sell, slippage_rate, price) {
        Err(e) => Err(e),
        Ok(p) => match commission_of(commision_rate, p, amount) {
            Err(e) => Err(e),
            Ok(c) => Ok((p, c)),
        },
    }
}

/// The amount and the price of an order, and whether it sells.
pub open spec fn order_terms(order: OrderEvent) -> (bool, Decimal, Decimal) {
    match order {
        OrderEvent::Sell { amount, price, .. } => (true, amount, price),
        OrderEvent::Buy { amount, price, .. } => (false, amount, price),
    }
}

/// Whether `e` is a fill of kind `Sell` of `order` on the day `ts`, for
/// `amount`, at the price `price` and with the commission `commision`.
pub open spec fn is_sell_fill(
    e: Event,
    order: OrderEvent,
    ts: Date,
    amount: Decimal,
    price: (int, nat),
    commision: (int, nat),
) -> bool {
    &&& e matches Event::Fill(FillEvent::Sell { order: o, ts: t, amount: a, price: p, commision: c })
    &&& o == order
    &&& t == ts
    &&& a == amount
    &&& p@ == price
    &&& c@ == commision
}

/// Whether `r` holds exactly the error of `reason`.
pub open spec fn is_data_error<T>(r: Result<T, Error>, reason: Seq<char>) -> bool {
    r matches Err(Error::InvalidData(m)) && m@ == reason
}

/// Whether a decimal is below zero.
fn below_zero(d: Decimal) -> (r: bool)
    ensures
        r == (d@.0 < 0),
{
    d.mantissa() < 0
}

/// Whether a decimal is at least one.
fn is_at_least_one(d: Decimal) -> (r: bool)
    ensures
        r == at_least_one(d@),
{
    let s = d.scale();
    let m = d.mantissa();
    let mut p: i128 = 1;
    let mut i: u32 = 0;
    proof {
        assert(pow10(27) == 1000000000000000000000000000) by {
            reveal_with_fuel(pow10, 28);
        }
        assert(pow10(0) == 1);
    }
    while i < s
        invariant
            i <= s,
            s <= MAX_SCALE,
            p == pow10(i as nat),
            pow10(27) == 1000000000000000000000000000,
        decreases s - i,
    {
        proof {
            lemma_pow10_add(i as nat, (27 - i) as nat);
            lemma_pow10_positive((27 - i) as nat);
            lemma_pow10_positive(i as nat);
            assert(pow10(i as nat) <= 1000000000000000000000000000) by (nonlinear_arith)
                requires
                    pow10(i as nat) * pow10((27 - i) as nat) == 1000000000000000000000000000,
                    pow10((27 - i) as nat) >= 1,
                    pow10(i as nat) > 0,
            ;
            assert(pow10((i + 1) as nat) == 10 * pow10(i as nat));
        }
        p = p * 10;
        i = i + 1;
    }
    m >= p
}

/// A broker that fills every order on the day it is placed, at the order's
/// price moved by a slippage rate, and charges a commission rate on the value
/// of the fill.
pub struct T0Broker {
    date: Date,
    commision_rate: Decimal,
    slippage_rate: Decimal,
}

impl T0Broker {
    /// The day of the fills.
    pub closed spec fn spec_date(&self) -> Date {
        self.date
    }

    /// The commission rate.
    pub closed spec fn spec_commision_rate(&self) -> (int, nat) {
        self.commision_rate@
    }

    /// The slippage rate.
    pub closed spec fn spec_slippage_rate(&self) -> (int, nat) {
        self.slippage_rate@
    }

    /// A broker that fills from the day `start`, when both rates are at least
    /// zero and below one.
    pub fn new(start: Date, commision_rate: Decimal, slippage_rate: Decimal) -> (r: Result<
        Self,
        Error,
    >)
        ensures
            match rates_refusal(commision_rate@, slippage_rate@) {
                Some(reason) => is_data_error(r, reason),
                None => r matches Ok(b) && b.spec_date() == start && b.spec_commision_rate()
                    == commision_rate@ && b.spec_slippage_rate() == slippage_rate@,
            },
    {
        if below_zero(commision_rate) {
            return Err(Error::InvalidData("commision_rate must be non-negative".to_string()));
        }
        if is_at_least_one(commision_rate) {
            return Err(Error::InvalidData("commision_rate must be less than 1".to_string()));
        }
        if below_zero(slippage_rate) {
            return Err(Error::InvalidData("slippage_rate must be non-negative".to_string()));
        }
        if is_at_least_one(slippage_rate) {
            return Err(Error::InvalidData("slippage_rate must be less than 1".to_string()));
        }
        Ok(T0Broker { date: start, commision_rate, slippage_rate })
    }

    /// The commission on a fill of `amount` at `price`.
    fn commision(&self, price: Decimal, amount: Decimal) -> (r: Result<Decimal, Error>)
        ensures
            match commission_of(self.commision_rate@, price@, amount@) {
                Ok(c) => r matches Ok(x) && x@ == c,
                Err(reason) => is_data_error(r, reason),
            },
    {
        match outside_checked_mul(price, amount) {
            Some(x) => match outside_checked_mul(self.commision_rate, x) {
                Some(c) => Ok(c),
                None => Err(Error::InvalidData("multiplicaion overflow".to_string())),
            },
            None => Err(Error::InvalidData("multiplicaion overflow".to_string())),
        }
    }

    /// The price of a fill after slippage: up for a sale, down for a purchase.
    fn slippage(&self, is_sell: bool, price: Decimal) -> (r: Result<Decimal, Error>)
        ensures
            match slipped_price(is_sell, self.slippage_rate@, price@) {
                Ok(p) => r matches Ok(x) && x@ == p,
                Err(reason) => is_data_error(r, reason),
            },
    {
        let factor = if is_sell {
            match outside_checked_add(Decimal::new(1, 0), self.slippage_rate) {
                Some(x) => x,
                None => {
                    return Err(Error::InvalidData("add overflow".to_string()));
                },
            }
        } else {
            match outside_checked_sub(Decimal::new(1, 0), self.slippage_rate) {
                Some(x) => x,
                None => {
                    return Err(Error::InvalidData("sub underflow".to_string()));
                },
            }
        };
        match outside_checked_mul(price, factor) {
            Some(x) => Ok(x),
            None => Err(Error::InvalidData("multiplication overflow".to_string())),
        }
    }

    /// Handles a clock event or an order.
    ///
    /// The opening of a day makes it the day of the fills; its close changes
    /// nothing. An order is answered with one fill of kind `Sell`, for an
    /// order to buy as for one to sell, holding the order, the day of the
    /// fills, the order's amount, the slipped price and the commission on
    /// that price; a price or commission that cannot be computed is an error.
    pub fn on_event(&mut self, event: Event) -> (r: Result<Vec<Event>, Error>)
        requires
            event is Clock || event is Order,
        ensures
            event matches Event::Clock(ClockEvent::Open(ts)) ==> (r matches Ok(v) && v@.len() == 0
                && final(self).spec_date() == ts),
            event matches Event::Clock(ClockEvent::Close(_)) ==> (r matches Ok(v) && v@.len()
                == 0 && final(self).spec_date() == old(self).spec_date()),
            event is Order ==> final(self).spec_date() == old(self).spec_date(),
            final(self).spec_commision_rate() == old(self).spec_commision_rate(),
            final(self).spec_slippage_rate() == old(self).spec_slippage_rate(),
            event matches Event::Order(order) ==> (match order_fill(
                order_terms(order).0,
                old(self).spec_commision_rate(),
                old(self).spec_slippage_rate(),
                order_terms(order).2@,
                order_terms(order).1@,
            ) {
                Err(reason) => is_data_error(r, reason),
                Ok((p, c)) => r matches Ok(v) && v@.len() == 1 && is_sell_fill(
                    v@[0],
                    order,
                    old(self).spec_date(),
                    order_terms(order).1,
                    p,
                    c,
                ),
            }),
    {
        match event {
            Event::Clock(ClockEvent::Open(ts)) => {
                self.date = ts;
            },
            Event::Clock(ClockEvent::Close(_)) => {},
            Event::Order(order) => {
                let (is_sell, amount, price) = match order {
                    OrderEvent::Sell { amount, price, .. } => (true, amount, price),
                    OrderEvent::Buy { amount, price, .. } => (false, amount, price),
                };
                let price = self.slippage(is_sell, price)?;
                let commision = self.commision(price, amount)?;
                let mut fills: Vec<Event> = Vec::new();
                fills.push(
                    Event::Fill(
                        FillEvent::Sell { order, ts: self.date, amount, price, commision },
                    ),
                );
                return Ok(fills);
            },
            _ => {},
        }
        Ok(Vec::new())
    }
}

} // verus!
