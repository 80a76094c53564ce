use vstd::prelude::*;

use crate::data::decimal::{fits_i64, product_units, units_product};
use crate::data::bar::ohlc_violation;
use crate::data::{DateBar, Ohlc, Price, Quantity};
use crate::engine::engine::{held, Account};
use crate::engine::event::{Event, FillEvent, MarketEvent, Order};
use crate::engine::symbols::{index_of, keys_distinct, lemma_lookup_index, lookup, SymbolMap};

verus! {

/// A broker turns orders into fills.
///
/// A broker cannot fill an order above the high or below the low of the day,
/// so it is shown the full bars of the day before the market opens.
///
/// What a broker may answer to each order is its own description, which its
/// work leaves as it is; a broker that describes nothing may answer anything.
pub trait Broker {
    /// Whether `fill` is an answer of the broker to `order` when it is handed
    /// an account holding `cash` and `positions`.
    open spec fn spec_fill_answer(
        &self,
        order: Order,
        cash: Price,
        positions: Seq<(String, Quantity)>,
        fill: Event,
    ) -> bool {
        true
    }

    /// Answers an order with a fill event. Applying the fills to the account
    /// is the backtest's work: the broker leaves the account as it is.
    fn on_order(&mut self, order: &Order, account: &mut Account) -> (r: Event)
        ensures
            r is Fill,
            *final(account) == *old(account),
            old(self).spec_fill_answer(
                *order,
                old(account).spec_cash(),
                old(account).spec_positions(),
                r,
            ),
            forall|o: Order, c: Price, p: Seq<(String, Quantity)>, f: Event|
                #[trigger] final(self).spec_fill_answer(o, c, p, f) == old(self).spec_fill_answer(
                    o,
                    c,
                    p,
                    f,
                ),
    ;

    fn preview(&mut self, market: &MarketEvent)
        ensures
            forall|o: Order, c: Price, p: Seq<(String, Quantity)>, f: Event|
                #[trigger] final(self).spec_fill_answer(o, c, p, f) == old(self).spec_fill_answer(
                    o,
                    c,
                    p,
                    f,
                ),
    ;
}

/// The fill of one ordered symbol, as fill price, quantity and commission in
/// ten-thousandths, if the broker fills it: only at a known open price; without
/// short selling, only if the position stays non-negative; without margin, only
/// if the cash left after the trade and its commission is non-negative. A
/// symbol whose commission or trade value is not a valid price is not filled.
pub open spec fn open_price_fill(
    open_prices: Seq<(String, Price)>,
    rate: Quantity,
    allow_short: bool,
    allow_margin: bool,
    cash: Price,
    positions: Seq<(String, Quantity)>,
    symbol: Seq<char>,
    quantity: Quantity,
) -> Option<(int, int, int)> {
    match lookup(open_prices, symbol) {
        None => None,
        Some(fill_price) => {
            let next = held(positions, symbol) + quantity@;
            if !allow_short && (!fits_i64(next) || next < 0) {
                None
            } else {
                match product_units(fill_price, rate) {
                    None => None,
                    Some(commission) => {
                        if allow_margin {
                            Some((fill_price@, quantity@, commission))
                        } else {
                            match product_units(fill_price, quantity) {
                                None => None,
                                Some(value) => if !fits_i64(cash@ - value) || !fits_i64(
                                    cash@ - value - commission,
                                ) || cash@ - value - commission < 0 {
                                    None
                                } else {
                                    Some((fill_price@, quantity@, commission))
                                },
                            }
                        }
                    },
                }
            }
        },
    }
}

/// Without short selling, an order line is filled exactly when it would be
/// filled with short selling and the position it leaves, the quantity held
/// plus the quantity ordered, is a non-negative quantity: a sale of shares
/// held is filled like a purchase.
pub proof fn lemma_short_selling_rule(
    open_prices: Seq<(String, Price)>,
    rate: Quantity,
    allow_margin: bool,
    cash: Price,
    positions: Seq<(String, Quantity)>,
    symbol: Seq<char>,
    quantity: Quantity,
)
    ensures
        open_price_fill(open_prices, rate, false, allow_margin, cash, positions, symbol, quantity)
            == (if fits_i64(held(positions, symbol) + quantity@) && held(positions, symbol)
            + quantity@ >= 0 {
            open_price_fill(open_prices, rate, true, allow_margin, cash, positions, symbol, quantity)
        } else {
            None
        }),
{
}

/// An order line that is filled is filled at the open price of its symbol,
/// for the quantity ordered, with the commission rate times that price as
/// its commission; a symbol without an open price is not filled.
pub proof fn lemma_fill_at_open_price(
    open_prices: Seq<(String, Price)>,
    rate: Quantity,
    allow_short: bool,
    allow_margin: bool,
    cash: Price,
    positions: Seq<(String, Quantity)>,
    symbol: Seq<char>,
    quantity: Quantity,
)
    ensures
        lookup(open_prices, symbol) is None ==> open_price_fill(
            open_prices,
            rate,
            allow_short,
            allow_margin,
            cash,
            positions,
            symbol,
            quantity,
        ) is None,
        open_price_fill(
            open_prices,
            rate,
            allow_short,
            allow_margin,
            cash,
            positions,
            symbol,
            quantity,
        ) matches Some(f) ==> (lookup(open_prices, symbol) matches Some(p) && f == (
            p@,
            quantity@,
            units_product(p@, rate@)->0,
        )),
{
}

/// Without margin, an order line is filled exactly when it would be filled
/// with margin and the cash left after its trade value (open price times
/// quantity) and its commission is a non-negative valid price.
pub proof fn lemma_margin_rule(
    open_prices: Seq<(String, Price)>,
    rate: Quantity,
    allow_short: bool,
    cash: Price,
    positions: Seq<(String, Quantity)>,
    symbol: Seq<char>,
    quantity: Quantity,
)
    ensures
        open_price_fill(open_prices, rate, allow_short, false, cash, positions, symbol, quantity)
            == match lookup(open_prices, symbol) {
            None => None,
            Some(p) => match (units_product(p@, quantity@), units_product(p@, rate@)) {
                (Some(v), Some(m)) => if fits_i64(cash@ - v) && fits_i64(cash@ - v - m) && cash@
                    - v - m >= 0 {
                    open_price_fill(
                        open_prices,
                        rate,
                        allow_short,
                        true,
                        cash,
                        positions,
                        symbol,
                        quantity,
                    )
                } else {
                    None
                },
                _ => None,
            },
        },
{
}

/// With short selling and margin, an order line whose symbol has an open
/// price is filled whenever its commission is a valid price.
pub proof fn lemma_unrestricted_fill(
    open_prices: Seq<(String, Price)>,
    rate: Quantity,
    cash: Price,
    positions: Seq<(String, Quantity)>,
    symbol: Seq<char>,
    quantity: Quantity,
)
    ensures
        (lookup(open_prices, symbol) matches Some(p) && units_product(p@, rate@) is Some)
            ==> open_price_fill(open_prices, rate, true, true, cash, positions, symbol, quantity)
            is Some,
{
}

/// The fills of the ordered symbols, in order, each as its symbol and fill.
pub open spec fn open_price_fills(
    open_prices: Seq<(String, Price)>,
    rate: Quantity,
    allow_short: bool,
    allow_margin: bool,
    cash: Price,
    positions: Seq<(String, Quantity)>,
    orders: Seq<(String, (Price, Quantity))>,
) -> Seq<(Seq<char>, (int, int, int))>
    decreases orders.len(),
{
    if orders.len() == 0 {
        Seq::empty()
    } else {
        let rest = open_price_fills(
            open_prices,
            rate,
            allow_short,
            allow_margin,
            cash,
            positions,
            orders.drop_last(),
        );
        match open_price_fill(
            open_prices,
            rate,
            allow_short,
            allow_margin,
            cash,
            positions,
            orders.last().0@,
            orders.last().1.1,
        ) {
            Some(f) => rest.push((orders.last().0@, f)),
            None => rest,
        }
    }
}

/// Fill entries as symbols and fills in ten-thousandths.
pub open spec fn fill_view(s: Seq<(String, (Price, Quantity, Price))>) -> Seq<
    (Seq<char>, (int, int, int)),
> {
    s.map_values(|e: (String, (Price, Quantity, Price))| (e.0@, (e.1.0@, e.1.1@, e.1.2@)))
}

/// The fills that a fill event carries; none when it is a rejection.
pub open spec fn event_fills(e: Event) -> Seq<(Seq<char>, (int, int, int))> {
    match e {
        Event::Fill(FillEvent::Succeed(f)) => fill_view(f.spec_entries()),
        _ => Seq::empty(),
    }
}

/// The open prices of a cross-section, for the bars that have one.
pub open spec fn section_open_prices(section: Seq<(String, DateBar)>) -> Seq<(Seq<char>, int)>
    decreases section.len(),
{
    if section.len() == 0 {
        Seq::empty()
    } else {
        let rest = section_open_prices(section.drop_last());
        match section.last().1.ohlc.open {
            Some(p) => rest.push((section.last().0@, p@)),
            None => rest,
        }
    }
}

/// Price entries as symbols and prices in ten-thousandths.
pub open spec fn price_view(s: Seq<(String, Price)>) -> Seq<(Seq<char>, int)> {
    s.map_values(|e: (String, Price)| (e.0@, e.1@))
}

/// Whether every bar of a cross-section has consistent prices.
pub open spec fn section_consistent(section: Seq<(String, DateBar)>) -> bool {
    forall|k: int|
        0 <= k < section.len() ==> #[trigger] ohlc_violation(
            section[k].1.ohlc.open,
            section[k].1.ohlc.high,
            section[k].1.ohlc.low,
            section[k].1.ohlc.close,
        ) is None
}

/// Whether a price, in ten-thousandths, lies within the low and the high of a
/// bar, where they are present.
pub open spec fn within_day_range(ohlc: Ohlc, price: int) -> bool {
    &&& ohlc.low matches Some(low) ==> low@ <= price
    &&& ohlc.high matches Some(high) ==> price <= high@
}

/// Each open price taken from a cross-section is the open price of one of
/// its bars.
proof fn lemma_section_open_price(section: Seq<(String, DateBar)>, j: int)
    requires
        0 <= j < section_open_prices(section).len(),
    ensures
        exists|k: int|
            0 <= k < section.len() && (#[trigger] section[k]).0@ == section_open_prices(section)[j].0
                && section[k].1.ohlc.open is Some && (section[k].1.ohlc.open->0)@
                == section_open_prices(section)[j].1,
    decreases section.len(),
{
    let rest = section_open_prices(section.drop_last());
    if j < rest.len() {
        lemma_section_open_price(section.drop_last(), j);
        let k = choose|k: int|
            0 <= k < section.drop_last().len() && (#[trigger] section.drop_last()[k]).0@
                == rest[j].0 && section.drop_last()[k].1.ohlc.open is Some
                && (section.drop_last()[k].1.ohlc.open->0)@
                == rest[j].1;
        assert(section[k] == section.drop_last()[k]);
    } else {
        assert(section[section.len() - 1] == section.last());
    }
}

/// The broker never fills outside the range of the day: when the open prices
/// it fills at were taken from a cross-section whose bars have consistent
/// prices, the price of every fill lies within the low and the high of the
/// bar of its symbol.
pub proof fn lemma_fill_within_day_range(
    open_prices: Seq<(String, Price)>,
    section: Seq<(String, DateBar)>,
    rate: Quantity,
    allow_short: bool,
    allow_margin: bool,
    cash: Price,
    positions: Seq<(String, Quantity)>,
    symbol: Seq<char>,
    quantity: Quantity,
)
    requires
        price_view(open_prices) == section_open_prices(section),
        section_consistent(section),
        open_price_fill(open_prices, rate, allow_short, allow_margin, cash, positions, symbol, quantity)
            is Some,
    ensures
        exists|k: int|
            0 <= k < section.len() && (#[trigger] section[k]).0@ == symbol && within_day_range(
                section[k].1.ohlc,
                (open_price_fill(
                    open_prices,
                    rate,
                    allow_short,
                    allow_margin,
                    cash,
                    positions,
                    symbol,
                    quantity,
                )->0).0,
            ),
{
    lemma_lookup_index(open_prices, symbol);
    let j = index_of(open_prices, symbol)->0;
    assert(price_view(open_prices)[j] == (symbol, open_prices[j].1@));
    lemma_section_open_price(section, j);
    let k = choose|k: int|
        0 <= k < section.len() && (#[trigger] section[k]).0@ == section_open_prices(section)[j].0
            && section[k].1.ohlc.open is Some && (section[k].1.ohlc.open->0)@
            == section_open_prices(section)[j].1;
    assert(ohlc_violation(
        section[k].1.ohlc.open,
        section[k].1.ohlc.high,
        section[k].1.ohlc.low,
        section[k].1.ohlc.close,
    ) is None);
}

/// A broker that fills orders at the open price of the day, with a
/// commission proportional to the fill price.
#[derive(Debug)]
pub struct OpenPriceBroker {
    section_open: SymbolMap<Price>,
    commission_rate: Quantity,
    allow_short: bool,
    allow_margin: bool,
}

impl OpenPriceBroker {
    /// The open prices of the previewed bars, by symbol.
    pub closed spec fn spec_open_prices(&self) -> Seq<(String, Price)> {
        self.section_open.spec_entries()
    }

    /// The commission as a share of the trade value.
    pub closed spec fn spec_commission_rate(&self) -> Quantity {
        self.commission_rate
    }

    /// Whether positions may go below zero.
    pub closed spec fn spec_allow_short(&self) -> bool {
        self.allow_short
    }

    /// Whether cash may go below zero.
    pub closed spec fn spec_allow_margin(&self) -> bool {
        self.allow_margin
    }

    /// A broker with a commission rate that has seen no preview yet.
    pub fn new(commission_rate: Quantity, allow_short: bool, allow_margin: bool) -> (r: Self)
        ensures
            r.spec_open_prices() == Seq::<(String, Price)>::empty(),
            r.spec_commission_rate() == commission_rate,
            r.spec_allow_short() == allow_short,
            r.spec_allow_margin() == allow_margin,
    {
        OpenPriceBroker { section_open: SymbolMap::new(), commission_rate, allow_short, allow_margin }
    }

    /// The fill of one ordered symbol, if the broker fills it.
    fn fill_one(&self, account: &Account, symbol: &str, quantity: Quantity) -> (r: Option<
        (Price, Quantity, Price),
    >)
        ensures
            match open_price_fill(
                self.spec_open_prices(),
                self.commission_rate,
                self.allow_short,
                self.allow_margin,
                account.spec_cash(),
                account.spec_positions(),
                symbol@,
                quantity,
            ) {
                Some(f) => r matches Some(x) && x.0@ == f.0 && x.1@ == f.1 && x.2@ == f.2,
                None => r is None,
            },
    {
        let fill_price = match self.section_open.get(symbol) {
            Some(p) => *p,
            None => {
                return None;
            },
        };
        if !self.allow_short {
            let next = match account.position(symbol).checked_add(quantity) {
                Some(n) => n,
                None => {
                    return None;
                },
            };
            if next.is_negative() {
                return None;
            }
        }
        let commission = match fill_price.checked_mul_quantity(self.commission_rate) {
            Some(c) => c,
            None => {
                return None;
            },
        };
        if !self.allow_margin {
            let value = match fill_price.checked_mul_quantity(quantity) {
                Some(v) => v,
                None => {
                    return None;
                },
            };
            let after = match account.cash().checked_sub(value) {
                Some(c) => match c.checked_sub(commission) {
                    Some(d) => d,
                    None => {
                        return None;
                    },
                },
                None => {
                    return None;
                },
            };
            if after.is_negative() {
                return None;
            }
        }
        Some((fill_price, quantity, commission))
    }

    /// The fills of an order against the open prices of the day and the account.
    pub fn fill_order(&self, order: &Order, account: &Account) -> (r: Event)
        ensures
            event_fills(r) == open_price_fills(
                self.spec_open_prices(),
                self.spec_commission_rate(),
                self.spec_allow_short(),
                self.spec_allow_margin(),
                account.spec_cash(),
                account.spec_positions(),
                order.order.spec_entries(),
            ),
            r is Fill,
            r matches Event::Fill(FillEvent::Succeed(f)) ==> f.spec_entries().len() > 0,
    {
        let ghost orders = order.order.spec_entries();
        let n = order.order.len();
        let mut fills: SymbolMap<(Price, Quantity, Price)> = SymbolMap::new();
        let mut i: usize = 0;
        while i < n
            invariant
                n == orders.len(),
                orders == order.order.spec_entries(),
                keys_distinct(orders),
                i <= n,
                fill_view(fills.spec_entries()) == open_price_fills(
                    self.spec_open_prices(),
                    self.commission_rate,
                    self.allow_short,
                    self.allow_margin,
                    account.spec_cash(),
                    account.spec_positions(),
                    orders.take(i as int),
                ),
                forall|k: int|
                    0 <= k < fills.spec_entries().len() ==> exists|j: int|
                        0 <= j < i && (#[trigger] fills.spec_entries()[k]).0@ == (
                        #[trigger] orders[j]).0@,
            decreases n - i,
        {
            let entry = order.order.entry(i);
            let symbol = &entry.0;
            let quantity = entry.1.1;
            let ghost before = fills.spec_entries();
            proof {
                assert(orders.take(i + 1).drop_last() =~= orders.take(i as int));
                assert(orders.take(i + 1).last() == orders[i as int]);
            }
            match self.fill_one(account, symbol.as_str(), quantity) {
                Some(f) => {
                    proof {
                        crate::engine::symbols::lemma_lookup_index(before, symbol@);
                        if let Some(x) = index_of(before, symbol@) {
                            let j = choose|j: int|
                                0 <= j < i && (#[trigger] before[x]).0@ == (
                                #[trigger] orders[j]).0@;
                            assert(orders[j].0@ != orders[i as int].0@);
                        }
                    }
                    fills.insert(symbol.clone(), f);
                    proof {
                        assert(index_of(before, symbol@) is None);
                        assert(fill_view(fills.spec_entries()) =~= fill_view(before).push(
                            (symbol@, (f.0@, f.1@, f.2@)),
                        ));
                        assert forall|k: int| 0 <= k < fills.spec_entries().len() implies exists|
                            j: int,
                        | 0 <= j < i + 1 && (#[trigger] fills.spec_entries()[k]).0@ == (
                        #[trigger] orders[j]).0@ by {
                            if k < before.len() {
                                assert(fills.spec_entries()[k] == before[k]);
                                let j = choose|j: int|
                                    0 <= j < i && (#[trigger] before[k]).0@ == (
                                    #[trigger] orders[j]).0@;
                                assert(orders[j].0@ == fills.spec_entries()[k].0@);
                            } else {
                                assert(fills.spec_entries()[k].0@ == orders[i as int].0@);
                            }
                        }
                    }
                },
                None => {},
            }
            i = i + 1;
        }
        assert(orders.take(n as int) =~= orders);
        if fills.is_empty() {
            Event::Fill(FillEvent::Reject)
        } else {
            Event::Fill(FillEvent::Succeed(fills))
        }
    }

    /// Remembers the open prices of a previewed cross-section; other market
    /// events change nothing.
    pub fn take_preview(&mut self, market: &MarketEvent)
        ensures
            market matches MarketEvent::Preview(section) ==> price_view(
                final(self).spec_open_prices(),
            ) == section_open_prices(section.spec_entries()),
            !(market is Preview) ==> final(self).spec_open_prices() == old(self).spec_open_prices(),
            final(self).spec_commission_rate() == old(self).spec_commission_rate(),
            final(self).spec_allow_short() == old(self).spec_allow_short(),
            final(self).spec_allow_margin() == old(self).spec_allow_margin(),
    {
        if let MarketEvent::Preview(section) = market {
            let ghost entries = section.spec_entries();
            let n = section.len();
            let mut open: SymbolMap<Price> = SymbolMap::new();
            let mut i: usize = 0;
            while i < n
                invariant
                    n == entries.len(),
                    entries == section.spec_entries(),
                    keys_distinct(entries),
                    i <= n,
                    price_view(open.spec_entries()) == section_open_prices(entries.take(i as int)),
                    forall|k: int|
                        0 <= k < open.spec_entries().len() ==> exists|j: int|
                            0 <= j < i && (#[trigger] open.spec_entries()[k]).0@ == (
                            #[trigger] entries[j]).0@,
                decreases n - i,
            {
                let entry = section.entry(i);
                let ghost before = open.spec_entries();
                proof {
                    assert(entries.take(i + 1).drop_last() =~= entries.take(i as int));
                    assert(entries.take(i + 1).last() == entries[i as int]);
                }
                match entry.1.ohlc.open {
                    Some(p) => {
                        proof {
                            crate::engine::symbols::lemma_lookup_index(before, entry.0@);
                            if let Some(x) = index_of(before, entry.0@) {
                                let j = choose|j: int|
                                    0 <= j < i && (#[trigger] before[x]).0@ == (
                                    #[trigger] entries[j]).0@;
                                assert(entries[j].0@ != entries[i as int].0@);
                            }
                        }
                        open.insert(entry.0.clone(), p);
                        proof {
                            assert(price_view(open.spec_entries()) =~= price_view(before).push(
                                (entry.0@, p@),
                            ));
                            assert forall|k: int| 0 <= k < open.spec_entries().len() implies exists|
                                j: int,
                            | 0 <= j < i + 1 && (#[trigger] open.spec_entries()[k]).0@ == (
                            #[trigger] entries[j]).0@ by {
                                if k < before.len() {
                                    assert(open.spec_entries()[k] == before[k]);
                                    let j = choose|j: int|
                                        0 <= j < i && (#[trigger] before[k]).0@ == (
                                        #[trigger] entries[j]).0@;
                                    assert(entries[j].0@ == open.spec_entries()[k].0@);
                                } else {
                                    assert(open.spec_entries()[k].0@ == entries[i as int].0@);
                                }
                            }
                        }
                    },
                    None => {},
                }
                i = i + 1;
            }
            assert(entries.take(n as int) =~= entries);
            self.section_open = open;
        }
    }
}

impl Broker for OpenPriceBroker {
    fn on_order(&mut self, order: &Order, account: &mut Account) -> (r: Event)
        ensures
            event_fills(r) == open_price_fills(
                old(self).spec_open_prices(),
                old(self).spec_commission_rate(),
                old(self).spec_allow_short(),
                old(self).spec_allow_margin(),
                old(account).spec_cash(),
                old(account).spec_positions(),
                order.order.spec_entries(),
            ),
            r is Fill,
            r matches Event::Fill(FillEvent::Succeed(f)) ==> f.spec_entries().len() > 0,
            *final(self) == *old(self),
            *final(account) == *old(account),
    {
        self.fill_order(order, account)
    }

    fn preview(&mut self, market: &MarketEvent)
        ensures
            market matches MarketEvent::Preview(section) ==> price_view(
                final(self).spec_open_prices(),
            ) == section_open_prices(section.spec_entries()),
            !(market is Preview) ==> final(self).spec_open_prices() == old(self).spec_open_prices(),
            final(self).spec_commission_rate() == old(self).spec_commission_rate(),
            final(self).spec_allow_short() == old(self).spec_allow_short(),
            final(self).spec_allow_margin() == old(self).spec_allow_margin(),
    {
        self.take_preview(market)
    }
}

} // verus!
