use vstd::prelude::*;

use std::collections::VecDeque;

use crate::data::date::date_le;
use crate::data::decimal::{
    fits_i64, lemma_pow10_four, lemma_whole_quotient_fits, pow10, trunc_div, whole_quotient,
};
use crate::data::{Date, DateBar, MarketData, Price, Quantity};
use crate::engine::broker::Broker;
use crate::engine::event::{Event, FillEvent, MarketEvent, Order, SystemEvent};
use crate::engine::logger::Logger;
use crate::engine::symbols::{
    entries_insert, index_of, keys_distinct, lemma_lookup_index, lemma_lookup_insert, lookup, SymbolMap,
};
use crate::error::{BacktestError, Error};
use crate::strat::Strategy;

verus! {

/// The quantity held of a symbol in position entries; none is zero.
pub open spec fn held(entries: Seq<(String, Quantity)>, symbol: Seq<char>) -> int {
    match lookup(entries, symbol) {
        Some(q) => q@,
        None => 0,
    }
}

/// Whether a position change of `quantity` overflows the quantity held of `symbol`.
pub open spec fn position_overflows(
    entries: Seq<(String, Quantity)>,
    symbol: Seq<char>,
    quantity: Quantity,
) -> bool {
    lookup(entries, symbol) matches Some(q) && !fits_i64(q@ + quantity@)
}

/// The value of a trade: price times quantity, in ten-thousandths.
pub open spec fn trade_value(price: Price, quantity: Quantity) -> int {
    whole_quotient(price@ * quantity@, 4)->0
}

/// Cash and positions of a trading account.
#[derive(Debug)]
pub struct Account {
    cash: Price,
    position: SymbolMap<Quantity>,
}

impl Account {
    /// The cash of the account.
    pub closed spec fn spec_cash(&self) -> Price {
        self.cash
    }

    /// The positions, by symbol.
    pub closed spec fn spec_positions(&self) -> Seq<(String, Quantity)> {
        self.position.spec_entries()
    }

    /// An account with the given cash and no position.
    pub fn new(cash: Price) -> (r: Self)
        ensures
            r.spec_cash() == cash,
            r.spec_positions() == Seq::<(String, Quantity)>::empty(),
    {
        Account { cash, position: SymbolMap::new() }
    }

    /// The cash of the account.
    pub fn cash(&self) -> (r: Price)
        ensures
            r == self.spec_cash(),
    {
        self.cash
    }

    /// The quantity held of a symbol; zero when there is no position.
    pub fn position(&self, symbol: &str) -> (r: Quantity)
        ensures
            r@ == held(self.spec_positions(), symbol@),
    {
        match self.position.get(symbol) {
            Some(q) => *q,
            None => Quantity::from_units(0),
        }
    }

    /// Adds `quantity` to the position of `symbol`; fails, changing nothing,
    /// when the new position would not be a valid quantity.
    pub fn change_position(&mut self, symbol: String, quantity: Quantity) -> (r: Result<(), Error>)
        ensures
            position_overflows(old(self).spec_positions(), symbol@, quantity) ==> (r matches Err(
                Error::Backtest(BacktestError::PositionOverflow { symbol: s }),
            ) && s == symbol && *final(self) == *old(self)),
            !position_overflows(old(self).spec_positions(), symbol@, quantity) ==> {
                &&& r is Ok
                &&& final(self).spec_cash() == old(self).spec_cash()
                &&& held(final(self).spec_positions(), symbol@) == held(
                    old(self).spec_positions(),
                    symbol@,
                ) + quantity@
                &&& forall|k: Seq<char>|
                    k != symbol@ ==> #[trigger] lookup(final(self).spec_positions(), k) == lookup(
                        old(self).spec_positions(),
                        k,
                    )
                &&& final(self).spec_positions() == entries_insert(
                    old(self).spec_positions(),
                    symbol,
                    Quantity::spec_from_units(held(old(self).spec_positions(), symbol@) + quantity@),
                )
            },
    {
        let ghost old_positions = self.position;
        let current = match self.position.get(symbol.as_str()) {
            Some(q) => Some(*q),
            None => None,
        };
        match current {
            Some(q) => match q.checked_add(quantity) {
                Some(next) => {
                    proof {
                        Quantity::lemma_from_view(next);
                    }
                    self.position.insert(symbol, next);
                    proof {
                        assert forall|k: Seq<char>| k != symbol@ implies #[trigger] lookup(
                            self.position.spec_entries(),
                            k,
                        ) == lookup(old_positions.spec_entries(), k) by {
                            assert(self.position.spec_get(k) == old_positions.spec_get(k));
                        }
                    }
                    Ok(())
                },
                None => Err(Error::Backtest(BacktestError::PositionOverflow { symbol })),
            },
            None => {
                proof {
                    Quantity::lemma_from_view(quantity);
                }
                self.position.insert(symbol, quantity);
                proof {
                    assert forall|k: Seq<char>| k != symbol@ implies #[trigger] lookup(
                        self.position.spec_entries(),
                        k,
                    ) == lookup(old_positions.spec_entries(), k) by {
                        assert(self.position.spec_get(k) == old_positions.spec_get(k));
                    }
                }
                Ok(())
            },
        }
    }

    /// Applies a broker-approved fill atomically: pays the trade value and the
    /// commission out of cash, which may go negative, and adds the quantity to
    /// the position. Fails, changing nothing, when the cash or the position
    /// would not be valid.
    pub fn apply_fill(
        &mut self,
        symbol: String,
        price: Price,
        quantity: Quantity,
        commission: Price,
    ) -> (r: Result<(), Error>)
        requires
            whole_quotient(price@ * quantity@, 4) is Some,
        ensures
            ({
                let value = trade_value(price, quantity);
                let cash = old(self).spec_cash()@;
                if !fits_i64(cash - value) || !fits_i64(cash - value - commission@) {
                    r matches Err(Error::Backtest(BacktestError::CashOverflow)) && *final(self)
                        == *old(self)
                } else if position_overflows(old(self).spec_positions(), symbol@, quantity) {
                    r matches Err(Error::Backtest(BacktestError::PositionOverflow { symbol: s }))
                        && s == symbol && *final(self) == *old(self)
                } else {
                    &&& r is Ok
                    &&& final(self).spec_cash()@ == cash - value - commission@
                    &&& held(final(self).spec_positions(), symbol@) == held(
                        old(self).spec_positions(),
                        symbol@,
                    ) + quantity@
                    &&& forall|k: Seq<char>|
                        k != symbol@ ==> #[trigger] lookup(final(self).spec_positions(), k)
                            == lookup(old(self).spec_positions(), k)
                    &&& final(self).spec_positions() == entries_insert(
                        old(self).spec_positions(),
                        symbol,
                        Quantity::spec_from_units(held(old(self).spec_positions(), symbol@) + quantity@),
                    )
                }
            }),
    {
        proof {
            lemma_whole_quotient_fits(price@ * quantity@);
        }
        let value = match price.checked_mul_quantity(quantity) {
            Some(v) => v,
            None => {
                return Err(Error::Backtest(BacktestError::CashOverflow));
            },
        };
        let after_value = match self.cash.checked_sub(value) {
            Some(c) => c,
            None => {
                return Err(Error::Backtest(BacktestError::CashOverflow));
            },
        };
        let after_fill = match after_value.checked_sub(commission) {
            Some(c) => c,
            None => {
                return Err(Error::Backtest(BacktestError::CashOverflow));
            },
        };
        match self.change_position(symbol, quantity) {
            Ok(()) => {},
            Err(e) => {
                return Err(e);
            },
        }
        self.cash = after_fill;
        Ok(())
    }
}


/// Whether the value of a trade, price times quantity, is a valid price: it
/// has at most four decimal places and fits.
fn trade_value_fits(price: Price, quantity: Quantity) -> (r: bool)
    ensures
        r == (whole_quotient(price@ * quantity@, 4) is Some),
{
    let p = price.units();
    let q = quantity.units();
    let negative = (p < 0) != (q < 0);
    let pa: u128 = if p < 0 { (0 - (p as i128)) as u128 } else { p as u128 };
    let qa: u128 = if q < 0 { (0 - (q as i128)) as u128 } else { q as u128 };
    assert(pa * qa <= 0x4000_0000_0000_0000_0000_0000_0000_0000) by (nonlinear_arith)
        requires
            pa <= 0x8000_0000_0000_0000,
            qa <= 0x8000_0000_0000_0000,
    ;
    let m = pa * qa;
    let ghost x = price@ * quantity@;
    proof {
        lemma_pow10_four();
        if p < 0 && q < 0 {
            assert(x == m) by (nonlinear_arith)
                requires
                    x == p * q,
                    pa == -p,
                    qa == -q,
                    m == pa * qa,
            ;
        } else if p < 0 {
            assert(x == -m) by (nonlinear_arith)
                requires
                    x == p * q,
                    pa == -p,
                    qa == q,
                    m == pa * qa,
            ;
        } else if q < 0 {
            assert(x == -m) by (nonlinear_arith)
                requires
                    x == p * q,
                    pa == p,
                    qa == -q,
                    m == pa * qa,
            ;
        } else {
            assert(x == m) by (nonlinear_arith)
                requires
                    x == p * q,
                    pa == p,
                    qa == q,
                    m == pa * qa,
            ;
        }
        assert(x % 10000 == 0 <==> m % 10000 == 0);
    }
    if m % 10000 != 0 {
        return false;
    }
    let t = m / 10000;
    proof {
        assert(trunc_div(x, pow10(4)) == if x >= 0 { t as int } else { -(t as int) });
    }
    if negative {
        t <= 0x8000_0000_0000_0000
    } else {
        t <= 0x7fff_ffff_ffff_ffff
    }
}

/// The account after one fill, when its trade value, the cash left and the
/// position are all valid: the trade value and the commission are paid out of
/// cash, and the quantity is added to the position of its symbol.
pub open spec fn account_fill(
    cash: Price,
    positions: Seq<(String, Quantity)>,
    fill: (String, (Price, Quantity, Price)),
) -> Option<(Price, Seq<(String, Quantity)>)> {
    let symbol = fill.0;
    let price = fill.1.0;
    let quantity = fill.1.1;
    let commission = fill.1.2;
    match whole_quotient(price@ * quantity@, 4) {
        None => None,
        Some(value) => {
            let left = cash@ - value - commission@;
            if !fits_i64(cash@ - value) || !fits_i64(left) || position_overflows(
                positions,
                symbol@,
                quantity,
            ) {
                None
            } else {
                Some(
                    (
                        Price::spec_from_units(left),
                        entries_insert(
                            positions,
                            symbol,
                            Quantity::spec_from_units(held(positions, symbol@) + quantity@),
                        ),
                    ),
                )
            }
        },
    }
}

/// A fill of quantity `q` of a symbol at price `p` with commission `c`, when
/// its trade value `p * q` is a valid price and the cash and position it
/// leaves are valid, takes the trade value and the commission out of cash,
/// adds `q` to the quantity held of that symbol and leaves every other symbol
/// as it was; otherwise it cannot be applied.
pub proof fn lemma_account_fill_adds(
    cash: Price,
    positions: Seq<(String, Quantity)>,
    fill: (String, (Price, Quantity, Price)),
)
    ensures
        ({
            let symbol = fill.0@;
            let q = fill.1.1@;
            let after = account_fill(cash, positions, fill);
            match whole_quotient(fill.1.0@ * q, 4) {
                None => after is None,
                Some(value) => if fits_i64(cash@ - value) && fits_i64(cash@ - value - fill.1.2@)
                    && fits_i64(held(positions, symbol) + q) {
                    &&& after is Some
                    &&& (after->0).0@ == cash@ - value - fill.1.2@
                    &&& held((after->0).1, symbol) == held(positions, symbol) + q
                    &&& forall|other: Seq<char>|
                        other != symbol ==> #[trigger] held((after->0).1, other) == held(
                            positions,
                            other,
                        )
                } else {
                    after is None
                },
            }
        }),
{
    let symbol = fill.0@;
    let q = fill.1.1@;
    fill.1.1.lemma_view_range();
    match whole_quotient(fill.1.0@ * q, 4) {
        None => {},
        Some(value) => {
            let left = cash@ - value - fill.1.2@;
            let next = held(positions, symbol) + q;
            if fits_i64(cash@ - value) && fits_i64(left) && fits_i64(next) {
                Price::lemma_from_units_view(left);
                Quantity::lemma_from_units_view(next);
                let n = Quantity::spec_from_units(next);
                lemma_lookup_insert(positions, fill.0, n, symbol);
                assert forall|other: Seq<char>| other != symbol implies #[trigger] held(
                    entries_insert(positions, fill.0, n),
                    other,
                ) == held(positions, other) by {
                    lemma_lookup_insert(positions, fill.0, n, other);
                }
            }
        },
    }
}

/// The error of a fill that cannot be applied: the cash overflows when the
/// trade value or the cash left is not a valid price, else the position does.
pub open spec fn fill_error(
    cash: Price,
    positions: Seq<(String, Quantity)>,
    fill: (String, (Price, Quantity, Price)),
) -> Error {
    match whole_quotient(fill.1.0@ * fill.1.1@, 4) {
        None => Error::Backtest(BacktestError::CashOverflow),
        Some(value) => if !fits_i64(cash@ - value) || !fits_i64(cash@ - value - fill.1.2@) {
            Error::Backtest(BacktestError::CashOverflow)
        } else {
            Error::Backtest(BacktestError::PositionOverflow { symbol: fill.0 })
        },
    }
}

/// The account after applying fills in order, stopping at the first that
/// cannot be applied: the cash, the positions and the error of that fill.
pub open spec fn fills_applied(
    cash: Price,
    positions: Seq<(String, Quantity)>,
    fills: Seq<(String, (Price, Quantity, Price))>,
) -> (Price, Seq<(String, Quantity)>, Option<Error>)
    decreases fills.len(),
{
    if fills.len() == 0 {
        (cash, positions, None)
    } else {
        let before = fills_applied(cash, positions, fills.drop_last());
        if before.2 is Some {
            before
        } else {
            match account_fill(before.0, before.1, fills.last()) {
                Some((c, p)) => (c, p, None),
                None => (before.0, before.1, Some(fill_error(before.0, before.1, fills.last()))),
            }
        }
    }
}

impl Account {
    /// Applies the fills of a fill event in order; stops at the first that
    /// cannot be applied and returns its error, keeping the fills before it.
    fn apply_fills(&mut self, fills: &SymbolMap<(Price, Quantity, Price)>) -> (r: Result<(), Error>)
        ensures
            ({
                let after = fills_applied(
                    old(self).spec_cash(),
                    old(self).spec_positions(),
                    fills.spec_entries(),
                );
                &&& final(self).spec_cash() == after.0
                &&& final(self).spec_positions() == after.1
                &&& match after.2 {
                    None => r is Ok,
                    Some(e) => r == Err::<(), Error>(e),
                }
            }),
    {
        let ghost entries = fills.spec_entries();
        let ghost cash0 = self.cash;
        let ghost positions0 = self.position.spec_entries();
        let n = fills.len();
        let mut i: usize = 0;
        assert(entries.take(0) =~= Seq::<(String, (Price, Quantity, Price))>::empty());
        while i < n
            invariant
                n == entries.len(),
                entries == fills.spec_entries(),
                cash0 == old(self).spec_cash(),
                positions0 == old(self).spec_positions(),
                i <= n,
                fills_applied(cash0, positions0, entries.take(i as int)) == (
                    self.spec_cash(),
                    self.spec_positions(),
                    None::<Error>,
                ),
            decreases n - i,
        {
            let entry = fills.entry(i);
            proof {
                assert(entries.take(i + 1).drop_last() =~= entries.take(i as int));
                assert(entries.take(i + 1).last() == entries[i as int]);
                Price::lemma_from_view(self.cash);
            }
            let price = entry.1.0;
            let quantity = entry.1.1;
            let commission = entry.1.2;
            if !trade_value_fits(price, quantity) {
                proof {
                    assert(fills_applied(cash0, positions0, entries.take(i + 1)) == (
                        self.spec_cash(),
                        self.spec_positions(),
                        Some(Error::Backtest(BacktestError::CashOverflow)),
                    ));
                    lemma_fills_applied_stuck(cash0, positions0, entries, i + 1);
                    assert(entries.take(n as int) =~= entries);
                }
                return Err(Error::Backtest(BacktestError::CashOverflow));
            }
            let ghost before_cash = self.cash;
            let ghost before_positions = self.position.spec_entries();
            match self.apply_fill(entry.0.clone(), price, quantity, commission) {
                Ok(()) => {
                    proof {
                        Price::lemma_from_view(self.cash);
                    }
                },
                Err(e) => {
                    proof {
                        assert(fills_applied(cash0, positions0, entries.take(i + 1)) == (
                            self.spec_cash(),
                            self.spec_positions(),
                            Some(e),
                        ));
                        lemma_fills_applied_stuck(cash0, positions0, entries, i + 1);
                        assert(entries.take(n as int) =~= entries);
                    }
                    return Err(e);
                },
            }
            i = i + 1;
        }
        proof {
            assert(entries.take(n as int) =~= entries);
        }
        Ok(())
    }
}

/// A fill followed by the opposite fill of the same symbol at the same price,
/// both without commission, gives back the cash and the quantity held of
/// every symbol.
pub proof fn lemma_fill_reversed(
    cash: Price,
    positions: Seq<(String, Quantity)>,
    symbol: String,
    price: Price,
    quantity: Quantity,
    back: Quantity,
    no_commission: Price,
)
    requires
        back@ == -quantity@,
        no_commission@ == 0,
        account_fill(cash, positions, (symbol, (price, quantity, no_commission))) is Some,
        whole_quotient(price@ * back@, 4) is Some,
    ensures
        ({
            let first = account_fill(cash, positions, (symbol, (price, quantity, no_commission)))->0;
            let second = account_fill(first.0, first.1, (symbol, (price, back, no_commission)));
            &&& second is Some
            &&& (second->0).0 == cash
            &&& forall|k: Seq<char>| #[trigger] held((second->0).1, k) == held(positions, k)
        }),
{
    let first = account_fill(cash, positions, (symbol, (price, quantity, no_commission)))->0;
    let x = price@ * quantity@;
    let y = price@ * back@;
    assert(y == -x) by (nonlinear_arith)
        requires
            back@ == -quantity@,
            x == price@ * quantity@,
            y == price@ * back@,
    ;
    lemma_pow10_four();
    let v = whole_quotient(x, 4)->0;
    assert(whole_quotient(y, 4) == Some(-v));
    Price::lemma_from_view(cash);
    let h = held(positions, symbol@);
    assert(fits_i64(h)) by {
        if let Some(q) = lookup(positions, symbol@) {
            q.lemma_view_range();
        }
    }
    lemma_lookup_insert(positions, symbol, Quantity::spec_from_units(h + quantity@), symbol@);
    assert(fits_i64(h + quantity@)) by {
        quantity.lemma_view_range();
    }
    Quantity::lemma_from_units_view(h + quantity@);
    Price::lemma_from_units_view(cash@ - v);
    assert(held(first.1, symbol@) == h + quantity@);
    assert(first.0@ == cash@ - v);
    let second = account_fill(first.0, first.1, (symbol, (price, back, no_commission)));
    assert(lookup(first.1, symbol@) == Some(Quantity::spec_from_units(h + quantity@)));
    assert(!position_overflows(first.1, symbol@, back));
    cash.lemma_view_range();
    assert(fits_i64(first.0@ - (-v)));
    assert(second is Some);
    assert((second->0).0 == cash);
    assert forall|k: Seq<char>| #[trigger] held((second->0).1, k) == held(positions, k) by {
        lemma_lookup_insert(first.1, symbol, Quantity::spec_from_units(h), k);
        lemma_lookup_insert(positions, symbol, Quantity::spec_from_units(h + quantity@), k);
        if k == symbol@ {
            Quantity::lemma_from_units_view(h);
        }
    }
}

/// Once applying a prefix of the fills fails, applying all of them fails the
/// same way.
proof fn lemma_fills_applied_stuck(
    cash: Price,
    positions: Seq<(String, Quantity)>,
    fills: Seq<(String, (Price, Quantity, Price))>,
    k: int,
)
    requires
        0 <= k <= fills.len(),
        fills_applied(cash, positions, fills.take(k)).2 is Some,
    ensures
        fills_applied(cash, positions, fills) == fills_applied(cash, positions, fills.take(k)),
    decreases fills.len() - k,
{
    if k < fills.len() {
        assert(fills.take(k + 1).drop_last() =~= fills.take(k));
        lemma_fills_applied_stuck(cash, positions, fills, k + 1);
    } else {
        assert(fills.take(k) =~= fills);
    }
}


/// The open prices of the bars of a cross-section, dated `date`, symbol by
/// symbol.
pub open spec fn open_entries(section: Seq<(String, DateBar)>, date: Date) -> Seq<
    (String, (Date, Option<Price>)),
> {
    Seq::new(section.len(), |k: int| (section[k].0, (date, section[k].1.ohlc.open)))
}

/// What the market shows at the open of a date: the open price of every bar
/// of the cross-section, in the same order.
pub fn open_section(section: &SymbolMap<DateBar>, date: Date) -> (r: SymbolMap<
    (Date, Option<Price>),
>)
    ensures
        r.spec_entries() == open_entries(section.spec_entries(), date),
{
    let ghost entries = section.spec_entries();
    let n = section.len();
    let mut open: SymbolMap<(Date, Option<Price>)> = SymbolMap::new();
    let mut i: usize = 0;
    assert(open_entries(entries.take(0), date) =~= open.spec_entries());
    while i < n
        invariant
            n == entries.len(),
            entries == section.spec_entries(),
            keys_distinct(entries),
            i <= n,
            open.spec_entries() == open_entries(entries.take(i as int), date),
        decreases n - i,
    {
        let entry = section.entry(i);
        proof {
            lemma_lookup_index(open.spec_entries(), entry.0@);
            if let Some(j) = index_of(open.spec_entries(), entry.0@) {
                assert(open.spec_entries()[j].0 == entries[j].0);
                assert(entries[j].0@ != entries[i as int].0@);
            }
        }
        open.insert(entry.0.clone(), (date, entry.1.ohlc.open));
        assert(open.spec_entries() =~= open_entries(entries.take(i + 1), date));
        i = i + 1;
    }
    assert(entries.take(n as int) =~= entries);
    open
}


/// The event queue of a backtest that has not run: the start, then the end.
pub open spec fn fresh_queue() -> Seq<Event> {
    seq![Event::System(SystemEvent::Init), Event::System(SystemEvent::End)]
}

/// Whether two entry sequences hold the same symbols in the same order.
pub open spec fn same_symbols<V, W>(a: Seq<(String, V)>, b: Seq<(String, W)>) -> bool {
    &&& a.len() == b.len()
    &&& forall|k: int| 0 <= k < a.len() ==> (#[trigger] a[k]).0@ == b[k].0@
}

/// Whether `copy` holds the symbols of `section` in the same order, each bar
/// a clone of the bar of the section.
pub open spec fn copied_section(copy: Seq<(String, DateBar)>, section: Seq<(String, DateBar)>) -> bool {
    &&& same_symbols(copy, section)
    &&& forall|k: int| 0 <= k < copy.len() ==> cloned::<DateBar>(section[k].1, #[trigger] copy[k].1)
}

/// The events that set up a trading day from its cross-section: a preview
/// holding a copy of the section, an open holding the open price of every bar
/// of the section, dated that day, and a close holding the section itself.
pub open spec fn day_setup(chunk: Seq<Event>, date: Date, section: SymbolMap<DateBar>) -> bool {
    &&& chunk.len() == 3
    &&& chunk[0] matches Event::Market(MarketEvent::Preview(preview))
    &&& chunk[1] matches Event::Market(MarketEvent::Open(open))
    &&& chunk[2] == Event::Market(MarketEvent::Close(section))
    &&& open.spec_entries() == open_entries(section.spec_entries(), date)
    &&& copied_section(preview.spec_entries(), section.spec_entries())
}

/// Whether `order` is an order event that `strat` may answer to the market
/// event `open`, handed an account holding `cash` and `positions`.
pub open spec fn order_answered<S: Strategy>(
    strat: S,
    open: Event,
    order: Event,
    cash: Price,
    positions: Seq<(String, Quantity)>,
) -> bool {
    &&& open matches Event::Market(market_event)
    &&& order matches Event::Order(o)
    &&& strat.spec_order_answer(market_event, cash, positions, o)
}

/// Whether `fill` is a fill event that `broker` may answer to the order event
/// `order`, handed an account holding `cash` and `positions`.
pub open spec fn fill_answered<B: Broker>(
    broker: B,
    order: Event,
    fill: Event,
    cash: Price,
    positions: Seq<(String, Quantity)>,
) -> bool {
    &&& order matches Event::Order(o)
    &&& fill is Fill
    &&& broker.spec_fill_answer(o, cash, positions, fill)
}

/// Whether `events` are what a backtest with the strategy `strat` and the
/// broker `broker` handles for the day set up by `chunk`, its account holding
/// `cash` and `positions` when the day starts: its preview, its open, the
/// strategy's answer to the open, the broker's answer to that order, both
/// handed that account, and its close.
pub open spec fn day_handled<S: Strategy, B: Broker>(
    events: Seq<Event>,
    chunk: Seq<Event>,
    strat: S,
    broker: B,
    cash: Price,
    positions: Seq<(String, Quantity)>,
) -> bool {
    &&& events.len() == 5
    &&& events[0] == chunk[0]
    &&& events[1] == chunk[1]
    &&& order_answered(strat, events[1], events[2], cash, positions)
    &&& fill_answered(broker, events[2], events[3], cash, positions)
    &&& events[4] == chunk[2]
}

/// Whether `events` are what a backtest with the strategy `strat` and the
/// broker `broker`, its account holding `cash` and `positions` at the start,
/// handles for consecutive days set up by `chunks`, day after day; each day
/// starts with the account that the fills of the days before made.
pub open spec fn days_handled<S: Strategy, B: Broker>(
    events: Seq<Event>,
    chunks: Seq<Seq<Event>>,
    strat: S,
    broker: B,
    cash: Price,
    positions: Seq<(String, Quantity)>,
) -> bool
    decreases chunks.len(),
{
    if chunks.len() == 0 {
        events.len() == 0
    } else {
        let before = events.subrange(0, events.len() - 5);
        let start = log_applied(cash, positions, before);
        &&& events.len() >= 5
        &&& day_handled(
            events.subrange(events.len() - 5, events.len() as int),
            chunks.last(),
            strat,
            broker,
            start.0,
            start.1,
        )
        &&& days_handled(before, chunks.drop_last(), strat, broker, cash, positions)
    }
}

/// Whether `events` are what a backtest with the strategy `strat` and the
/// broker `broker`, its account holding `cash` and `positions` at the start,
/// hands to its logger for the trading days `days`, whose cross-sections are
/// `sections`: each day in order as set up by `chunks`, then the end.
pub open spec fn days_trace<S: Strategy, B: Broker>(
    events: Seq<Event>,
    days: Seq<Date>,
    sections: Seq<SymbolMap<DateBar>>,
    chunks: Seq<Seq<Event>>,
    strat: S,
    broker: B,
    cash: Price,
    positions: Seq<(String, Quantity)>,
) -> bool {
    &&& chunks.len() == days.len()
    &&& sections.len() == days.len()
    &&& forall|i: int| 0 <= i < days.len() ==> day_setup(#[trigger] chunks[i], days[i], sections[i])
    &&& events.len() >= 1
    &&& events.last() == Event::System(SystemEvent::End)
    &&& days_handled(events.drop_last(), chunks, strat, broker, cash, positions)
}

/// Whether `events` are what a backtest with the strategy `strat` and the
/// broker `broker`, its account holding `cash` and `positions` at the start,
/// over the trading days `days`, whose cross-sections are `sections`, hands
/// to its logger: the start, each day in order as set up by `chunks`, then
/// the end.
pub open spec fn backtest_trace<S: Strategy, B: Broker>(
    events: Seq<Event>,
    days: Seq<Date>,
    sections: Seq<SymbolMap<DateBar>>,
    chunks: Seq<Seq<Event>>,
    strat: S,
    broker: B,
    cash: Price,
    positions: Seq<(String, Quantity)>,
) -> bool {
    &&& events.len() >= 1
    &&& events[0] == Event::System(SystemEvent::Init)
    &&& days_trace(events.drop_first(), days, sections, chunks, strat, broker, cash, positions)
}

/// How much work an event still stands for: an open leads to an order, and
/// an order to a fill.
pub open spec fn event_weight(e: Event) -> nat {
    match e {
        Event::Market(MarketEvent::Open(_)) => 3,
        Event::Order(_) => 2,
        _ => 1,
    }
}

/// The work that a queue of events stands for.
pub open spec fn queue_weight(q: Seq<Event>) -> nat
    decreases q.len(),
{
    if q.len() == 0 {
        0
    } else {
        event_weight(q[0]) + queue_weight(q.drop_first())
    }
}

/// Where a replay stands between two events, once its days are set up in
/// front of the end: `done` holds the events of the first `k` days, `partial`
/// those of day `k` so far, and `queue` what is left to handle.
pub open spec fn run_stage<S: Strategy, B: Broker>(
    chunks: Seq<Seq<Event>>,
    k: int,
    done: Seq<Event>,
    partial: Seq<Event>,
    queue: Seq<Event>,
    strat: S,
    broker: B,
    cash: Price,
    positions: Seq<(String, Quantity)>,
) -> bool {
    let rest = chunks.skip(k + 1).flatten() + seq![Event::System(SystemEvent::End)];
    let start = log_applied(cash, positions, done);
    &&& 0 <= k <= chunks.len()
    &&& days_handled(done, chunks.take(k), strat, broker, cash, positions)
    &&& if partial.len() == 0 {
        queue == chunks.skip(k).flatten() + seq![Event::System(SystemEvent::End)]
    } else {
        &&& k < chunks.len()
        &&& partial.len() <= 4
        &&& partial[0] == chunks[k][0]
        &&& partial.len() >= 2 ==> partial[1] == chunks[k][1]
        &&& partial.len() >= 3 ==> order_answered(strat, partial[1], partial[2], start.0, start.1)
        &&& partial.len() >= 4 ==> fill_answered(broker, partial[2], partial[3], start.0, start.1)
        &&& partial.len() == 1 ==> queue == seq![chunks[k][1], chunks[k][2]] + rest
        &&& partial.len() == 2 ==> queue.len() > 0 && order_answered(
            strat,
            partial[1],
            queue[0],
            start.0,
            start.1,
        ) && queue.drop_first() == seq![chunks[k][2]] + rest
        &&& partial.len() == 3 ==> queue.len() > 0 && fill_answered(
            broker,
            partial[2],
            queue[0],
            start.0,
            start.1,
        ) && queue.drop_first() == seq![chunks[k][2]] + rest
        &&& partial.len() == 4 ==> queue == seq![chunks[k][2]] + rest
    }
}

/// Flattening from position `k` yields chunk `k`, then the chunks after it.
proof fn lemma_flatten_skip(chunks: Seq<Seq<Event>>, k: int)
    requires
        0 <= k <= chunks.len(),
    ensures
        k < chunks.len() ==> chunks.skip(k).flatten() == chunks[k] + chunks.skip(k + 1).flatten(),
        k == chunks.len() ==> chunks.skip(k).flatten() == Seq::<Event>::empty(),
{
    if k < chunks.len() {
        assert(chunks.skip(k).drop_first() =~= chunks.skip(k + 1));
        assert(chunks.skip(k).first() == chunks[k]);
    } else {
        assert(chunks.skip(k) =~= Seq::<Seq<Event>>::empty());
    }
}

/// The work of a queue with an event in front.
proof fn lemma_queue_weight_front(e: Event, q: Seq<Event>)
    ensures
        queue_weight(seq![e] + q) == event_weight(e) + queue_weight(q),
{
    assert((seq![e] + q).drop_first() =~= q);
}

/// What was logged before stays in front of what is logged after.
proof fn lemma_logged_prefix(base: Seq<Event>, since: Seq<Event>)
    ensures
        base.is_prefix_of(base + since),
{
    assert((base + since).subrange(0, base.len() as int) =~= base);
}

/// The cash and positions after the fills of the handled events, in order,
/// starting from `cash` and `positions`, and the error of the first fill that
/// cannot be applied, after which nothing more is applied.
pub open spec fn log_applied(
    cash: Price,
    positions: Seq<(String, Quantity)>,
    events: Seq<Event>,
) -> (Price, Seq<(String, Quantity)>, Option<Error>)
    decreases events.len(),
{
    if events.len() == 0 {
        (cash, positions, None)
    } else {
        let before = log_applied(cash, positions, events.drop_last());
        if before.2 is Some {
            before
        } else {
            match events.last() {
                Event::Fill(FillEvent::Succeed(fills)) => fills_applied(
                    before.0,
                    before.1,
                    fills.spec_entries(),
                ),
                _ => before,
            }
        }
    }
}

/// What applying the fills of the handled events, in order, makes of an
/// account.
pub open spec fn account_after(account: Account, events: Seq<Event>) -> (
    Price,
    Seq<(String, Quantity)>,
    Option<Error>,
) {
    log_applied(account.spec_cash(), account.spec_positions(), events)
}

/// Events that are not fills apply nothing.
proof fn lemma_log_applied_no_fills(
    cash: Price,
    positions: Seq<(String, Quantity)>,
    xs: Seq<Event>,
    ys: Seq<Event>,
)
    requires
        forall|i: int| 0 <= i < ys.len() ==> !(#[trigger] ys[i] is Fill),
    ensures
        log_applied(cash, positions, xs + ys) == log_applied(cash, positions, xs),
    decreases ys.len(),
{
    if ys.len() == 0 {
        assert(xs + ys =~= xs);
    } else {
        lemma_log_applied_no_fills(cash, positions, xs, ys.drop_last());
        assert((xs + ys).drop_last() =~= xs + ys.drop_last());
        assert((xs + ys).last() == ys[ys.len() - 1]);
    }
}

/// Within a day, before its fill, the account is the one the day started
/// with: what the fills of the days before made of the starting account.
proof fn lemma_day_start(
    cash: Price,
    positions: Seq<(String, Quantity)>,
    since0: Seq<Event>,
    done: Seq<Event>,
    partial: Seq<Event>,
)
    requires
        since0.len() == 0 || since0 == seq![Event::System(SystemEvent::Init)],
        forall|i: int| 0 <= i < partial.len() ==> !(#[trigger] partial[i] is Fill),
    ensures
        log_applied(cash, positions, since0 + done + partial) == log_applied(cash, positions, done),
{
    lemma_log_applied_no_fills(cash, positions, since0 + done, partial);
    if since0.len() == 0 {
        assert(since0 + done =~= done);
    } else {
        lemma_log_applied_after_start(cash, positions, done);
    }
}

/// The start in front of the handled events applies nothing.
pub proof fn lemma_log_applied_after_start(
    cash: Price,
    positions: Seq<(String, Quantity)>,
    events: Seq<Event>,
)
    ensures
        log_applied(cash, positions, seq![Event::System(SystemEvent::Init)] + events) == log_applied(
            cash,
            positions,
            events,
        ),
    decreases events.len(),
{
    let all = seq![Event::System(SystemEvent::Init)] + events;
    if events.len() == 0 {
        assert(all.drop_last() =~= Seq::<Event>::empty());
        assert(all.last() == Event::System(SystemEvent::Init));
        assert(log_applied(cash, positions, all.drop_last()) == (cash, positions, None::<Error>));
        assert(log_applied(cash, positions, all) == (cash, positions, None::<Error>));
        assert(all =~= seq![Event::System(SystemEvent::Init)] + events);
    } else {
        let shorter = seq![Event::System(SystemEvent::Init)] + events.drop_last();
        assert(all.drop_last() =~= shorter);
        assert(all.last() == events.last());
        lemma_log_applied_after_start(cash, positions, events.drop_last());
        assert(log_applied(cash, positions, all.drop_last()) == log_applied(
            cash,
            positions,
            events.drop_last(),
        ));
        assert(log_applied(cash, positions, all) == log_applied(cash, positions, events));
    }
}

/// How a run fails, given the events it handed to its logger, what applying
/// their fills made of the account, and the account it leaves: that account
/// holds what the fills made of it, and either reading the trading days
/// failed before any event, or reading a cross-section failed right after the
/// start, or the last event is a fill that cannot be applied, whose error it
/// is.
pub open spec fn run_failure(
    since: Seq<Event>,
    applied: (Price, Seq<(String, Quantity)>, Option<Error>),
    account: Account,
    e: Error,
) -> bool {
    &&& account.spec_cash() == applied.0
    &&& account.spec_positions() == applied.1
    &&& {
        ||| since.len() == 0
        ||| since.len() > 0 && since.last() == Event::System(SystemEvent::Init) && applied.2 is None
        ||| since.len() > 0 && since.last() is Fill && applied.2 == Some(e)
    }
}

/// A backtest: an account, a broker, a strategy and a logger, driven by a
/// queue of events handled front first.
pub struct BTEngine<B: Broker, S: Strategy, L: Logger> {
    account: Account,
    broker: B,
    events: VecDeque<Event>,
    strat: S,
    logger: L,
    logged: Ghost<Seq<Event>>,
    calendar: Ghost<Seq<Date>>,
    sections: Ghost<Seq<SymbolMap<DateBar>>>,
}

impl<B: Broker, S: Strategy, L: Logger> BTEngine<B, S, L> {
    /// The account that the backtest trades.
    pub closed spec fn spec_account(&self) -> Account {
        self.account
    }

    /// The events waiting to be handled, front first.
    pub closed spec fn spec_events(&self) -> Seq<Event> {
        self.events@
    }

    /// The events handed to the logger so far, in order.
    pub closed spec fn spec_logged(&self) -> Seq<Event> {
        self.logged@
    }

    /// The trading days that the last run read from its data source.
    pub closed spec fn spec_calendar(&self) -> Seq<Date> {
        self.calendar@
    }

    /// The cross-sections of the trading days that the last run read from its
    /// data source, day by day.
    pub closed spec fn spec_sections(&self) -> Seq<SymbolMap<DateBar>> {
        self.sections@
    }

    /// The strategy that answers the market events.
    pub closed spec fn spec_strategy(&self) -> S {
        self.strat
    }

    /// The broker that answers the orders.
    pub closed spec fn spec_broker(&self) -> B {
        self.broker
    }

    /// A backtest with an account holding `cash` and no position, that will
    /// start and then end.
    pub fn new(cash: Price, broker: B, strat: S, logger: L) -> (r: Self)
        ensures
            r.spec_account().spec_cash() == cash,
            r.spec_account().spec_positions().len() == 0,
            r.spec_events() == fresh_queue(),
            r.spec_logged().len() == 0,
            r.spec_calendar().len() == 0,
            r.spec_sections().len() == 0,
            r.spec_strategy() == strat,
            r.spec_broker() == broker,
    {
        let mut events = VecDeque::new();
        events.push_back(Event::System(SystemEvent::Init));
        events.push_back(Event::System(SystemEvent::End));
        assert(events@ =~= fresh_queue());
        BTEngine {
            account: Account::new(cash),
            broker,
            events,
            strat,
            logger,
            logged: Ghost(Seq::empty()),
            calendar: Ghost(Seq::empty()),
            sections: Ghost(Seq::empty()),
        }
    }
}


/// Whether an event is the start of a backtest.
fn is_start(event: &Event) -> (r: bool)
    ensures
        r == (*event == Event::System(SystemEvent::Init)),
{
    match event {
        Event::System(SystemEvent::Init) => true,
        _ => false,
    }
}

/// Reads the cross-section of every trading day from the data source, the
/// last day first, and hands them out day by day: each one an answer of the
/// source for its day. A reading that fails stops it with the error that the
/// source answered for that day.
fn read_sections<D: MarketData>(days: &Vec<Date>, database: &mut D) -> (r: Result<
    Vec<SymbolMap<DateBar>>,
    Error,
>)
    ensures
        match r {
            Ok(sections) => sections@.len() == days@.len() && forall|i: int|
                0 <= i < days@.len() ==> old(database).spec_section_answer(
                    days@[i],
                    Ok(#[trigger] sections@[i]),
                ),
            Err(e) => exists|j: int|
                0 <= j < days@.len() && old(database).spec_section_answer(#[trigger] days@[j], Err(e)),
        },
        forall|a: Date, b: Date, x: Result<Seq<Date>, Error>|
            #[trigger] final(database).spec_days_answer(a, b, x) == old(database).spec_days_answer(a, b, x),
        forall|d: Date, x: Result<SymbolMap<DateBar>, Error>|
            #[trigger] final(database).spec_section_answer(d, x) == old(database).spec_section_answer(d, x),
{
    let ghost db0 = *database;
    let n = days.len();
    let mut backwards: Vec<SymbolMap<DateBar>> = Vec::new();
    let mut j: usize = n;
    while j > 0
        invariant
            j <= n,
            n == days@.len(),
            backwards@.len() == n - j,
            db0 == *old(database),
            forall|k: int|
                0 <= k < n - j ==> db0.spec_section_answer(days@[n - 1 - k], Ok(#[trigger] backwards@[k])),
            forall|a: Date, b: Date, x: Result<Seq<Date>, Error>|
                #[trigger] database.spec_days_answer(a, b, x) == db0.spec_days_answer(a, b, x),
            forall|d: Date, x: Result<SymbolMap<DateBar>, Error>|
                #[trigger] database.spec_section_answer(d, x) == db0.spec_section_answer(d, x),
        decreases j,
    {
        j = j - 1;
        let ghost before = *database;
        let section = match database.get_cross_section(&days[j]) {
            Ok(s) => s,
            Err(e) => {
                proof {
                    assert(before.spec_section_answer(days@[j as int], Err(e)));
                    assert(db0.spec_section_answer(days@[j as int], Err(e)));
                }
                return Err(e);
            },
        };
        proof {
            assert(db0.spec_section_answer(days@[j as int], Ok(section)));
        }
        let ghost back0 = backwards@;
        backwards.push(section);
        proof {
            assert forall|k: int| 0 <= k < n - j implies db0.spec_section_answer(
                days@[n - 1 - k],
                Ok(#[trigger] backwards@[k]),
            ) by {
                if k < n - j - 1 {
                    assert(backwards@[k] == back0[k]);
                }
            }
        }
    }
    let ghost all_back = backwards@;
    let mut sections: Vec<SymbolMap<DateBar>> = Vec::new();
    while backwards.len() > 0
        invariant
            n == days@.len(),
            all_back.len() == n,
            sections@.len() + backwards@.len() == n,
            backwards@ == all_back.take(backwards@.len() as int),
            forall|i: int| 0 <= i < sections@.len() ==> #[trigger] sections@[i] == all_back[n - 1 - i],
        decreases backwards@.len(),
    {
        let ghost m = backwards@.len();
        let section = backwards.pop().unwrap();
        proof {
            assert(section == all_back[m - 1]);
            assert(backwards@ =~= all_back.take(m - 1));
        }
        sections.push(section);
    }
    proof {
        assert forall|i: int| 0 <= i < days@.len() implies db0.spec_section_answer(
            days@[i],
            Ok(#[trigger] sections@[i]),
        ) by {
            let k = n - 1 - i;
            assert(sections@[i] == all_back[k]);
            assert(days@[n - 1 - k] == days@[i]);
        }
    }
    Ok(sections)
}

impl<B: Broker, S: Strategy, L: Logger> BTEngine<B, S, L> {
    /// Replays the trading days `days`, whose cross-sections are `sections`,
    /// day by day.
    ///
    /// A start waiting in front is handed to the logger first. Then every
    /// day is set up, in front of the waiting events, as a preview for the
    /// broker, an open for the strategy and a close. Each event is handed to
    /// the logger, then handled: the strategy answers an open with an order,
    /// the broker answers an order with a fill, a fill is applied to the
    /// account, and the end stops the replay. Each logged order is an answer
    /// that the strategy describes for the open before it, and each logged
    /// fill one that the broker describes for that order. A fill that cannot be applied
    /// stops it with its error. The account is what the fills of the handled
    /// events made of it, in order.
    #[verifier::spinoff_prover]
    #[verifier::rlimit(80)]
    pub fn replay(&mut self, days: &Vec<Date>, sections: Vec<SymbolMap<DateBar>>) -> (r: Result<
        (),
        Error,
    >)
        requires
            days@.len() == sections@.len(),
        ensures
            old(self).spec_logged().is_prefix_of(final(self).spec_logged()),
            final(self).spec_sections() == sections@,
            final(self).spec_calendar() == old(self).spec_calendar(),
            r is Ok ==> ({
                let applied = account_after(
                    old(self).spec_account(),
                    final(self).spec_logged().skip(old(self).spec_logged().len() as int),
                );
                &&& final(self).spec_account().spec_cash() == applied.0
                &&& final(self).spec_account().spec_positions() == applied.1
                &&& applied.2 is None
            }),
            r is Err ==> ({
                let since = final(self).spec_logged().skip(old(self).spec_logged().len() as int);
                let applied = account_after(old(self).spec_account(), since);
                &&& since.len() > 0
                &&& since.last() is Fill
                &&& applied.2 == Some(r->Err_0)
                &&& final(self).spec_account().spec_cash() == applied.0
                &&& final(self).spec_account().spec_positions() == applied.1
            }),
            old(self).spec_events() == fresh_queue() && r is Ok ==> final(self).spec_events().len()
                == 0 && exists|chunks: Seq<Seq<Event>>|
                #[trigger] backtest_trace(
                    final(self).spec_logged().skip(old(self).spec_logged().len() as int),
                    days@,
                    sections@,
                    chunks,
                    old(self).spec_strategy(),
                    old(self).spec_broker(),
                    old(self).spec_account().spec_cash(),
                    old(self).spec_account().spec_positions(),
                ),
            old(self).spec_events() == seq![Event::System(SystemEvent::End)] && r is Ok ==> final(self).spec_events().len() == 0 && exists|chunks: Seq<Seq<Event>>|
                #[trigger] days_trace(
                    final(self).spec_logged().skip(old(self).spec_logged().len() as int),
                    days@,
                    sections@,
                    chunks,
                    old(self).spec_strategy(),
                    old(self).spec_broker(),
                    old(self).spec_account().spec_cash(),
                    old(self).spec_account().spec_positions(),
                ),
    {
        let ghost base = self.logged@;
        let ghost account0 = self.account;
        let ghost strat0 = self.strat;
        let ghost broker0 = self.broker;
        let ghost all_sections = sections@;
        let ghost q0 = self.events@;
        let ghost calendar0 = self.calendar@;
        let ghost mut since: Seq<Event> = Seq::empty();
        assert(base + since =~= base);
        if self.events.len() > 0 && is_start(&self.events[0]) {
            let event = self.events.pop_front().unwrap();
            self.logger.log(&event);
            self.logged = Ghost(self.logged@.push(event));
            proof {
                since = since.push(event);
                assert(self.logged@ =~= base + since);
                assert(since.drop_last() =~= Seq::<Event>::empty());
            }
        }
        let ghost since0 = since;
        let ghost q1 = self.events@;
        let ghost exact = q1 == seq![Event::System(SystemEvent::End)];
        proof {
            if q0 == fresh_queue() {
                assert(q1 =~= seq![Event::System(SystemEvent::End)]);
                assert(since0 =~= seq![Event::System(SystemEvent::Init)]);
            }
            if q0 == seq![Event::System(SystemEvent::End)] {
                assert(since0.len() == 0);
            }
        }
        let n = days.len();
        let mut pending = sections;
        let ghost mut setup: Seq<Seq<Event>> = Seq::empty();
        let mut j: usize = n;
        assert(setup.flatten() + q1 =~= self.events@);
        while j > 0
            invariant
                j <= n,
                n == days@.len(),
                all_sections.len() == n,
                pending@ == all_sections.take(j as int),
                setup.len() == n - j,
                forall|i: int|
                    0 <= i < n - j ==> day_setup(#[trigger] setup[i], days@[j + i], all_sections[j + i]),
                self.events@ == setup.flatten() + q1,
                base == old(self).spec_logged(),
                self.logged@ == base + since,
                since == since0,
                self.account == account0,
                self.calendar@ == calendar0,
                self.strat == strat0,
                self.broker == broker0,
            decreases j,
        {
            j = j - 1;
            let section = pending.pop().unwrap();
            proof {
                assert(section == all_sections[j as int]);
                assert(pending@ =~= all_sections.take(j as int));
            }
            let trade_date = days[j];
            let preview = Event::Market(MarketEvent::Preview(section.clone()));
            let open = Event::Market(MarketEvent::Open(open_section(&section, trade_date)));
            let close = Event::Market(MarketEvent::Close(section));
            let ghost chunk = seq![preview, open, close];
            let ghost queue0 = self.events@;
            proof {
                assert(day_setup(chunk, days@[j as int], all_sections[j as int]));
                let grown = seq![chunk] + setup;
                assert(grown.drop_first() =~= setup);
                assert(grown.first() == chunk);
                assert forall|i: int| 0 <= i < n - j implies day_setup(
                    #[trigger] grown[i],
                    days@[j + i],
                    all_sections[j + i],
                ) by {
                    if i > 0 {
                        assert(grown[i] == setup[i - 1]);
                    }
                }
                setup = grown;
            }
            self.events.push_front(close);
            self.events.push_front(open);
            self.events.push_front(preview);
            proof {
                assert(self.events@ =~= chunk + queue0);
                assert(self.events@ =~= setup.flatten() + q1);
            }
        }
        self.sections = Ghost(all_sections);
        let ghost chunks = setup;
        let ghost mut k: int = 0;
        let ghost mut done: Seq<Event> = Seq::empty();
        let ghost mut partial: Seq<Event> = Seq::empty();
        proof {
            assert(log_applied(account0.spec_cash(), account0.spec_positions(), Seq::<Event>::empty())
                == (account0.spec_cash(), account0.spec_positions(), None::<Error>));
            if since.len() > 0 {
                assert(since =~= seq![Event::System(SystemEvent::Init)]);
                assert(since.drop_last() =~= Seq::<Event>::empty());
                assert(since.last() == Event::System(SystemEvent::Init));
            } else {
                assert(since =~= Seq::<Event>::empty());
            }
            assert(account_after(account0, since) == (
                account0.spec_cash(),
                account0.spec_positions(),
                None::<Error>,
            ));
            assert forall|i: int| 0 <= i < n implies day_setup(
                #[trigger] chunks[i],
                days@[i],
                all_sections[i],
            ) by {
                assert(days@[0 + i] == days@[i]);
                assert(all_sections[0 + i] == all_sections[i]);
            }
            assert(chunks.skip(0) =~= chunks);
            assert(chunks.take(0) =~= Seq::<Seq<Event>>::empty());
            assert(since =~= since0 + done + partial);
        }
        loop
            invariant_except_break
                n == days@.len(),
                base == old(self).spec_logged(),
                account0 == old(self).spec_account(),
                self.logged@ == base + since,
                self.account.spec_cash() == account_after(account0, since).0,
                self.account.spec_positions() == account_after(account0, since).1,
                account_after(account0, since).2 is None,
                self.sections@ == all_sections,
                self.calendar@ == calendar0,
                all_sections == sections@,
                calendar0 == old(self).spec_calendar(),
                since.len() >= since0.len(),
                forall|i: int| 0 <= i < since0.len() ==> #[trigger] since[i] == since0[i],
                q0 == old(self).spec_events(),
                q0 == fresh_queue() ==> since0 == seq![Event::System(SystemEvent::Init)],
                q0 == seq![Event::System(SystemEvent::End)] ==> since0.len() == 0,
                q0 == fresh_queue() || q0 == seq![Event::System(SystemEvent::End)] ==> exact,
                all_sections.len() == n,
                chunks.len() == n,
                forall|i: int| 0 <= i < n ==> day_setup(#[trigger] chunks[i], days@[i], all_sections[i]),
                exact == (q1 == seq![Event::System(SystemEvent::End)]),
                forall|e: MarketEvent, c: Price, p: Seq<(String, Quantity)>, o: Order|
                    #[trigger] self.strat.spec_order_answer(e, c, p, o) == strat0.spec_order_answer(
                        e,
                        c,
                        p,
                        o,
                    ),
                forall|o: Order, c: Price, p: Seq<(String, Quantity)>, f: Event|
                    #[trigger] self.broker.spec_fill_answer(o, c, p, f) == broker0.spec_fill_answer(
                        o,
                        c,
                        p,
                        f,
                    ),
                strat0 == old(self).spec_strategy(),
                broker0 == old(self).spec_broker(),
                since0.len() == 0 || since0 == seq![Event::System(SystemEvent::Init)],
                exact ==> since == since0 + done + partial && run_stage(
                    chunks,
                    k,
                    done,
                    partial,
                    self.events@,
                    strat0,
                    broker0,
                    account0.spec_cash(),
                    account0.spec_positions(),
                ),
            ensures
                base == old(self).spec_logged(),
                account0 == old(self).spec_account(),
                self.logged@ == base + since,
                self.account.spec_cash() == account_after(account0, since).0,
                self.account.spec_positions() == account_after(account0, since).1,
                account_after(account0, since).2 is None,
                self.sections@ == all_sections,
                self.calendar@ == calendar0,
                since.len() >= since0.len(),
                forall|i: int| 0 <= i < since0.len() ==> #[trigger] since[i] == since0[i],
                q0 == old(self).spec_events(),
                q0 == fresh_queue() ==> since0 == seq![Event::System(SystemEvent::Init)],
                q0 == seq![Event::System(SystemEvent::End)] ==> since0.len() == 0,
                q0 == fresh_queue() || q0 == seq![Event::System(SystemEvent::End)] ==> exact,
                strat0 == old(self).spec_strategy(),
                broker0 == old(self).spec_broker(),
                exact ==> self.events@.len() == 0 && days_trace(
                    since.skip(since0.len() as int),
                    days@,
                    all_sections,
                    chunks,
                    strat0,
                    broker0,
                    account0.spec_cash(),
                    account0.spec_positions(),
                ),
            decreases queue_weight(self.events@),
        {
            proof {
                if exact {
                    lemma_flatten_skip(chunks, k);
                }
            }
            let ghost before = self.events@;
            let next = self.events.pop_front();
            let event = match next {
                Some(e) => e,
                None => {
                    proof {
                        if exact {
                            assert(before.len() > 0);
                            assert(false);
                        }
                    }
                    break;
                },
            };
            let ghost e = event;
            proof {
                assert(self.events@ =~= before.drop_first());
            }
            let ghost head = since;
            self.logger.log(&event);
            self.logged = Ghost(self.logged@.push(event));
            proof {
                let prev = since;
                since = since.push(e);
                assert(self.logged@ =~= base + since);
                assert(since.drop_last() =~= prev);
                assert(since.last() == e);
                assert forall|i: int| 0 <= i < since0.len() implies #[trigger] since[i] == since0[i] by {
                    assert(since[i] == prev[i]);
                }
            }
            match event {
                Event::System(SystemEvent::Init) => {
                    proof {
                        if exact {
                            assert(false) by {
                                if partial.len() == 0 && k < n {
                                    assert(before[0] == chunks[k][0]);
                                }
                            }
                        }
                    }
                },
                Event::System(SystemEvent::End) => {
                    proof {
                        if exact {
                            assert(partial.len() == 0 && k == n) by {
                                if partial.len() == 0 && k < n {
                                    assert(before[0] == chunks[k][0]);
                                }
                            }
                            assert(chunks.take(k) =~= chunks);
                            assert(self.events@.len() == 0);
                            let tail = since.skip(since0.len() as int);
                            assert(tail =~= done + seq![Event::System(SystemEvent::End)]);
                            assert(tail.drop_last() =~= done);
                        }
                    }
                    break;
                },
                Event::Market(market_event) => {
                    match &market_event {
                        MarketEvent::Open(_) => {
                            let ghost strat_before = self.strat;
                            let action = self.strat.on_market(&market_event, &self.account);
                            proof {
                                assert(strat_before.spec_order_answer(
                                    market_event,
                                    self.account.spec_cash(),
                                    self.account.spec_positions(),
                                    action,
                                ));
                                assert(strat0.spec_order_answer(
                                    market_event,
                                    self.account.spec_cash(),
                                    self.account.spec_positions(),
                                    action,
                                ));
                            }
                            let ghost queue0 = self.events@;
                            self.events.push_front(Event::Order(action));
                            proof {
                                lemma_queue_weight_front(Event::Order(action), queue0);
                            }
                        },
                        MarketEvent::Close(_) => {
                            let _ = self.strat.on_market(&market_event, &self.account);
                        },
                        MarketEvent::Preview(_) => {
                            self.broker.preview(&market_event);
                        },
                    }
                    proof {
                        if exact {
                            let rest = chunks.skip(k + 1).flatten() + seq![
                                Event::System(SystemEvent::End),
                            ];
                            if partial.len() == 0 {
                                assert(before[0] == chunks[k][0]);
                                assert(self.events@ =~= seq![chunks[k][1], chunks[k][2]] + rest);
                                partial = partial.push(e);
                            } else if partial.len() == 1 {
                                lemma_day_start(
                                    account0.spec_cash(),
                                    account0.spec_positions(),
                                    since0,
                                    done,
                                    partial,
                                );
                                assert(before.drop_first() =~= seq![chunks[k][2]] + rest);
                                assert(self.events@.drop_first() =~= seq![chunks[k][2]] + rest);
                                partial = partial.push(e);
                            } else if partial.len() == 4 {
                                assert(self.events@ =~= rest);
                                let day = partial.push(e);
                                let grown = done + day;
                                assert(chunks.take(k + 1).drop_last() =~= chunks.take(k));
                                assert(chunks.take(k + 1).last() == chunks[k]);
                                assert(grown.subrange(grown.len() - 5, grown.len() as int) =~= day);
                                assert(grown.subrange(0, grown.len() - 5) =~= done);
                                assert(since =~= since0 + grown + Seq::<Event>::empty());
                                done = grown;
                                k = k + 1;
                                partial = Seq::empty();
                            }
                        }
                    }
                },
                Event::Order(order_event) => {
                    let ghost broker_before = self.broker;
                    let ghost account_before = self.account;
                    let reply = self.broker.on_order(&order_event, &mut self.account);
                    proof {
                        assert(broker_before.spec_fill_answer(
                            order_event,
                            account_before.spec_cash(),
                            account_before.spec_positions(),
                            reply,
                        ));
                        assert(broker0.spec_fill_answer(
                            order_event,
                            account_before.spec_cash(),
                            account_before.spec_positions(),
                            reply,
                        ));
                    }
                    let ghost queue0 = self.events@;
                    self.events.push_front(reply);
                    proof {
                        lemma_queue_weight_front(reply, queue0);
                        if exact {
                            lemma_day_start(
                                account0.spec_cash(),
                                account0.spec_positions(),
                                since0,
                                done,
                                partial,
                            );
                            let rest = chunks.skip(k + 1).flatten() + seq![
                                Event::System(SystemEvent::End),
                            ];
                            assert(self.events@.drop_first() =~= seq![chunks[k][2]] + rest);
                            partial = partial.push(e);
                        }
                    }
                },
                Event::Fill(fill_event) => {
                    match &fill_event {
                        FillEvent::Succeed(fills) => {
                            let ghost cash0 = self.account.spec_cash();
                            let ghost positions0 = self.account.spec_positions();
                            match self.account.apply_fills(fills) {
                                Ok(()) => {},
                                Err(err) => {
                                    proof {
                                        assert(self.spec_sections() == all_sections);
                                        assert(self.spec_calendar() == calendar0);
                                        lemma_logged_prefix(base, since);
                                        assert(self.logged@.skip(base.len() as int) =~= since);
                                        assert(fills_applied(cash0, positions0, fills.spec_entries())
                                            == (
                                            self.account.spec_cash(),
                                            self.account.spec_positions(),
                                            Some(err),
                                        ));
                                    }
                                    return Err(err);
                                },
                            }
                        },
                        FillEvent::Reject => {},
                    }
                    proof {
                        if exact {
                            partial = partial.push(e);
                        }
                    }
                },
            }
        }
        proof {
            assert(self.logged@.skip(base.len() as int) =~= since);
            lemma_logged_prefix(base, since);
            if q0 == fresh_queue() {
                assert(since0.len() == 1);
                assert(since.drop_first() =~= since.skip(1));
                assert(since.len() >= 1);
                assert(since[0] == since0[0]);
                assert(backtest_trace(
                    since,
                    days@,
                    all_sections,
                    chunks,
                    strat0,
                    broker0,
                    account0.spec_cash(),
                    account0.spec_positions(),
                ));
            }
            if q0 == seq![Event::System(SystemEvent::End)] {
                assert(since.skip(0) =~= since);
                assert(days_trace(
                    since,
                    days@,
                    all_sections,
                    chunks,
                    strat0,
                    broker0,
                    account0.spec_cash(),
                    account0.spec_positions(),
                ));
            }
        }
        Ok(())
    }

    /// Runs the backtest over the trading days from `start` to `end`.
    ///
    /// The trading days from `start` to `end` are asked of the data source;
    /// its answer is the calendar, and when there is no day, nothing happens.
    /// Each cross-section is the source's answer for its day. A start waiting in front is handed to the logger,
    /// then the cross-section of every trading day is read, the last day
    /// first, and the days are replayed: see [`BTEngine::replay`]. A reading
    /// that fails, or a fill that cannot be applied, stops the run with its
    /// error. The account is what the fills of the handled events made of it,
    /// in order.
    #[verifier::spinoff_prover]
    pub fn run<D: MarketData>(&mut self, start: Date, end: Date, database: &mut D) -> (r: Result<
        (),
        Error,
    >)
        requires
            date_le(start@, end@),
        ensures
            old(self).spec_logged().is_prefix_of(final(self).spec_logged()),
            r is Ok ==> ({
                let applied = account_after(
                    old(self).spec_account(),
                    final(self).spec_logged().skip(old(self).spec_logged().len() as int),
                );
                &&& final(self).spec_account().spec_cash() == applied.0
                &&& final(self).spec_account().spec_positions() == applied.1
                &&& applied.2 is None
            }),
            r is Err ==> run_failure(
                final(self).spec_logged().skip(old(self).spec_logged().len() as int),
                account_after(
                    old(self).spec_account(),
                    final(self).spec_logged().skip(old(self).spec_logged().len() as int),
                ),
                final(self).spec_account(),
                r->Err_0,
            ),
            ({
                let since = final(self).spec_logged().skip(old(self).spec_logged().len() as int);
                let calendar = final(self).spec_calendar();
                let sections = final(self).spec_sections();
                &&& r is Err && since.len() == 0 ==> old(database).spec_days_answer(
                    start,
                    end,
                    Err(r->Err_0),
                )
                &&& r is Ok || since.len() > 0 ==> old(database).spec_days_answer(
                    start,
                    end,
                    Ok(calendar),
                )
                &&& calendar.len() == 0 && (r is Ok || since.len() > 0) ==> r is Ok && since.len() == 0
                    && final(self).spec_events() == old(self).spec_events()
                &&& sections.len() == 0 || sections.len() == calendar.len()
                &&& forall|i: int|
                    0 <= i < sections.len() ==> old(database).spec_section_answer(
                        calendar[i],
                        Ok(#[trigger] sections[i]),
                    )
                &&& r is Err && since == seq![Event::System(SystemEvent::Init)] ==> exists|j: int|
                    0 <= j < calendar.len() && old(database).spec_section_answer(
                        #[trigger] calendar[j],
                        Err(r->Err_0),
                    )
            }),
            old(self).spec_events() == fresh_queue() && r is Ok ==> ({
                ||| final(self).spec_calendar().len() == 0 && final(self).spec_logged() == old(
                    self,
                ).spec_logged() && final(self).spec_events() == old(self).spec_events()
                ||| final(self).spec_calendar().len() > 0 && final(self).spec_events().len() == 0
                    && exists|chunks: Seq<Seq<Event>>|
                    #[trigger] backtest_trace(
                        final(self).spec_logged().skip(old(self).spec_logged().len() as int),
                        final(self).spec_calendar(),
                        final(self).spec_sections(),
                        chunks,
                        old(self).spec_strategy(),
                        old(self).spec_broker(),
                        old(self).spec_account().spec_cash(),
                        old(self).spec_account().spec_positions(),
                    )
            }),
    {
        let ghost base = self.logged@;
        let ghost account0 = self.account;
        let ghost strat0 = self.strat;
        let ghost broker0 = self.broker;
        assert(base.is_prefix_of(base + Seq::<Event>::empty()));
        assert(base + Seq::<Event>::empty() =~= base);
        assert(base.skip(base.len() as int) =~= Seq::<Event>::empty());
        self.calendar = Ghost(Seq::empty());
        self.sections = Ghost(Seq::empty());
        let ghost db0 = *database;
        let trading_days = match database.get_trading_days(&start, &end) {
            Ok(days) => days,
            Err(e) => {
                return Err(e);
            },
        };
        self.calendar = Ghost(trading_days@);
        assert(db0.spec_days_answer(start, end, Ok::<Seq<Date>, Error>(trading_days@)));
        if trading_days.len() == 0 {
            return Ok(());
        }
        if self.events.len() > 0 && is_start(&self.events[0]) {
            let ghost q0 = self.events@;
            let event = self.events.pop_front().unwrap();
            self.logger.log(&event);
            self.logged = Ghost(self.logged@.push(event));
            let ghost first = seq![Event::System(SystemEvent::Init)];
            proof {
                assert(self.logged@ =~= base + first);
                assert(self.logged@.skip(base.len() as int) =~= first);
                lemma_logged_prefix(base, first);
                assert(first.drop_last() =~= Seq::<Event>::empty());
                assert(first.last() == Event::System(SystemEvent::Init));
                assert(log_applied(
                    account0.spec_cash(),
                    account0.spec_positions(),
                    Seq::<Event>::empty(),
                ) == (account0.spec_cash(), account0.spec_positions(), None::<Error>));
                assert(account_after(account0, first) == (
                    account0.spec_cash(),
                    account0.spec_positions(),
                    None::<Error>,
                ));
            }
            let ghost db1 = *database;
            let sections = match read_sections(&trading_days, database) {
                Ok(s) => s,
                Err(e) => {
                    proof {
                        assert(self.logged@.skip(base.len() as int) =~= first);
                        let j = choose|j: int|
                            0 <= j < trading_days@.len() && db1.spec_section_answer(
                                #[trigger] trading_days@[j],
                                Err(e),
                            );
                        assert(db0.spec_section_answer(trading_days@[j], Err(e)));
                        assert(self.spec_sections().len() == 0);
                        assert(self.spec_calendar() == trading_days@);
                        assert(self.spec_logged().skip(base.len() as int) == seq![
                            Event::System(SystemEvent::Init),
                        ]);
                    }
                    return Err(e);
                },
            };
            let ghost mid = self.logged@;
            let ghost sections_read = sections@;
            proof {
                if q0 == fresh_queue() {
                    assert(self.events@ =~= seq![Event::System(SystemEvent::End)]);
                }
            }
            assert(self.spec_strategy() == strat0 && self.spec_broker() == broker0);
            assert(self.spec_account() == account0);
            let r = self.replay(&trading_days, sections);
            proof {
                let since_r = self.logged@.skip(mid.len() as int);
                let since = self.logged@.skip(base.len() as int);
                assert(mid.is_prefix_of(self.logged@));
                assert(self.logged@ =~= mid + since_r);
                assert(since =~= first + since_r);
                assert(since.drop_first() =~= since_r);
                lemma_log_applied_after_start(
                    account0.spec_cash(),
                    account0.spec_positions(),
                    since_r,
                );
                assert(base.is_prefix_of(self.logged@)) by {
                    assert(self.logged@.subrange(0, base.len() as int) =~= base);
                }
                if r is Err {
                    assert(since.last() == since_r.last());
                }
                if q0 == fresh_queue() && r is Ok {
                    let chunks = choose|chunks: Seq<Seq<Event>>|
                        #[trigger] days_trace(
                            since_r,
                            trading_days@,
                            sections_read,
                            chunks,
                            strat0,
                            broker0,
                            account0.spec_cash(),
                            account0.spec_positions(),
                        );
                    assert(backtest_trace(
                        since,
                        trading_days@,
                        sections_read,
                        chunks,
                        strat0,
                        broker0,
                        account0.spec_cash(),
                        account0.spec_positions(),
                    ));
                    assert(strat0 == old(self).spec_strategy() && broker0 == old(self).spec_broker());
                    assert(backtest_trace(
                        self.spec_logged().skip(base.len() as int),
                        self.spec_calendar(),
                        self.spec_sections(),
                        chunks,
                        old(self).spec_strategy(),
                        old(self).spec_broker(),
                        old(self).spec_account().spec_cash(),
                        old(self).spec_account().spec_positions(),
                    ));
                }
            }
            r
        } else {
            let ghost mid = self.logged@;
            let none: Vec<Date> = Vec::new();
            let r = self.replay(&none, Vec::new());
            proof {
                assert(mid == base);
            }
            r
        }
    }
}

} // verus!
