use vstd::prelude::*;

use crate::data::date::date_le;
use crate::data::decimal::{fits_i64, option_units, product_units, units_product};
use crate::data::{Date, DateBar, Price, Quantity};
use crate::engine::engine::held;
use crate::engine::event::{Event, FillEvent, MarketEvent};
use crate::engine::symbols::{entries_insert, lemma_lookup_insert, SymbolMap};

verus! {

/// Sees every event of a backtest.
pub trait Logger {
    fn log(&mut self, event: &Event);
}

/// Cash, positions and equity at the close of a day.
#[derive(Debug, Clone)]
pub struct EquityPoint {
    pub cash: Price,
    pub position: SymbolMap<Quantity>,
    pub equity: Price,
}

impl Default for EquityPoint {
    fn default() -> (r: Self)
        ensures
            r.cash@ == 0,
            r.equity@ == 0,
            r.position.spec_entries().len() == 0,
    {
        EquityPoint {
            cash: Price::from_units(0),
            position: SymbolMap::new(),
            equity: Price::from_units(0),
        }
    }
}

/// Whether the dates of the curve strictly increase.
pub open spec fn dates_increasing(curve: Seq<(Date, EquityPoint)>) -> bool {
    forall|i: int, j: int|
        0 <= i < j < curve.len() ==> date_le((#[trigger] curve[i]).0@, (#[trigger] curve[j]).0@)
            && curve[i].0@ != curve[j].0@
}

/// The market value of the held positions at the close prices of a
/// cross-section, when every step of the sum is a valid price.
pub open spec fn market_value(
    section: Seq<(String, DateBar)>,
    positions: Seq<(String, Quantity)>,
) -> Option<int>
    decreases section.len(),
{
    if section.len() == 0 {
        Some(0)
    } else {
        match market_value(section.drop_last(), positions) {
            None => None,
            Some(total) => match section.last().1.ohlc.close {
                None => Some(total),
                Some(close) => match units_product(close@, held(positions, section.last().0@)) {
                    None => None,
                    Some(v) => if fits_i64(total + v) {
                        Some(total + v)
                    } else {
                        None
                    },
                },
            },
        }
    }
}

/// Whether every point of the curve `after` at the date is `point`, and every
/// point at another date was already in `before`.
pub open spec fn only_point(
    before: Seq<(Date, EquityPoint)>,
    after: Seq<(Date, EquityPoint)>,
    date: Date,
    point: EquityPoint,
) -> bool {
    forall|i: int|
        0 <= i < after.len() ==> ((#[trigger] after[i]).0 == date ==> after[i].1 == point) && (
        after[i].0 != date ==> before.contains(after[i]))
}

/// Tracks cash and positions from fills and records the equity at each close.
#[derive(Debug)]
pub struct EquityLogger {
    equity_curve: Vec<(Date, EquityPoint)>,
    cash: Price,
    position: SymbolMap<Quantity>,
}

impl EquityLogger {
    #[verifier::type_invariant]
    spec fn ordered(self) -> bool {
        dates_increasing(self.equity_curve@)
    }

    /// The recorded equity by date.
    pub closed spec fn spec_curve(&self) -> Seq<(Date, EquityPoint)> {
        self.equity_curve@
    }

    /// The cash after the fills seen so far.
    pub closed spec fn spec_cash(&self) -> Price {
        self.cash
    }

    /// The positions after the fills seen so far, by symbol.
    pub closed spec fn spec_positions(&self) -> Seq<(String, Quantity)> {
        self.position.spec_entries()
    }

    /// A logger with no cash, no position and an empty curve.
    pub fn new() -> (r: Self)
        ensures
            r.spec_curve().len() == 0,
            r.spec_cash()@ == 0,
            r.spec_positions().len() == 0,
    {
        EquityLogger {
            equity_curve: Vec::new(),
            cash: Price::from_units(0),
            position: SymbolMap::new(),
        }
    }

    /// The recorded equity by date, in increasing order of date.
    pub fn equity_curve(&self) -> (r: &Vec<(Date, EquityPoint)>)
        ensures
            r@ == self.spec_curve(),
            dates_increasing(r@),
    {
        proof {
            use_type_invariant(self);
        }
        &self.equity_curve
    }

    /// Records a point at a date, replacing the point of that date if there is one.
    fn record_point(&mut self, date: Date, point: EquityPoint)
        ensures
            final(self).spec_cash() == old(self).spec_cash(),
            final(self).spec_positions() == old(self).spec_positions(),
            exists|i: int|
                0 <= i < final(self).spec_curve().len() && #[trigger] final(self).spec_curve()[i]
                    == (date, point),
            forall|i: int|
                0 <= i < old(self).spec_curve().len() && (#[trigger] old(self).spec_curve()[i]).0
                    != date ==> final(self).spec_curve().contains(old(self).spec_curve()[i]),
            only_point(old(self).spec_curve(), final(self).spec_curve(), date, point),
    {
        proof {
            use_type_invariant(&*self);
        }
        let n = self.equity_curve.len();
        let mut p: usize = 0;
        while p < n && !date.is_not_after(&self.equity_curve[p].0)
            invariant
                n == self.equity_curve@.len(),
                p <= n,
                forall|k: int|
                    0 <= k < p ==> !date_le(date@, (#[trigger] self.equity_curve@[k]).0@),
            decreases n - p,
        {
            p = p + 1;
        }
        let ghost s = self.equity_curve@;
        let mut curve = Vec::new();
        core::mem::swap(&mut curve, &mut self.equity_curve);
        if p < n && curve[p].0 == date {
            curve.set(p, (date, point));
            proof {
                let t = curve@;
                assert(t[p as int] == (date, point));
                assert forall|i: int, j: int| 0 <= i < j < t.len() implies date_le(
                    (#[trigger] t[i]).0@,
                    (#[trigger] t[j]).0@,
                ) && t[i].0@ != t[j].0@ by {
                    if i != p && j != p {
                        assert(t[i] == s[i] && t[j] == s[j]);
                    } else if i == p {
                        assert(t[j] == s[j]);
                        assert(s[i].0 == date);
                    } else {
                        assert(t[i] == s[i]);
                        assert(s[j].0 == date);
                    }
                }
                assert forall|i: int|
                    0 <= i < s.len() && (#[trigger] s[i]).0 != date implies t.contains(s[i]) by {
                    assert(i != p);
                    assert(t[i] == s[i]);
                }
            }
        } else {
            proof {
                if p < n {
                    Date::lemma_view_eq(s[p as int].0, date);
                }
            }
            curve.insert(p, (date, point));
            proof {
                let t = curve@;
                assert(t[p as int] == (date, point));
                assert forall|i: int, j: int| 0 <= i < j < t.len() implies date_le(
                    (#[trigger] t[i]).0@,
                    (#[trigger] t[j]).0@,
                ) && t[i].0@ != t[j].0@ by {
                    if j < p {
                        assert(t[i] == s[i] && t[j] == s[j]);
                    } else if j == p {
                        assert(t[i] == s[i]);
                        assert(!date_le(date@, s[i].0@));
                    } else if i == p {
                        assert(t[j] == s[j - 1]);
                        if j - 1 > p {
                            assert(date_le(s[p as int].0@, s[j - 1].0@));
                        }
                        assert(date_le(date@, s[p as int].0@));
                        assert(s[p as int].0@ != date@);
                    } else if i < p {
                        assert(t[i] == s[i] && t[j] == s[j - 1]);
                    } else {
                        assert(t[i] == s[i - 1] && t[j] == s[j - 1]);
                    }
                }
                assert forall|i: int|
                    0 <= i < s.len() && (#[trigger] s[i]).0 != date implies t.contains(s[i]) by {
                    if i < p {
                        assert(t[i] == s[i]);
                    } else {
                        assert(t[i + 1] == s[i]);
                    }
                }
            }
        }
        proof {
            let t = curve@;
            assert forall|i: int| 0 <= i < t.len() implies ((#[trigger] t[i]).0 == date ==> t[i].1
                == point) && (t[i].0 != date ==> s.contains(t[i])) by {
                if i != p {
                    if i < p {
                        assert(t[i].0@ != t[p as int].0@);
                    } else {
                        assert(t[p as int].0@ != t[i].0@);
                    }
                    if t.len() == s.len() {
                        assert(t[i] == s[i]);
                    } else if i < p {
                        assert(t[i] == s[i]);
                    } else {
                        assert(t[i] == s[i - 1]);
                    }
                }
            }
        }
        self.equity_curve = curve;
        assert(self.spec_curve()[p as int] == (date, point));
    }
}


/// The cash and position after the logger sees one fill, if every step of it
/// is valid: the trade value and the commission leave the cash, and the
/// quantity is added to the position.
pub open spec fn logged_fill(
    cash: Price,
    positions: Seq<(String, Quantity)>,
    fill: (String, (Price, Quantity, Price)),
) -> Option<(Price, Quantity)> {
    match product_units(fill.1.0, fill.1.1) {
        None => None,
        Some(value) => {
            let left = cash@ - value - fill.1.2@;
            let next = held(positions, fill.0@) + fill.1.1@;
            if !fits_i64(cash@ - value) || !fits_i64(left) || !fits_i64(next) {
                None
            } else {
                Some((Price::spec_from_units(left), Quantity::spec_from_units(next)))
            }
        },
    }
}

/// The cash and positions after the logger sees a sequence of fills; a fill
/// that is not valid leaves them as they are.
pub open spec fn logged_fills(
    cash: Price,
    positions: Seq<(String, Quantity)>,
    fills: Seq<(String, (Price, Quantity, Price))>,
) -> (Price, Seq<(String, Quantity)>)
    decreases fills.len(),
{
    if fills.len() == 0 {
        (cash, positions)
    } else {
        let before = logged_fills(cash, positions, fills.drop_last());
        match logged_fill(before.0, before.1, fills.last()) {
            Some((c, q)) => (c, entries_insert(before.1, fills.last().0, q)),
            None => before,
        }
    }
}

/// After the logger sees a fill of quantity `q` of a symbol at price `p`
/// with commission `c`, when its trade value `p * q` and every step are valid,
/// it holds `q` more of that symbol and the same of every other symbol, and
/// its cash is down by the trade value and the commission; a fill that is not
/// valid changes nothing.
pub proof fn lemma_logged_fill_adds(
    cash: Price,
    positions: Seq<(String, Quantity)>,
    fills: Seq<(String, (Price, Quantity, Price))>,
    fill: (String, (Price, Quantity, Price)),
)
    ensures
        ({
            let before = logged_fills(cash, positions, fills);
            let after = logged_fills(cash, positions, fills.push(fill));
            let symbol = fill.0@;
            let q = fill.1.1@;
            match units_product(fill.1.0@, q) {
                Some(value) => if fits_i64(before.0@ - value) && fits_i64(
                    before.0@ - value - fill.1.2@,
                ) && fits_i64(held(before.1, symbol) + q) {
                    &&& held(after.1, symbol) == held(before.1, symbol) + q
                    &&& forall|other: Seq<char>|
                        other != symbol ==> #[trigger] held(after.1, other) == held(
                            before.1,
                            other,
                        )
                    &&& after.0@ == before.0@ - value - fill.1.2@
                } else {
                    after == before
                },
                None => after == before,
            }
        }),
{
    let before = logged_fills(cash, positions, fills);
    let all = fills.push(fill);
    assert(all.drop_last() =~= fills);
    assert(all.last() == fill);
    let symbol = fill.0@;
    let q = fill.1.1@;
    match units_product(fill.1.0@, q) {
        Some(value) => {
            let left = before.0@ - value - fill.1.2@;
            let next = held(before.1, symbol) + q;
            if fits_i64(before.0@ - value) && fits_i64(left) && fits_i64(next) {
                Price::lemma_from_units_view(left);
                Quantity::lemma_from_units_view(next);
                let after = entries_insert(before.1, fill.0, Quantity::spec_from_units(next));
                lemma_lookup_insert(before.1, fill.0, Quantity::spec_from_units(next), symbol);
                assert forall|other: Seq<char>| other != symbol implies #[trigger] held(
                    after,
                    other,
                ) == held(before.1, other) by {
                    lemma_lookup_insert(before.1, fill.0, Quantity::spec_from_units(next), other);
                }
            }
        },
        None => {},
    }
}

impl EquityLogger {
    /// The market value of the held positions at the close prices of a cross-section.
    fn market_value_of(&self, section: &SymbolMap<DateBar>) -> (r: Option<Price>)
        ensures
            option_units(r) == market_value(section.spec_entries(), self.spec_positions()),
    {
        let ghost entries = section.spec_entries();
        let n = section.len();
        let mut total = Price::from_units(0);
        let mut i: usize = 0;
        while i < n
            invariant
                n == entries.len(),
                entries == section.spec_entries(),
                i <= n,
                market_value(entries.take(i as int), self.spec_positions()) == Some(total@),
            decreases n - i,
        {
            let entry = section.entry(i);
            proof {
                assert(entries.take(i + 1).drop_last() =~= entries.take(i as int));
                assert(entries.take(i + 1).last() == entries[i as int]);
            }
            match entry.1.ohlc.close {
                Some(close) => {
                    let held_quantity = match self.position.get(entry.0.as_str()) {
                        Some(q) => *q,
                        None => Quantity::from_units(0),
                    };
                    let value = match close.checked_mul_quantity(held_quantity) {
                        Some(v) => v,
                        None => {
                            proof {
                                lemma_market_value_stuck(entries, self.spec_positions(), i as int + 1);
                            }
                            return None;
                        },
                    };
                    total = match total.checked_add(value) {
                        Some(t) => t,
                        None => {
                            proof {
                                lemma_market_value_stuck(entries, self.spec_positions(), i as int + 1);
                            }
                            return None;
                        },
                    };
                },
                None => {},
            }
            i = i + 1;
        }
        assert(entries.take(n as int) =~= entries);
        Some(total)
    }
}

/// Once a prefix of the sum fails, the whole sum fails.
proof fn lemma_market_value_stuck(
    entries: Seq<(String, DateBar)>,
    positions: Seq<(String, Quantity)>,
    k: int,
)
    requires
        0 <= k <= entries.len(),
        market_value(entries.take(k), positions) is None,
    ensures
        market_value(entries, positions) is None,
    decreases entries.len() - k,
{
    if k < entries.len() {
        assert(entries.take(k + 1).drop_last() =~= entries.take(k));
        lemma_market_value_stuck(entries, positions, k + 1);
    } else {
        assert(entries.take(k) =~= entries);
    }
}


/// The equity point that a close records, when the section is not empty and
/// its market value and the equity are valid prices: the date of its first
/// bar, the cash, and the equity in ten-thousandths.
pub open spec fn close_point(
    section: Seq<(String, DateBar)>,
    cash: Price,
    positions: Seq<(String, Quantity)>,
) -> Option<(Date, int)> {
    if section.len() == 0 {
        None
    } else {
        match market_value(section, positions) {
            None => None,
            Some(v) => if fits_i64(cash@ + v) {
                Some((section[0].1.date, cash@ + v))
            } else {
                None
            },
        }
    }
}

/// Whether two entry sequences hold the same symbols with the same values, in
/// the same order.
pub open spec fn same_entries<V>(a: Seq<(String, V)>, b: Seq<(String, V)>) -> bool {
    &&& a.len() == b.len()
    &&& forall|k: int| 0 <= k < a.len() ==> (#[trigger] a[k]).0@ == b[k].0@ && a[k].1 == b[k].1
}

/// Whether a point holds that cash, a copy of those positions and that equity
/// in ten-thousandths.
pub open spec fn point_holds(
    point: EquityPoint,
    cash: Price,
    positions: Seq<(String, Quantity)>,
    equity: int,
) -> bool {
    &&& point.cash == cash
    &&& point.equity@ == equity
    &&& same_entries(point.position.spec_entries(), positions)
}

/// Whether the curve `after` is `before` with its point at the date set to
/// one holding that cash, a copy of those positions and that equity: the
/// points at other dates stay, and no other point is added.
pub open spec fn records_point(
    before: Seq<(Date, EquityPoint)>,
    after: Seq<(Date, EquityPoint)>,
    date: Date,
    cash: Price,
    positions: Seq<(String, Quantity)>,
    equity: int,
) -> bool {
    &&& exists|i: int| 0 <= i < after.len() && (#[trigger] after[i]).0 == date
    &&& forall|i: int|
        0 <= i < after.len() ==> ((#[trigger] after[i]).0 == date ==> point_holds(
            after[i].1,
            cash,
            positions,
            equity,
        )) && (after[i].0 != date ==> before.contains(after[i]))
    &&& keeps_other_dates(before, after, date)
}

/// Whether every point of the first curve at another date is in the second.
pub open spec fn keeps_other_dates(
    before: Seq<(Date, EquityPoint)>,
    after: Seq<(Date, EquityPoint)>,
    date: Date,
) -> bool {
    forall|i: int| 0 <= i < before.len() && (#[trigger] before[i]).0 != date ==> after.contains(before[i])
}

impl EquityLogger {
    /// Records the equity at the close of a cross-section; a section whose
    /// market value or equity is not a valid price records nothing.
    pub fn record_close(&mut self, section: &SymbolMap<DateBar>)
        ensures
            final(self).spec_cash() == old(self).spec_cash(),
            final(self).spec_positions() == old(self).spec_positions(),
            match close_point(section.spec_entries(), old(self).spec_cash(), old(self).spec_positions()) {
                None => final(self).spec_curve() == old(self).spec_curve(),
                Some((date, equity)) => {
                    &&& records_point(
                        old(self).spec_curve(),
                        final(self).spec_curve(),
                        date,
                        old(self).spec_cash(),
                        old(self).spec_positions(),
                        equity,
                    )
                },
            },
    {
        if section.is_empty() {
            return;
        }
        let date = section.entry(0).1.date;
        let value = match self.market_value_of(section) {
            Some(v) => v,
            None => {
                return;
            },
        };
        let equity = match self.cash.checked_add(value) {
            Some(e) => e,
            None => {
                return;
            },
        };
        let point = EquityPoint { cash: self.cash, position: self.position.clone(), equity };
        assert(same_entries(point.position.spec_entries(), self.spec_positions()));
        let ghost before = self.spec_curve();
        self.record_point(date, point);
        proof {
            let after = self.spec_curve();
            let i = choose|i: int| 0 <= i < after.len() && #[trigger] after[i] == (date, point);
            assert(after[i].0 == date);
        }
    }

    /// Takes fills into the cash and positions; a fill that is not valid is
    /// left out.
    pub fn record_fills(&mut self, fills: &SymbolMap<(Price, Quantity, Price)>)
        ensures
            (final(self).spec_cash(), final(self).spec_positions()) == logged_fills(
                old(self).spec_cash(),
                old(self).spec_positions(),
                fills.spec_entries(),
            ),
            final(self).spec_curve() == old(self).spec_curve(),
    {
        let ghost entries = fills.spec_entries();
        let ghost cash0 = self.cash;
        let ghost positions0 = self.position.spec_entries();
        let n = fills.len();
        let mut i: usize = 0;
        assert(entries.take(0) =~= Seq::<(String, (Price, Quantity, Price))>::empty());
        while i < n
            invariant
                n == entries.len(),
                entries == fills.spec_entries(),
                i <= n,
                (self.cash, self.position.spec_entries()) == logged_fills(
                    cash0,
                    positions0,
                    entries.take(i as int),
                ),
                self.spec_curve() == old(self).spec_curve(),
            decreases n - i,
        {
            let entry = fills.entry(i);
            proof {
                assert(entries.take(i + 1).drop_last() =~= entries.take(i as int));
                assert(entries.take(i + 1).last() == entries[i as int]);
            }
            let price = entry.1.0;
            let quantity = entry.1.1;
            let commission = entry.1.2;
            let held_quantity = match self.position.get(entry.0.as_str()) {
                Some(q) => *q,
                None => Quantity::from_units(0),
            };
            let applied = match price.checked_mul_quantity(quantity) {
                Some(value) => match self.cash.checked_sub(value) {
                    Some(after_value) => match after_value.checked_sub(commission) {
                        Some(after_fill) => match held_quantity.checked_add(quantity) {
                            Some(next) => Some((after_fill, next)),
                            None => None,
                        },
                        None => None,
                    },
                    None => None,
                },
                None => None,
            };
            match applied {
                Some((after_fill, next)) => {
                    proof {
                        use_type_invariant(&*self);
                        Price::lemma_from_view(after_fill);
                        Quantity::lemma_from_view(next);
                    }
                    self.cash = after_fill;
                    let mut position = SymbolMap::new();
                    core::mem::swap(&mut position, &mut self.position);
                    position.insert(entry.0.clone(), next);
                    self.position = position;
                },
                None => {},
            }
            i = i + 1;
        }
        assert(entries.take(n as int) =~= entries);
    }
}

impl Logger for EquityLogger {
    fn log(&mut self, event: &Event)
        ensures
            match event {
                Event::Market(MarketEvent::Close(section)) => {
                    &&& final(self).spec_cash() == old(self).spec_cash()
                    &&& final(self).spec_positions() == old(self).spec_positions()
                    &&& close_point(
                        section.spec_entries(),
                        old(self).spec_cash(),
                        old(self).spec_positions(),
                    ) is None ==> final(self).spec_curve() == old(self).spec_curve()
                    &&& close_point(
                        section.spec_entries(),
                        old(self).spec_cash(),
                        old(self).spec_positions(),
                    ) matches Some((date, equity)) ==> {
                        &&& records_point(
                            old(self).spec_curve(),
                            final(self).spec_curve(),
                            date,
                            old(self).spec_cash(),
                            old(self).spec_positions(),
                            equity,
                        )
                    }
                },
                Event::Fill(FillEvent::Succeed(fills)) => {
                    &&& (final(self).spec_cash(), final(self).spec_positions()) == logged_fills(
                        old(self).spec_cash(),
                        old(self).spec_positions(),
                        fills.spec_entries(),
                    )
                    &&& final(self).spec_curve() == old(self).spec_curve()
                },
                _ => *final(self) == *old(self),
            },
    {
        match event {
            Event::Market(MarketEvent::Close(section)) => self.record_close(section),
            Event::Fill(FillEvent::Succeed(fills)) => self.record_fills(fills),
            _ => {},
        }
    }
}

} // verus!
