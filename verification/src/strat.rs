use vstd::prelude::*;

use crate::data::{Price, Quantity};
use crate::engine::{Account, MarketEvent, Order};

verus! {

/// Decides the orders of a backtest from what the market shows.
///
/// What a strategy may answer to each market event is its own description,
/// which its work leaves as it is; a strategy that describes nothing may
/// answer anything.
pub trait Strategy {
    /// Whether `order` is an answer of the strategy to `market_event` when it
    /// is handed an account holding `cash` and `positions`.
    open spec fn spec_order_answer(
        &self,
        market_event: MarketEvent,
        cash: Price,
        positions: Seq<(String, Quantity)>,
        order: Order,
    ) -> bool {
        true
    }

    fn on_market(&mut self, market_event: &MarketEvent, account: &Account) -> (r: Order)
        ensures
            old(self).spec_order_answer(
                *market_event,
                account.spec_cash(),
                account.spec_positions(),
                r,
            ),
            forall|e: MarketEvent, c: Price, p: Seq<(String, Quantity)>, o: Order|
                #[trigger] final(self).spec_order_answer(e, c, p, o) == old(self).spec_order_answer(
                    e,
                    c,
                    p,
                    o,
                ),
    ;
}

} // verus!
