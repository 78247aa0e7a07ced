//! Engine-level laws: properties that relate several operations, proved
//! once and for all inputs.

use vstd::prelude::*;

use crate::candle::Candle;
use crate::engine::{
    apply_credit_spec, exec_orders_rec, exec_positions_rec, exit_level, fills, mark_closed_spec,
    next_id_inc, ratchet, should_close,
};
use crate::order::{Order, OrderType};
use crate::position::{position_of_order, side_of_order, Position, PositionEvent, PositionSide};

verus! {

/// The committed cost of every position in the sequence, summed.
pub open spec fn sum_position_costs(s: Seq<Position>) -> int
    decreases s.len(),
{
    if s.len() == 0 {
        0
    } else {
        s[0].cost_spec() + sum_position_costs(s.drop_first())
    }
}

/// Whether an order's entry price lies inside the candle's traversed
/// range, so that the candle can fill it.
pub open spec fn in_range(o: Order, c: Candle) -> bool {
    c.low <= o.entry_type.entry_price_spec() <= c.high
}

/// Order execution accounting: as long as the balance covers the locked
/// funds, a tick's order execution fills exactly the in-range orders, each
/// exactly once. Every filled order leaves the pending list and becomes
/// one position with its side, entry price and quantity; the balance and
/// the locked funds each drop by exactly the summed cost of the opened
/// positions; no in-range order stays pending.
pub proof fn lemma_order_execution_accounting(
    rest: Seq<Order>,
    balance: int,
    locked: int,
    nid: u64,
    c: Candle,
)
    requires
        balance >= locked,
    ensures
        ({
            let f = exec_orders_rec(rest, balance, locked, nid, c);
            &&& f.balance == balance - sum_position_costs(f.opened)
            &&& f.locked == locked - sum_position_costs(f.opened)
            &&& f.pending.len() + f.opened.len() == rest.len()
            &&& forall|k: int| 0 <= k < f.pending.len() ==> !in_range(#[trigger] f.pending[k], c)
            &&& forall|k: int|
                0 <= k < f.opened.len() ==> exists|m: int|
                    {
                        &&& 0 <= m < rest.len()
                        &&& in_range(rest[m], c)
                        &&& (#[trigger] f.opened[k]).side == side_of_order(rest[m].side)
                        &&& f.opened[k].entry_price == rest[m].entry_type.entry_price_spec()
                        &&& f.opened[k].quantity == rest[m].quantity
                    }
        }),
    decreases rest.len(),
{
    let f = exec_orders_rec(rest, balance, locked, nid, c);
    if rest.len() > 0 {
        let o = rest[0];
        let tail = rest.drop_first();
        if fills(o, c, balance, locked) {
            let p = position_of_order(o, nid);
            let cost = o.cost_spec();
            lemma_order_execution_accounting(
                tail,
                balance - cost,
                locked - cost,
                next_id_inc(nid),
                c,
            );
            let r = exec_orders_rec(tail, balance - cost, locked - cost, next_id_inc(nid), c);
            assert((seq![p] + r.opened).drop_first() =~= r.opened);
            assert((seq![p] + r.opened)[0] == p);
            assert(p.cost_spec() == cost);
            assert forall|k: int| 0 <= k < f.opened.len() implies exists|m: int|
                {
                    &&& 0 <= m < rest.len()
                    &&& in_range(rest[m], c)
                    &&& (#[trigger] f.opened[k]).side == side_of_order(rest[m].side)
                    &&& f.opened[k].entry_price == rest[m].entry_type.entry_price_spec()
                    &&& f.opened[k].quantity == rest[m].quantity
                } by {
                if k == 0 {
                    assert(in_range(rest[0], c));
                    assert(f.opened[0] == p);
                } else {
                    let m0 = choose|m0: int|
                        {
                            &&& 0 <= m0 < tail.len()
                            &&& in_range(tail[m0], c)
                            &&& (#[trigger] r.opened[k - 1]).side == side_of_order(tail[m0].side)
                            &&& r.opened[k - 1].entry_price
                                == tail[m0].entry_type.entry_price_spec()
                            &&& r.opened[k - 1].quantity == tail[m0].quantity
                        };
                    assert(rest[m0 + 1] == tail[m0]);
                    assert(f.opened[k] == r.opened[k - 1]);
                }
            }
        } else {
            lemma_order_execution_accounting(tail, balance, locked, nid, c);
            let r = exec_orders_rec(tail, balance, locked, nid, c);
            assert(!in_range(o, c));
            assert forall|k: int| 0 <= k < f.pending.len() implies !in_range(
                #[trigger] f.pending[k],
                c,
            ) by {
                if k == 0 {
                    assert(f.pending[0] == o);
                } else {
                    assert(f.pending[k] == r.pending[k - 1]);
                }
            }
        }
    }
}

/// A close that neither saturates nor is rejected credits the wallet with
/// exactly the committed cost plus the realized profit: the balance after
/// the close is the balance before, plus the returned cost, plus the
/// profit.
pub proof fn lemma_close_credit_exact(balance: u64, p: Position, exit_price: u64)
    requires
        0 <= balance + p.credit_spec(exit_price) <= u64::MAX,
    ensures
        apply_credit_spec(balance as int, p.credit_spec(exit_price)) == balance + p.cost_spec()
            + p.profit_spec(exit_price),
{
}

/// A trailing stop never moves against the position: across any tick's
/// ratchet, a long's stop level never decreases and a short's never
/// increases, the percent is kept, and every other field — and every
/// position without a trailing stop — is unchanged.
pub proof fn lemma_trailing_ratchet_favorable(p: Position, c: Candle)
    ensures
        p.exit_type matches Some(OrderType::TrailingStop(before, pct)) ==> ({
            let q = ratchet(p, c);
            &&& q.exit_type matches Some(OrderType::TrailingStop(after, pct2)) && pct2 == pct && (
            p.side is Long ==> after >= before) && (p.side is Short ==> after <= before)
            &&& q == (Position { exit_type: q.exit_type, ..p })
        }),
        !(p.exit_type matches Some(OrderType::TrailingStop(_, _))) ==> ratchet(p, c) == p,
{
}

/// Every position that survives a tick's exit evaluation is an original
/// position with its trailing stop ratcheted for that candle — so, by
/// `lemma_trailing_ratchet_favorable`, a surviving trailing stop has moved
/// only in the position's favor.
pub proof fn lemma_positions_tick_survivors(
    rest: Seq<Position>,
    balance: int,
    events: Seq<PositionEvent>,
    c: Candle,
    tick: usize,
)
    ensures
        ({
            let f = exec_positions_rec(rest, balance, events, c, tick);
            forall|k: int|
                0 <= k < f.kept.len() ==> exists|m: int|
                    0 <= m < rest.len() && (#[trigger] f.kept[k]) == ratchet(rest[m], c)
        }),
    decreases rest.len(),
{
    let f = exec_positions_rec(rest, balance, events, c, tick);
    if rest.len() > 0 {
        let p = rest[0];
        let tail = rest.drop_first();
        let q = ratchet(p, c);
        let credit = q.credit_spec(exit_level(q, c));
        if should_close(q, c) && balance + credit >= 0 {
            lemma_positions_tick_survivors(
                tail,
                apply_credit_spec(balance, credit),
                mark_closed_spec(events, q.id, tick, exit_level(q, c)),
                c,
                tick,
            );
            let r = exec_positions_rec(
                tail,
                apply_credit_spec(balance, credit),
                mark_closed_spec(events, q.id, tick, exit_level(q, c)),
                c,
                tick,
            );
            assert forall|k: int| 0 <= k < f.kept.len() implies exists|m: int|
                0 <= m < rest.len() && (#[trigger] f.kept[k]) == ratchet(rest[m], c) by {
                let m0 = choose|m0: int|
                    0 <= m0 < tail.len() && (#[trigger] r.kept[k]) == ratchet(tail[m0], c);
                assert(rest[m0 + 1] == tail[m0]);
            }
        } else {
            lemma_positions_tick_survivors(tail, balance, events, c, tick);
            let r = exec_positions_rec(tail, balance, events, c, tick);
            assert(f.kept == seq![q] + r.kept);
            assert forall|k: int| 0 <= k < f.kept.len() implies exists|m: int|
                0 <= m < rest.len() && (#[trigger] f.kept[k]) == ratchet(rest[m], c) by {
                if k == 0 {
                    assert(f.kept[0] == q);
                    assert(rest[0] == p);
                } else {
                    let m0 = choose|m0: int|
                        0 <= m0 < tail.len() && (#[trigger] r.kept[k - 1]) == ratchet(
                            tail[m0],
                            c,
                        );
                    assert(rest[m0 + 1] == tail[m0]);
                    assert(f.kept[k] == r.kept[k - 1]);
                }
            }
        }
    }
}

/// `after` is `before` with its trailing stop at least as tight: same
/// identity, side, entry and quantity, and a trailing-stop level that has
/// not moved against the position — not down for a long, not up for a
/// short. Positions without a trailing stop must be unchanged.
pub open spec fn trail_tightened(before: Position, after: Position) -> bool {
    &&& after.id == before.id
    &&& after.side == before.side
    &&& after.entry_price == before.entry_price
    &&& after.quantity == before.quantity
    &&& match (before.exit_type, after.exit_type) {
        (
            Some(OrderType::TrailingStop(b, pb)),
            Some(OrderType::TrailingStop(a, pa)),
        ) => pa == pb && (before.side is Long ==> a >= b) && (before.side is Short ==> a <= b),
        (x, y) => x == y,
    }
}

/// Across a whole tick of exit evaluation, no surviving position's
/// trailing stop moves against it: every position still open afterwards is
/// an original position whose trailing-stop level has only tightened.
pub proof fn lemma_trailing_stops_only_tighten(
    rest: Seq<Position>,
    balance: int,
    events: Seq<PositionEvent>,
    c: Candle,
    tick: usize,
)
    ensures
        ({
            let f = exec_positions_rec(rest, balance, events, c, tick);
            forall|k: int|
                0 <= k < f.kept.len() ==> exists|m: int|
                    0 <= m < rest.len() && trail_tightened(rest[m], #[trigger] f.kept[k])
        }),
{
    let f = exec_positions_rec(rest, balance, events, c, tick);
    lemma_positions_tick_survivors(rest, balance, events, c, tick);
    assert forall|k: int| 0 <= k < f.kept.len() implies exists|m: int|
        0 <= m < rest.len() && trail_tightened(rest[m], #[trigger] f.kept[k]) by {
        let m0 = choose|m0: int|
            0 <= m0 < rest.len() && (#[trigger] f.kept[k]) == ratchet(rest[m0], c);
        lemma_trailing_ratchet_favorable(rest[m0], c);
        assert(trail_tightened(rest[m0], f.kept[k]));
    }
}

/// Tie-break: when a position carries both a take-profit and a stop-loss
/// and one candle satisfies both thresholds, the position closes and the
/// take-profit price is the exit price.
pub proof fn lemma_take_profit_precedence(p: Position, c: Candle)
    requires
        p.exit_type matches Some(OrderType::TakeProfitAndStopLoss(tp, sl)) && tp > 0 && sl > 0 && (
        match p.side {
            PositionSide::Long => tp <= c.high && sl >= c.low,
            PositionSide::Short => tp >= c.low && sl <= c.high,
        }),
    ensures
        should_close(p, c),
        p.exit_type matches Some(OrderType::TakeProfitAndStopLoss(tp, sl)) ==> exit_level(p, c)
            == tp,
{
}

} // verus!
