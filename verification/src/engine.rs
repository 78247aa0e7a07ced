//! The backtest engine: candle iteration, order matching, position exits
//! and wallet bookkeeping.

use vstd::prelude::*;

use crate::candle::Candle;
use crate::errors::Error;
use crate::money::{add_percent_spec, sub_percent_spec, PRICE_MAX, QTY_MAX, TRAIL_MAX};
use crate::order::{Order, OrderType};
use crate::position::{position_of_order, CloseRecord, Position, PositionEvent, PositionSide};
use crate::wallet::Wallet;

verus! {

/// The cost of every order in the sequence, summed.
pub open spec fn sum_costs(s: Seq<Order>) -> int
    decreases s.len(),
{
    if s.len() == 0 {
        0
    } else {
        s[0].cost_spec() + sum_costs(s.drop_first())
    }
}

/// An order's cost is a product of unsigned values.
pub proof fn lemma_cost_nonneg(o: Order)
    ensures
        o.cost_spec() >= 0,
{
    assert(o.entry_type.entry_price_spec() * o.quantity >= 0) by (nonlinear_arith);
}

pub proof fn lemma_sum_costs_nonneg(s: Seq<Order>)
    ensures
        sum_costs(s) >= 0,
    decreases s.len(),
{
    if s.len() > 0 {
        lemma_cost_nonneg(s[0]);
        lemma_sum_costs_nonneg(s.drop_first());
    }
}

pub proof fn lemma_sum_costs_push(s: Seq<Order>, o: Order)
    ensures
        sum_costs(s.push(o)) == sum_costs(s) + o.cost_spec(),
    decreases s.len(),
{
    if s.len() == 0 {
        let e = s.push(o).drop_first();
        assert(e =~= Seq::<Order>::empty());
        assert(sum_costs(e) == 0);
        assert(s.push(o)[0] == o);
    } else {
        assert(s.push(o).drop_first() =~= s.drop_first().push(o));
        assert(s.push(o)[0] == s[0]);
        lemma_sum_costs_push(s.drop_first(), o);
    }
}

pub proof fn lemma_sum_costs_remove(s: Seq<Order>, i: int)
    requires
        0 <= i < s.len(),
    ensures
        sum_costs(s.remove(i)) == sum_costs(s) - s[i].cost_spec(),
    decreases s.len(),
{
    if i == 0 {
        assert(s.remove(0) =~= s.drop_first());
    } else {
        assert(s.remove(i).drop_first() =~= s.drop_first().remove(i - 1));
        lemma_sum_costs_remove(s.drop_first(), i - 1);
    }
}

/// Each order's cost is at most the total of the list it sits in.
pub proof fn lemma_cost_le_sum(s: Seq<Order>, i: int)
    requires
        0 <= i < s.len(),
    ensures
        s[i].cost_spec() <= sum_costs(s),
{
    lemma_sum_costs_remove(s, i);
    lemma_sum_costs_nonneg(s.remove(i));
}

/// The sum of unrealized profits of the open positions, all marked at
/// `mark`.
pub open spec fn unrealized_spec(s: Seq<Position>, mark: u64) -> int
    decreases s.len(),
{
    if s.len() == 0 {
        0
    } else {
        s[0].profit_spec(mark) + unrealized_spec(s.drop_first(), mark)
    }
}

/// The audit log after the record of position `id` is marked closed at
/// `tick` with `exit_price`; records of other positions are untouched.
pub open spec fn mark_closed_spec(
    evs: Seq<PositionEvent>,
    id: u64,
    tick: usize,
    exit_price: u64,
) -> Seq<PositionEvent> {
    evs.map_values(
        |e: PositionEvent|
            if e.id == id {
                PositionEvent { closed: Some(CloseRecord { tick, exit_price }), ..e }
            } else {
                e
            },
    )
}

/// Marks the audit record of position `id` closed.
fn mark_closed(events: &mut Vec<PositionEvent>, id: u64, tick: usize, exit_price: u64)
    ensures
        final(events)@ == mark_closed_spec(old(events)@, id, tick, exit_price),
{
    let n = events.len();
    let mut i: usize = 0;
    while i < n
        invariant
            n == events@.len(),
            0 <= i <= n,
            events@.len() == old(events)@.len(),
            forall|k: int|
                0 <= k < i ==> events@[k] == mark_closed_spec(old(events)@, id, tick, exit_price)[k],
            forall|k: int| i <= k < n ==> events@[k] == old(events)@[k],
        decreases n - i,
    {
        if events[i].id == id {
            let updated = PositionEvent {
                closed: Some(CloseRecord { tick, exit_price }),
                ..events[i]
            };
            events.set(i, updated);
        }
        i = i + 1;
    }
    proof {
        assert(events@ =~= mark_closed_spec(old(events)@, id, tick, exit_price));
    }
}

/// The identifier counter after one position is opened; it stops at the
/// largest value rather than wrapping.
pub open spec fn next_id_inc(id: u64) -> u64 {
    if id < u64::MAX {
        (id + 1) as u64
    } else {
        id
    }
}

/// The audit record written when position `p` opens at `tick`.
pub open spec fn open_event(p: Position, tick: usize) -> PositionEvent {
    PositionEvent {
        id: p.id,
        open_tick: tick,
        side: p.side,
        entry_price: p.entry_price,
        closed: None,
    }
}

/// An order fills on a candle when its entry price lies inside the
/// candle's low-high range and the balance covers the locked funds, so the
/// reserved cost can be committed.
pub open spec fn fills(o: Order, c: Candle, balance: int, locked: int) -> bool {
    &&& c.low <= o.entry_type.entry_price_spec() <= c.high
    &&& balance >= locked
}

/// The outcome of running order execution over a list of pending orders.
pub struct OrderFold {
    /// Orders that did not fill, in their original relative positions.
    pub pending: Seq<Order>,
    /// Wallet balance after committing every filled order's cost.
    pub balance: int,
    /// Locked funds after releasing every filled order's reservation.
    pub locked: int,
    /// Positions opened by the filled orders, in fill order.
    pub opened: Seq<Position>,
    /// The identifier counter after all fills.
    pub next_id: u64,
}

/// Order execution, one pending order at a time, oldest first: an order
/// that fills is removed, its cost moves out of both the locked funds and
/// the balance, and it opens a position under the next identifier; any
/// other order stays pending.
pub open spec fn exec_orders_rec(
    rest: Seq<Order>,
    balance: int,
    locked: int,
    next_id: u64,
    c: Candle,
) -> OrderFold
    decreases rest.len(),
{
    if rest.len() == 0 {
        OrderFold { pending: Seq::empty(), balance, locked, opened: Seq::empty(), next_id }
    } else {
        let o = rest[0];
        if fills(o, c, balance, locked) {
            let p = position_of_order(o, next_id);
            let r = exec_orders_rec(
                rest.drop_first(),
                balance - o.cost_spec(),
                locked - o.cost_spec(),
                next_id_inc(next_id),
                c,
            );
            OrderFold { opened: seq![p] + r.opened, ..r }
        } else {
            let r = exec_orders_rec(rest.drop_first(), balance, locked, next_id, c);
            OrderFold { pending: seq![o] + r.pending, ..r }
        }
    }
}

/// Order execution over a concatenation is execution of the first part
/// followed by execution of the second from the state the first left.
proof fn lemma_orders_rec_app(s1: Seq<Order>, s2: Seq<Order>, balance: int, locked: int, nid: u64, c: Candle)
    ensures
        ({
            let a = exec_orders_rec(s1, balance, locked, nid, c);
            let b = exec_orders_rec(s2, a.balance, a.locked, a.next_id, c);
            exec_orders_rec(s1 + s2, balance, locked, nid, c) == (OrderFold {
                pending: a.pending + b.pending,
                balance: b.balance,
                locked: b.locked,
                opened: a.opened + b.opened,
                next_id: b.next_id,
            })
        }),
    decreases s1.len(),
{
    let a = exec_orders_rec(s1, balance, locked, nid, c);
    let b = exec_orders_rec(s2, a.balance, a.locked, a.next_id, c);
    if s1.len() == 0 {
        assert(s1 + s2 =~= s2);
        assert(a.pending + b.pending =~= b.pending);
        assert(a.opened + b.opened =~= b.opened);
    } else {
        let o = s1[0];
        assert((s1 + s2)[0] == o);
        assert((s1 + s2).drop_first() =~= s1.drop_first() + s2);
        if fills(o, c, balance, locked) {
            lemma_orders_rec_app(
                s1.drop_first(),
                s2,
                balance - o.cost_spec(),
                locked - o.cost_spec(),
                next_id_inc(nid),
                c,
            );
            let a1 = exec_orders_rec(
                s1.drop_first(),
                balance - o.cost_spec(),
                locked - o.cost_spec(),
                next_id_inc(nid),
                c,
            );
            let p = position_of_order(o, nid);
            assert((seq![p] + a1.opened) + b.opened =~= seq![p] + (a1.opened + b.opened));
        } else {
            lemma_orders_rec_app(s1.drop_first(), s2, balance, locked, nid, c);
            let a1 = exec_orders_rec(s1.drop_first(), balance, locked, nid, c);
            assert((seq![o] + a1.pending) + b.pending =~= seq![o] + (a1.pending + b.pending));
        }
    }
}

/// Order execution on a single order, written out.
proof fn lemma_orders_rec_singleton(o: Order, balance: int, locked: int, nid: u64, c: Candle)
    ensures
        exec_orders_rec(seq![o], balance, locked, nid, c) == (if fills(o, c, balance, locked) {
            OrderFold {
                pending: Seq::<Order>::empty(),
                balance: balance - o.cost_spec(),
                locked: locked - o.cost_spec(),
                opened: seq![position_of_order(o, nid)],
                next_id: next_id_inc(nid),
            }
        } else {
            OrderFold {
                pending: seq![o],
                balance,
                locked,
                opened: Seq::<Position>::empty(),
                next_id: nid,
            }
        }),
{
    reveal_with_fuel(exec_orders_rec, 2);
    assert(seq![o].drop_first() =~= Seq::<Order>::empty());
    if fills(o, c, balance, locked) {
        assert(seq![position_of_order(o, nid)] + Seq::<Position>::empty() =~= seq![
            position_of_order(o, nid),
        ]);
    } else {
        assert(seq![o] + Seq::<Order>::empty() =~= seq![o]);
    }
}

/// The profit of closing at any supported price fits the engine's
/// arithmetic: both signed products are bounded by `TRAIL_MAX * QTY_MAX`.
proof fn lemma_profit_product_bounds(entry: u64, exit: u64, qty: u64)
    requires
        entry <= TRAIL_MAX,
        exit <= TRAIL_MAX,
        qty <= QTY_MAX,
    ensures
        -(TRAIL_MAX * QTY_MAX) <= (exit - entry) * qty <= TRAIL_MAX * QTY_MAX,
        -(TRAIL_MAX * QTY_MAX) <= (entry - exit) * qty <= TRAIL_MAX * QTY_MAX,
{
    assert((exit - entry) * qty <= TRAIL_MAX * QTY_MAX && (exit - entry) * qty >= -(TRAIL_MAX
        * QTY_MAX) && (entry - exit) * qty <= TRAIL_MAX * QTY_MAX && (entry - exit) * qty >= -(
    TRAIL_MAX * QTY_MAX)) by (nonlinear_arith)
        requires
            entry <= TRAIL_MAX,
            exit <= TRAIL_MAX,
            0 <= qty <= QTY_MAX,
    ;
}

/// The balance after `credit` is applied, saturating at the largest
/// representable balance. Meaningful only when the result is not negative;
/// the engine rejects updates that would be.
pub open spec fn apply_credit_spec(balance: int, credit: int) -> int {
    if balance + credit > u64::MAX {
        u64::MAX as int
    } else {
        balance + credit
    }
}

/// Whether `p`'s exit rule is satisfied by candle `c`. During a tick the
/// engine applies this to the position as it stands after this tick's
/// trailing ratchet.
///
/// A take-profit/stop-loss closes a long when the take-profit is set and
/// reachable at the candle's high, or the stop-loss is set and reachable
/// at the candle's low; a short mirrors that. A trailing stop closes a
/// long when the candle's low touches the stop level, and a short when the
/// high does.
pub open spec fn should_close(p: Position, c: Candle) -> bool {
    match p.exit_type {
        None => false,
        Some(OrderType::TakeProfitAndStopLoss(tp, sl)) => match p.side {
            PositionSide::Long => (tp > 0 && tp <= c.high) || (sl > 0 && sl >= c.low),
            PositionSide::Short => (tp > 0 && tp >= c.low) || (sl > 0 && sl <= c.high),
        },
        Some(OrderType::TrailingStop(level, pct)) => match p.side {
            PositionSide::Long => c.low <= level,
            PositionSide::Short => c.high >= level,
        },
        Some(_) => false,
    }
}

/// The price a close triggered by candle `c` uses. When both the
/// take-profit and the stop-loss are satisfied in the same candle, the
/// take-profit wins; a trailing stop exits at its current level.
pub open spec fn exit_level(p: Position, c: Candle) -> u64 {
    match p.exit_type {
        Some(OrderType::TakeProfitAndStopLoss(tp, sl)) => match p.side {
            PositionSide::Long => if tp > 0 && tp <= c.high {
                tp
            } else {
                sl
            },
            PositionSide::Short => if tp > 0 && tp >= c.low {
                tp
            } else {
                sl
            },
        },
        Some(OrderType::TrailingStop(level, pct)) => level,
        _ => 0,
    }
}

/// The position after its trailing stop ratchets on candle `c`: a long's
/// level may rise to `pct` percent under the candle's high, a short's may
/// fall to `pct` percent over the candle's low; the level never moves the
/// other way, and positions without a trailing stop are unchanged.
pub open spec fn ratchet(p: Position, c: Candle) -> Position {
    match p.exit_type {
        Some(OrderType::TrailingStop(level, pct)) => match p.side {
            PositionSide::Long => p.with_trailingstop(sub_percent_spec(c.high, pct) as u64),
            PositionSide::Short => p.with_trailingstop(add_percent_spec(c.low, pct) as u64),
        },
        _ => p,
    }
}

/// The outcome of running exit evaluation over a list of open positions.
pub struct PosFold {
    /// Positions still open, in order: survivors carry their ratcheted
    /// trailing stops.
    pub kept: Seq<Position>,
    /// Wallet balance after crediting every close.
    pub balance: int,
    /// The audit log with every closed position's record marked.
    pub events: Seq<PositionEvent>,
}

/// Exit evaluation, one open position at a time, oldest first. Each
/// position first has its trailing stop ratcheted for this candle; the
/// close test and the exit price then use the ratcheted rule. A position
/// whose exit rule is satisfied closes at the rule's exit price, crediting
/// the committed cost plus the realized profit — unless the debit of a
/// losing close exceeds the balance, in which case the position stays
/// open, ratcheted.
pub open spec fn exec_positions_rec(
    rest: Seq<Position>,
    balance: int,
    events: Seq<PositionEvent>,
    c: Candle,
    tick: usize,
) -> PosFold
    decreases rest.len(),
{
    if rest.len() == 0 {
        PosFold { kept: Seq::empty(), balance, events }
    } else {
        let q = ratchet(rest[0], c);
        let credit = q.credit_spec(exit_level(q, c));
        if should_close(q, c) && balance + credit >= 0 {
            exec_positions_rec(
                rest.drop_first(),
                apply_credit_spec(balance, credit),
                mark_closed_spec(events, q.id, tick, exit_level(q, c)),
                c,
                tick,
            )
        } else {
            let r = exec_positions_rec(rest.drop_first(), balance, events, c, tick);
            PosFold { kept: seq![q] + r.kept, ..r }
        }
    }
}

/// Exit evaluation over a concatenation is evaluation of the first part
/// followed by evaluation of the second from the state the first left.
proof fn lemma_positions_rec_app(
    s1: Seq<Position>,
    s2: Seq<Position>,
    balance: int,
    events: Seq<PositionEvent>,
    c: Candle,
    tick: usize,
)
    ensures
        ({
            let a = exec_positions_rec(s1, balance, events, c, tick);
            let b = exec_positions_rec(s2, a.balance, a.events, c, tick);
            exec_positions_rec(s1 + s2, balance, events, c, tick) == (PosFold {
                kept: a.kept + b.kept,
                balance: b.balance,
                events: b.events,
            })
        }),
    decreases s1.len(),
{
    let a = exec_positions_rec(s1, balance, events, c, tick);
    let b = exec_positions_rec(s2, a.balance, a.events, c, tick);
    if s1.len() == 0 {
        assert(s1 + s2 =~= s2);
        assert(a.kept + b.kept =~= b.kept);
    } else {
        let p = s1[0];
        assert((s1 + s2)[0] == p);
        assert((s1 + s2).drop_first() =~= s1.drop_first() + s2);
        let q = ratchet(p, c);
        let credit = q.credit_spec(exit_level(q, c));
        if should_close(q, c) && balance + credit >= 0 {
            lemma_positions_rec_app(
                s1.drop_first(),
                s2,
                apply_credit_spec(balance, credit),
                mark_closed_spec(events, q.id, tick, exit_level(q, c)),
                c,
                tick,
            );
        } else {
            lemma_positions_rec_app(s1.drop_first(), s2, balance, events, c, tick);
            let a1 = exec_positions_rec(s1.drop_first(), balance, events, c, tick);
            assert((seq![q] + a1.kept) + b.kept =~= seq![q] + (a1.kept + b.kept));
        }
    }
}

/// Exit evaluation on a single position, written out.
proof fn lemma_positions_rec_singleton(
    p: Position,
    balance: int,
    events: Seq<PositionEvent>,
    c: Candle,
    tick: usize,
)
    ensures
        ({
            let q = ratchet(p, c);
            let credit = q.credit_spec(exit_level(q, c));
            exec_positions_rec(seq![p], balance, events, c, tick) == (if should_close(q, c)
                && balance + credit >= 0 {
                PosFold {
                    kept: Seq::<Position>::empty(),
                    balance: apply_credit_spec(balance, credit),
                    events: mark_closed_spec(events, q.id, tick, exit_level(q, c)),
                }
            } else {
                PosFold { kept: seq![q], balance, events }
            })
        }),
{
    reveal_with_fuel(exec_positions_rec, 2);
    assert(seq![p].drop_first() =~= Seq::<Position>::empty());
    let q = ratchet(p, c);
    let credit = q.credit_spec(exit_level(q, c));
    if !(should_close(q, c) && balance + credit >= 0) {
        assert(seq![q] + Seq::<Position>::empty() =~= seq![q]);
    }
}

/// Manual liquidation, one open position at a time, oldest first, all at
/// the same exit price: each position closes and credits the committed
/// cost plus the realized profit, unless the debit of a losing close
/// exceeds the balance, in which case that position is left open.
pub open spec fn close_all_rec(
    rest: Seq<Position>,
    balance: int,
    events: Seq<PositionEvent>,
    tick: usize,
    exit_price: u64,
) -> PosFold
    decreases rest.len(),
{
    if rest.len() == 0 {
        PosFold { kept: Seq::empty(), balance, events }
    } else {
        let p = rest[0];
        let credit = p.credit_spec(exit_price);
        if balance + credit >= 0 {
            close_all_rec(
                rest.drop_first(),
                apply_credit_spec(balance, credit),
                mark_closed_spec(events, p.id, tick, exit_price),
                tick,
                exit_price,
            )
        } else {
            let r = close_all_rec(rest.drop_first(), balance, events, tick, exit_price);
            PosFold { kept: seq![p] + r.kept, ..r }
        }
    }
}

/// Liquidation over a concatenation is liquidation of the first part
/// followed by liquidation of the second from the state the first left.
proof fn lemma_close_all_app(
    s1: Seq<Position>,
    s2: Seq<Position>,
    balance: int,
    events: Seq<PositionEvent>,
    tick: usize,
    exit_price: u64,
)
    ensures
        ({
            let a = close_all_rec(s1, balance, events, tick, exit_price);
            let b = close_all_rec(s2, a.balance, a.events, tick, exit_price);
            close_all_rec(s1 + s2, balance, events, tick, exit_price) == (PosFold {
                kept: a.kept + b.kept,
                balance: b.balance,
                events: b.events,
            })
        }),
    decreases s1.len(),
{
    let a = close_all_rec(s1, balance, events, tick, exit_price);
    let b = close_all_rec(s2, a.balance, a.events, tick, exit_price);
    if s1.len() == 0 {
        assert(s1 + s2 =~= s2);
        assert(a.kept + b.kept =~= b.kept);
    } else {
        let p = s1[0];
        assert((s1 + s2)[0] == p);
        assert((s1 + s2).drop_first() =~= s1.drop_first() + s2);
        let credit = p.credit_spec(exit_price);
        if balance + credit >= 0 {
            lemma_close_all_app(
                s1.drop_first(),
                s2,
                apply_credit_spec(balance, credit),
                mark_closed_spec(events, p.id, tick, exit_price),
                tick,
                exit_price,
            );
        } else {
            lemma_close_all_app(s1.drop_first(), s2, balance, events, tick, exit_price);
            let a1 = close_all_rec(s1.drop_first(), balance, events, tick, exit_price);
            assert((seq![p] + a1.kept) + b.kept =~= seq![p] + (a1.kept + b.kept));
        }
    }
}

/// Liquidation of a single position, written out.
proof fn lemma_close_all_singleton(
    p: Position,
    balance: int,
    events: Seq<PositionEvent>,
    tick: usize,
    exit_price: u64,
)
    ensures
        ({
            let credit = p.credit_spec(exit_price);
            close_all_rec(seq![p], balance, events, tick, exit_price) == (if balance + credit
                >= 0 {
                PosFold {
                    kept: Seq::<Position>::empty(),
                    balance: apply_credit_spec(balance, credit),
                    events: mark_closed_spec(events, p.id, tick, exit_price),
                }
            } else {
                PosFold { kept: seq![p], balance, events }
            })
        }),
{
    reveal_with_fuel(close_all_rec, 2);
    assert(seq![p].drop_first() =~= Seq::<Position>::empty());
    let credit = p.credit_spec(exit_price);
    if balance + credit < 0 {
        assert(seq![p] + Seq::<Position>::empty() =~= seq![p]);
    }
}

/// Appending a position adds its unrealized profit to the sum.
pub proof fn lemma_unrealized_push(s: Seq<Position>, p: Position, mark: u64)
    ensures
        unrealized_spec(s.push(p), mark) == unrealized_spec(s, mark) + p.profit_spec(mark),
    decreases s.len(),
{
    if s.len() == 0 {
        let e = s.push(p).drop_first();
        assert(e =~= Seq::<Position>::empty());
        assert(unrealized_spec(e, mark) == 0);
        assert(s.push(p)[0] == p);
    } else {
        assert(s.push(p).drop_first() =~= s.drop_first().push(p));
        assert(s.push(p)[0] == s[0]);
        lemma_unrealized_push(s.drop_first(), p, mark);
    }
}

/// An abstract snapshot of the whole engine, over mathematical values;
/// `Backtest::state` projects onto it, and `run`'s contract pins the final
/// state to a fold of per-tick transitions over it.
#[verifier::ext_equal]
pub struct EngineState {
    pub index: int,
    pub balance: int,
    pub locked: int,
    pub initial: u64,
    pub orders: Seq<Order>,
    pub data: Seq<Candle>,
    pub positions: Seq<Position>,
    pub events: Seq<PositionEvent>,
    pub next_id: u64,
}

/// The index of the first order equal to `o`, or `-1` when none matches.
pub open spec fn first_match(s: Seq<Order>, o: Order) -> int
    decreases s.len(),
{
    if s.len() == 0 {
        -1
    } else if s[0] == o {
        0
    } else {
        let r = first_match(s.drop_first(), o);
        if r == -1 {
            -1
        } else {
            r + 1
        }
    }
}

proof fn lemma_first_match_found(s: Seq<Order>, o: Order, i: int)
    requires
        0 <= i < s.len(),
        s[i] == o,
        forall|k: int| 0 <= k < i ==> s[k] != o,
    ensures
        first_match(s, o) == i,
    decreases i,
{
    if i > 0 {
        lemma_first_match_found(s.drop_first(), o, i - 1);
    }
}

proof fn lemma_first_match_none(s: Seq<Order>, o: Order)
    requires
        forall|k: int| 0 <= k < s.len() ==> s[k] != o,
    ensures
        first_match(s, o) == -1,
    decreases s.len(),
{
    if s.len() > 0 {
        lemma_first_match_none(s.drop_first(), o);
    }
}

/// The engine state after one strategy command is applied the way `run`
/// applies it: a placement joins the pending list and locks its cost when
/// the order is inside the supported ranges, valid, and affordable, and is
/// ignored otherwise; a cancellation removes the first matching pending
/// order and unlocks its cost, and is ignored when nothing matches.
pub open spec fn apply_command_spec(st: EngineState, cmd: Command) -> EngineState {
    match cmd {
        Command::Place(o) => {
            if o.bounded() && o.valid() && st.balance - st.locked >= o.cost_spec() {
                EngineState { orders: st.orders.push(o), locked: st.locked + o.cost_spec(), ..st }
            } else {
                st
            }
        },
        Command::Cancel(o) => {
            let i = first_match(st.orders, o);
            if i >= 0 {
                EngineState {
                    orders: st.orders.remove(i),
                    locked: st.locked - o.cost_spec(),
                    ..st
                }
            } else {
                st
            }
        },
    }
}

/// One strategy command after another, oldest first.
pub open spec fn apply_commands_spec(st: EngineState, cmds: Seq<Command>) -> EngineState
    decreases cmds.len(),
{
    if cmds.len() == 0 {
        st
    } else {
        apply_commands_spec(apply_command_spec(st, cmds[0]), cmds.drop_first())
    }
}

proof fn lemma_apply_commands_push(st: EngineState, cmds: Seq<Command>, cmd: Command)
    ensures
        apply_commands_spec(st, cmds.push(cmd)) == apply_command_spec(
            apply_commands_spec(st, cmds),
            cmd,
        ),
    decreases cmds.len(),
{
    if cmds.len() == 0 {
        assert(cmds.push(cmd).drop_first() =~= Seq::<Command>::empty());
        assert(cmds.push(cmd)[0] == cmd);
        assert(apply_commands_spec(apply_command_spec(st, cmd), Seq::<Command>::empty())
            == apply_command_spec(st, cmd));
        assert(apply_commands_spec(st, Seq::<Command>::empty()) == st);
    } else {
        assert(cmds.push(cmd).drop_first() =~= cmds.drop_first().push(cmd));
        assert(cmds.push(cmd)[0] == cmds[0]);
        lemma_apply_commands_push(apply_command_spec(st, cmds[0]), cmds.drop_first(), cmd);
    }
}

/// One whole tick of a run, from a state whose index points at the candle
/// to process: the index advances, the strategy's commands are applied,
/// pending orders execute against the candle, and position exits are
/// evaluated on it.
pub open spec fn tick_step_spec(st: EngineState, cmds: Seq<Command>) -> EngineState {
    let c = st.data[st.index];
    let tick = st.index as usize;
    let st1 = EngineState { index: st.index + 1, ..st };
    let st2 = apply_commands_spec(st1, cmds);
    let fo = exec_orders_rec(st2.orders, st2.balance, st2.locked, st2.next_id, c);
    let st3 = EngineState {
        orders: fo.pending,
        balance: fo.balance,
        locked: fo.locked,
        positions: st2.positions + fo.opened,
        events: st2.events + fo.opened.map_values(|p: Position| open_event(p, tick)),
        next_id: fo.next_id,
        ..st2
    };
    let fp = exec_positions_rec(st3.positions, st3.balance, st3.events, c, tick);
    EngineState { positions: fp.kept, balance: fp.balance, events: fp.events, ..st3 }
}

/// A whole run: one `tick_step_spec` per processed candle, the strategy
/// contributing `cmdss[k]` on the `k`-th of them.
pub open spec fn run_fold(st: EngineState, cmdss: Seq<Seq<Command>>) -> EngineState
    decreases cmdss.len(),
{
    if cmdss.len() == 0 {
        st
    } else {
        run_fold(tick_step_spec(st, cmdss[0]), cmdss.drop_first())
    }
}

proof fn lemma_run_fold_push(st: EngineState, cmdss: Seq<Seq<Command>>, cmds: Seq<Command>)
    ensures
        run_fold(st, cmdss.push(cmds)) == tick_step_spec(run_fold(st, cmdss), cmds),
    decreases cmdss.len(),
{
    if cmdss.len() == 0 {
        assert(cmdss.push(cmds).drop_first() =~= Seq::<Seq<Command>>::empty());
        assert(cmdss.push(cmds)[0] == cmds);
        assert(run_fold(tick_step_spec(st, cmds), Seq::<Seq<Command>>::empty())
            == tick_step_spec(st, cmds));
        assert(run_fold(st, Seq::<Seq<Command>>::empty()) == st);
    } else {
        assert(cmdss.push(cmds).drop_first() =~= cmdss.drop_first().push(cmds));
        assert(cmdss.push(cmds)[0] == cmdss[0]);
        lemma_run_fold_push(tick_step_spec(st, cmdss[0]), cmdss.drop_first(), cmds);
    }
}

/// One trading command a strategy can issue while the engine replays.
pub enum Command {
    /// Submit a new order.
    Place(Order),
    /// Cancel a pending order equal to the carried one.
    Cancel(Order),
}

/// A trading strategy driven by the engine: once per tick, before orders
/// and exits are evaluated, the engine shows the strategy the current
/// candle and a read-only view of itself, and then applies the commands
/// the strategy returns.
pub trait Strategy {
    /// Decides what to do on one candle. Commands carrying an order outside
    /// the supported ranges, an invalid order, or an unknown order to
    /// cancel are ignored by the engine.
    fn on_candle(&mut self, engine: &Backtest, candle: &Candle) -> Vec<Command>;
}

/// Backtesting engine: replays a candle sequence, filling pending orders
/// and evaluating position exits one tick at a time.
#[derive(Debug)]
pub struct Backtest {
    /// Number of candles consumed so far; `next` advances it.
    pub index: usize,
    pub wallet: Wallet,
    /// Pending orders; every one has passed `place_order`'s validation.
    pub orders: Vec<Order>,
    /// The immutable candle sequence under test.
    pub data: Vec<Candle>,
    /// Open positions.
    pub positions: Vec<Position>,
    /// Audit log: one record per position ever opened, marked closed in
    /// place; `reset` does not clear it.
    pub events: Vec<PositionEvent>,
    /// Source of position identifiers; increases with each fill.
    pub next_id: u64,
}

impl Backtest {
    /// Internal consistency: the candle data and stored orders and
    /// positions are inside the supported ranges, pending orders have the
    /// validated shape, and the wallet's locked amount is exactly the summed
    /// cost of the pending orders.
    pub open spec fn wf(self) -> bool {
        &&& self.index <= self.data@.len()
        &&& forall|i: int| 0 <= i < self.data@.len() ==> (#[trigger] self.data@[i]).bounded()
        &&& forall|i: int| 0 <= i < self.orders@.len() ==> (#[trigger] self.orders@[i]).valid()
        &&& forall|i: int| 0 <= i < self.positions@.len() ==> (#[trigger] self.positions@[i]).wf()
        &&& self.wallet.locked == sum_costs(self.orders@)
    }

    /// The abstract snapshot of the whole engine.
    pub open spec fn state(self) -> EngineState {
        EngineState {
            index: self.index as int,
            balance: self.wallet.balance as int,
            locked: self.wallet.locked as int,
            initial: self.wallet.initial,
            orders: self.orders@,
            data: self.data@,
            positions: self.positions@,
            events: self.events@,
            next_id: self.next_id,
        }
    }

    /// The tick the engine is currently processing: the index of the candle
    /// most recently returned by `next`.
    pub open spec fn tick_spec(self) -> usize {
        if self.index == 0 {
            0
        } else {
            (self.index - 1) as usize
        }
    }

    /// Balance plus the unrealized profit of every open position at mark
    /// price `mark`.
    pub open spec fn total_spec(self, mark: u64) -> int {
        self.wallet.balance + unrealized_spec(self.positions@, mark)
    }

    /// Creates an engine over `data` holding `initial_balance`, or reports
    /// `CandleDataEmpty` when there is nothing to replay.
    pub fn new(data: Vec<Candle>, initial_balance: u64) -> (r: Result<Backtest, Error>)
        requires
            forall|i: int| 0 <= i < data@.len() ==> (#[trigger] data@[i]).bounded(),
        ensures
            data@.len() == 0 <==> r matches Err(Error::CandleDataEmpty),
            data@.len() > 0 ==> r is Ok,
            r matches Ok(bt) ==> bt == (Backtest {
                index: 0,
                wallet: Wallet { initial: initial_balance, balance: initial_balance, locked: 0 },
                orders: bt.orders,
                data: bt.data,
                positions: bt.positions,
                events: bt.events,
                next_id: 0,
            }) && bt.orders@ =~= Seq::<Order>::empty() && bt.positions@ =~= Seq::<
                Position,
            >::empty() && bt.events@ =~= Seq::<PositionEvent>::empty() && bt.data@ == data@
                && bt.wf(),
    {
        if data.len() == 0 {
            return Err(Error::CandleDataEmpty);
        }
        let bt = Backtest {
            index: 0,
            wallet: Wallet::new(initial_balance),
            orders: Vec::new(),
            data,
            positions: Vec::new(),
            events: Vec::new(),
            next_id: 0,
        };
        Ok(bt)
    }

    /// The total balance currently held, locked funds included.
    pub fn current_balance(&self) -> (r: u64)
        ensures
            r == self.wallet.balance,
    {
        self.wallet.balance
    }

    /// The funds available for new orders, or `NegFreeBalance` when
    /// realized losses have pushed the balance below the locked amount.
    pub fn free_balance(&self) -> (r: Result<u64, Error>)
        ensures
            self.wallet.locked <= self.wallet.balance ==> (r matches Ok(f) && f
                == self.wallet.free_int()),
            self.wallet.locked > self.wallet.balance ==> (r matches Err(e) && e == (
            Error::NegFreeBalance(self.wallet.balance, self.wallet.locked))),
    {
        match self.wallet.free_balance() {
            Some(f) => Ok(f),
            None => Err(Error::NegFreeBalance(self.wallet.balance, self.wallet.locked)),
        }
    }

    /// The pending orders, oldest first.
    pub fn orders(&self) -> (r: &Vec<Order>)
        ensures
            r@ == self.orders@,
    {
        &self.orders
    }

    /// The open positions, oldest first.
    pub fn positions(&self) -> (r: &Vec<Position>)
        ensures
            r@ == self.positions@,
    {
        &self.positions
    }

    /// The audit log, one record per position ever opened.
    pub fn events(&self) -> (r: &Vec<PositionEvent>)
        ensures
            r@ == self.events@,
    {
        &self.events
    }

    /// Validates `order` and reserves its cost. On success the order joins
    /// the pending list and exactly its cost moves from free to locked
    /// funds, leaving the total balance — realized and unrealized — as it
    /// was. Rejected orders leave the engine untouched: entry types that
    /// cannot open a position and exit types that cannot close one fail
    /// with `MismatchedOrderType`, a trailing stop without a positive
    /// anchor and percent fails with `NegZeroTrailingStop`, and a cost the
    /// free balance cannot cover fails with `InsufficientFunds`.
    pub fn place_order(&mut self, order: Order) -> (r: Result<(), Error>)
        requires
            old(self).wf(),
            order.bounded(),
        ensures
            final(self).wf(),
            !order.entry_type.is_entry() ==> (r matches Err(Error::MismatchedOrderType)
                && *final(self) == *old(self)),
            order.entry_type.is_entry() && !order.valid() ==> *final(self) == *old(self)
                && (match order.exit_type {
                Some(OrderType::TrailingStop(_, _)) => r matches Err(Error::NegZeroTrailingStop),
                _ => r matches Err(Error::MismatchedOrderType),
            }),
            order.valid() && old(self).wallet.free_int() < order.cost_spec()
                ==> *final(self) == *old(self)
                && (r matches Err(Error::InsufficientFunds(c, a))
                && c == order.cost_spec()
                && a == (if old(self).wallet.free_int() >= 0 { old(self).wallet.free_int() } else { 0 })),
            order.valid() && old(self).wallet.free_int() >= order.cost_spec()
                ==> (r matches Ok(u))
                && *final(self) == (Backtest {
                    wallet: Wallet {
                        locked: (old(self).wallet.locked + order.cost_spec()) as u64,
                        ..old(self).wallet
                    },
                    orders: final(self).orders,
                    ..*old(self)
                })
                && final(self).orders@ == old(self).orders@.push(order)
                && final(self).wallet.free_int() == old(self).wallet.free_int() - order.cost_spec()
                && (forall|mark: u64| #[trigger] final(self).total_spec(mark) == old(self).total_spec(mark)),
    {
        match order.entry_type {
            OrderType::Market(_) => (),
            OrderType::Limit(_) => (),
            _ => {
                return Err(Error::MismatchedOrderType);
            },
        }
        match order.exit_type {
            None => (),
            Some(OrderType::TakeProfitAndStopLoss(_, _)) => (),
            Some(OrderType::TrailingStop(anchor, pct)) => {
                if anchor == 0 || pct == 0 {
                    return Err(Error::NegZeroTrailingStop);
                }
            },
            Some(_) => {
                return Err(Error::MismatchedOrderType);
            },
        }
        let cost = order.cost();
        if !self.wallet.lock(cost) {
            let available = match self.wallet.free_balance() {
                Some(f) => f,
                None => 0,
            };
            return Err(Error::InsufficientFunds(cost, available));
        }
        self.orders.push(order);
        proof {
            lemma_sum_costs_push(old(self).orders@, order);
        }
        Ok(())
    }

    /// Cancels the first pending order equal to `order`: the order leaves
    /// the pending list and its reserved cost is unlocked. Fails with
    /// `OrderNotFound`, changing nothing, when no pending order matches.
    pub fn delete_order(&mut self, order: &Order) -> (r: Result<(), Error>)
        requires
            old(self).wf(),
        ensures
            final(self).wf(),
            r matches Ok(u) <==> exists|i: int|
                0 <= i < old(self).orders@.len() && old(self).orders@[i] == *order,
            r matches Err(e) ==> e matches Error::OrderNotFound && *final(self) == *old(self),
            r matches Ok(u) ==> exists|i: int|
                {
                    &&& 0 <= i < old(self).orders@.len()
                    &&& old(self).orders@[i] == *order
                    &&& forall|k: int| 0 <= k < i ==> old(self).orders@[k] != *order
                    &&& final(self).orders@ == old(self).orders@.remove(i)
                    &&& *final(self) == (Backtest {
                        wallet: Wallet {
                            locked: (old(self).wallet.locked - order.cost_spec()) as u64,
                            ..old(self).wallet
                        },
                        orders: final(self).orders,
                        ..*old(self)
                    })
                },
    {
        let n = self.orders.len();
        let mut i: usize = 0;
        while i < n
            invariant
                *self == *old(self),
                old(self).wf(),
                n == self.orders@.len(),
                0 <= i <= n,
                forall|k: int| 0 <= k < i ==> self.orders@[k] != *order,
            decreases n - i,
        {
            if self.orders[i] == *order {
                proof {
                    assert(self.orders@[i as int].valid());
                    lemma_sum_costs_remove(self.orders@, i as int);
                    lemma_cost_le_sum(self.orders@, i as int);
                    lemma_cost_nonneg(*order);
                }
                let removed = self.orders.remove(i);
                self.wallet.unlock(removed.cost());
                return Ok(());
            }
            i = i + 1;
        }
        Err(Error::OrderNotFound)
    }

    /// Returns the candle at the current index and advances the index, or
    /// reports `CandleNotFound` once the data is exhausted.
    pub fn next(&mut self) -> (r: Result<Candle, Error>)
        requires
            old(self).wf(),
        ensures
            final(self).wf(),
            old(self).index < old(self).data@.len() ==> (r matches Ok(c) && c == old(
                self,
            ).data@[old(self).index as int]) && *final(self) == (Backtest {
                index: (old(self).index + 1) as usize,
                ..*old(self)
            }),
            old(self).index >= old(self).data@.len() ==> (r matches Err(
                Error::CandleNotFound,
            )) && *final(self) == *old(self),
    {
        if self.index < self.data.len() {
            let c = self.data[self.index];
            self.index = self.index + 1;
            Ok(c)
        } else {
            Err(Error::CandleNotFound)
        }
    }

    /// Closes the first open position equal to `position` at `exit_price`:
    /// the position leaves the open list, the wallet is credited with the
    /// originally committed cost plus the realized profit — negative
    /// profit debits the balance — and the position's audit record is
    /// marked closed at the current tick. Returns the realized profit.
    /// Fails with `PositionNotFound`, changing nothing, when no open
    /// position matches, and with `NegZeroBalance`, changing nothing, when
    /// the debit would drive the balance negative.
    pub fn close_position(&mut self, position: &Position, exit_price: u64) -> (r: Result<
        i64,
        Error,
    >)
        requires
            old(self).wf(),
            exit_price <= TRAIL_MAX,
        ensures
            final(self).wf(),
            (forall|i: int|
                0 <= i < old(self).positions@.len() ==> old(self).positions@[i] != *position) ==> (
            r matches Err(Error::PositionNotFound)) && *final(self) == *old(self),
            (exists|i: int|
                0 <= i < old(self).positions@.len() && old(self).positions@[i] == *position)
                ==> position.wf() && {
                let credit = position.credit_spec(exit_price);
                if old(self).wallet.balance + credit < 0 {
                    &&& (r matches Err(Error::NegZeroBalance(v)) && v == old(self).wallet.balance
                        + credit)
                    &&& *final(self) == *old(self)
                } else {
                    &&& (r matches Ok(profit) && profit == position.profit_spec(exit_price))
                    &&& exists|i: int|
                        {
                            &&& 0 <= i < old(self).positions@.len()
                            &&& old(self).positions@[i] == *position
                            &&& forall|k: int| 0 <= k < i ==> old(self).positions@[k] != *position
                            &&& final(self).positions@ == old(self).positions@.remove(i)
                        }
                    &&& final(self).wallet.balance == apply_credit_spec(
                        old(self).wallet.balance as int,
                        credit,
                    )
                    &&& *final(self) == (Backtest {
                        wallet: Wallet { balance: final(self).wallet.balance, ..old(self).wallet },
                        positions: final(self).positions,
                        events: final(self).events,
                        ..*old(self)
                    })
                    &&& final(self).events@ == mark_closed_spec(
                        old(self).events@,
                        position.id,
                        old(self).tick_spec(),
                        exit_price,
                    )
                }
            },
    {
        let n = self.positions.len();
        let mut i: usize = 0;
        while i < n
            invariant
                *self == *old(self),
                old(self).wf(),
                exit_price <= TRAIL_MAX,
                n == self.positions@.len(),
                0 <= i <= n,
                forall|k: int| 0 <= k < i ==> self.positions@[k] != *position,
            decreases n - i,
        {
            if self.positions[i] == *position {
                let p = self.positions[i];
                proof {
                    assert(self.positions@[i as int].wf());
                    lemma_profit_product_bounds(p.entry_price, exit_price, p.quantity);
                }
                let cost = p.cost();
                let profit: i128 = match p.side {
                    PositionSide::Long => (exit_price as i128 - p.entry_price as i128) * (
                    p.quantity as i128),
                    PositionSide::Short => (p.entry_price as i128 - exit_price as i128) * (
                    p.quantity as i128),
                };
                let credit: i128 = cost as i128 + profit;
                if (self.wallet.balance as i128) + credit < 0 {
                    return Err(Error::NegZeroBalance((self.wallet.balance as i128) + credit));
                }
                let tick = if self.index == 0 {
                    0
                } else {
                    self.index - 1
                };
                let _removed = self.positions.remove(i);
                if credit >= 0 {
                    self.wallet.add(credit as u64);
                } else {
                    let debit = (-credit) as u64;
                    let _ok = self.wallet.deduct(debit);
                }
                mark_closed(&mut self.events, p.id, tick, exit_price);
                return Ok(profit as i64);
            }
            i = i + 1;
        }
        Err(Error::PositionNotFound)
    }

    /// Matches every pending order against `candle`, oldest first. An
    /// order whose entry price lies inside the candle's low-high range
    /// fills: it leaves the pending list, its reserved cost is unlocked and
    /// then committed out of the balance, a position opens under a fresh
    /// identifier, and an audit record is written for the current tick.
    /// Orders out of range stay pending, as does an in-range order while
    /// realized losses keep the balance below the locked funds. Never
    /// fails.
    #[verifier::loop_isolation(false)]
    pub fn execute_orders(&mut self, candle: &Candle) -> (r: Result<(), Error>)
        requires
            old(self).wf(),
            candle.bounded(),
        ensures
            final(self).wf(),
            r matches Ok(u),
            ({
                let f = exec_orders_rec(
                    old(self).orders@,
                    old(self).wallet.balance as int,
                    old(self).wallet.locked as int,
                    old(self).next_id,
                    *candle,
                );
                &&& final(self).orders@ == f.pending
                &&& final(self).wallet.balance == f.balance
                &&& final(self).wallet.locked == f.locked
                &&& final(self).positions@ == old(self).positions@ + f.opened
                &&& final(self).events@ == old(self).events@ + f.opened.map_values(
                    |p: Position| open_event(p, old(self).tick_spec()),
                )
                &&& final(self).next_id == f.next_id
                &&& final(self).index == old(self).index
                &&& final(self).data@ == old(self).data@
                &&& final(self).wallet.initial == old(self).wallet.initial
            }),
    {
        let ghost orig = self.orders@;
        let ghost b0 = self.wallet.balance as int;
        let ghost l0 = self.wallet.locked as int;
        let ghost n0 = self.next_id;
        let ghost ps0 = self.positions@;
        let ghost ev0 = self.events@;
        let ghost c = *candle;
        let tick = if self.index == 0 {
            0
        } else {
            self.index - 1
        };
        let mut i: usize = 0;
        let ghost mut j: int = 0;
        while i < self.orders.len()
            invariant
                0 <= j <= orig.len(),
                tick == old(self).tick_spec(),
                self.index == old(self).index,
                self.data@ == old(self).data@,
                self.wallet.initial == old(self).wallet.initial,
                forall|k: int|
                    0 <= k < self.orders@.len() ==> (#[trigger] self.orders@[k]).valid(),
                forall|k: int|
                    0 <= k < self.positions@.len() ==> (#[trigger] self.positions@[k]).wf(),
                self.wallet.locked == sum_costs(self.orders@),
                ({
                    let f = exec_orders_rec(orig.take(j), b0, l0, n0, c);
                    &&& self.orders@ == f.pending + orig.skip(j)
                    &&& i == f.pending.len()
                    &&& self.wallet.balance == f.balance
                    &&& self.wallet.locked == f.locked
                    &&& self.positions@ == ps0 + f.opened
                    &&& self.events@ == ev0 + f.opened.map_values(
                        |p: Position| open_event(p, tick),
                    )
                    &&& self.next_id == f.next_id
                }),
            decreases self.orders@.len() - i,
        {
            proof {
                let f = exec_orders_rec(orig.take(j), b0, l0, n0, c);
                assert(orig.skip(j).len() > 0);
                assert(self.orders@[i as int] == orig.skip(j)[0]);
                assert(orig.skip(j)[0] == orig[j]);
            }
            let o = self.orders[i];
            let price = o.entry_price();
            if price >= candle.low() && price <= candle.high() && self.wallet.balance
                >= self.wallet.locked {
                let ghost f = exec_orders_rec(orig.take(j), b0, l0, n0, c);
                proof {
                    assert(o == orig[j]);
                    assert(fills(orig[j], c, f.balance, f.locked));
                    lemma_cost_le_sum(self.orders@, i as int);
                    lemma_sum_costs_remove(self.orders@, i as int);
                }
                let order = self.orders.remove(i);
                let cost = order.cost();
                self.wallet.unlock(cost);
                let committed = self.wallet.sub(cost);
                proof {
                    lemma_cost_nonneg(order);
                    assert(committed);
                }
                let id = self.next_id;
                let p = crate::position::open_from_order(&order, id);
                self.positions.push(p);
                self.events.push(
                    PositionEvent {
                        id,
                        open_tick: tick,
                        side: p.side,
                        entry_price: p.entry_price,
                        closed: None,
                    },
                );
                if self.next_id < u64::MAX {
                    self.next_id = self.next_id + 1;
                }
                proof {
                    let g = |q: Position| open_event(q, tick);
                    lemma_orders_rec_app(orig.take(j), seq![orig[j]], b0, l0, n0, c);
                    lemma_orders_rec_singleton(orig[j], f.balance, f.locked, f.next_id, c);
                    assert(orig.take(j + 1) =~= orig.take(j) + seq![orig[j]]);
                    let f2 = exec_orders_rec(orig.take(j + 1), b0, l0, n0, c);
                    assert(f2.pending =~= f.pending);
                    assert(f2.opened =~= f.opened.push(p));
                    assert(self.orders@ =~= f2.pending + orig.skip(j + 1));
                    assert(self.positions@ =~= ps0 + f2.opened);
                    assert(f2.opened.map_values(g) =~= f.opened.map_values(g).push(g(p)));
                    assert(self.events@ =~= ev0 + f2.opened.map_values(g));
                    j = j + 1;
                }
            } else {
                proof {
                    let f = exec_orders_rec(orig.take(j), b0, l0, n0, c);
                    assert(o == orig[j]);
                    assert(!fills(orig[j], c, f.balance, f.locked));
                    lemma_orders_rec_app(orig.take(j), seq![orig[j]], b0, l0, n0, c);
                    lemma_orders_rec_singleton(orig[j], f.balance, f.locked, f.next_id, c);
                    assert(orig.take(j + 1) =~= orig.take(j) + seq![orig[j]]);
                    let f2 = exec_orders_rec(orig.take(j + 1), b0, l0, n0, c);
                    assert(f2.pending =~= f.pending.push(orig[j]));
                    assert(f2.opened =~= f.opened);
                    assert(self.orders@ =~= f2.pending + orig.skip(j + 1));
                    j = j + 1;
                }
                i = i + 1;
            }
        }
        proof {
            assert(orig.skip(j).len() == 0);
            assert(j == orig.len());
            assert(orig.take(j) =~= orig);
            let f = exec_orders_rec(orig, b0, l0, n0, c);
            assert(self.orders@ =~= f.pending);
        }
        Ok(())
    }

    /// Evaluates every open position's exit rule against `candle`, oldest
    /// first. Each position's trailing stop first ratchets for this candle
    /// — a long's level only rises, a short's only falls — and the close
    /// test and exit price use the ratcheted rule. A satisfied rule closes
    /// its position: the committed cost plus the realized profit is
    /// credited to the balance — a loss debits it — and the audit record
    /// is marked closed at the current tick, except that a close whose
    /// debit exceeds the balance is skipped, the position staying open,
    /// ratcheted. Never fails.
    #[verifier::rlimit(60)]
    #[verifier::loop_isolation(false)]
    pub fn execute_positions(&mut self, candle: &Candle) -> (r: Result<(), Error>)
        requires
            old(self).wf(),
            candle.bounded(),
        ensures
            final(self).wf(),
            r matches Ok(u),
            ({
                let f = exec_positions_rec(
                    old(self).positions@,
                    old(self).wallet.balance as int,
                    old(self).events@,
                    *candle,
                    old(self).tick_spec(),
                );
                &&& final(self).positions@ == f.kept
                &&& final(self).wallet.balance == f.balance
                &&& final(self).events@ == f.events
                &&& final(self).orders@ == old(self).orders@
                &&& final(self).wallet.locked == old(self).wallet.locked
                &&& final(self).wallet.initial == old(self).wallet.initial
                &&& final(self).index == old(self).index
                &&& final(self).data@ == old(self).data@
                &&& final(self).next_id == old(self).next_id
            }),
    {
        let ghost orig = self.positions@;
        let ghost b0 = self.wallet.balance as int;
        let ghost ev0 = self.events@;
        let ghost c = *candle;
        let tick = if self.index == 0 {
            0
        } else {
            self.index - 1
        };
        let mut i: usize = 0;
        let ghost mut j: int = 0;
        while i < self.positions.len()
            invariant
                0 <= j <= orig.len(),
                tick == old(self).tick_spec(),
                self.index == old(self).index,
                self.data@ == old(self).data@,
                self.orders@ == old(self).orders@,
                self.wallet.locked == old(self).wallet.locked,
                self.wallet.initial == old(self).wallet.initial,
                self.next_id == old(self).next_id,
                forall|k: int|
                    0 <= k < self.positions@.len() ==> (#[trigger] self.positions@[k]).wf(),
                ({
                    let f = exec_positions_rec(orig.take(j), b0, ev0, c, tick);
                    &&& self.positions@ == f.kept + orig.skip(j)
                    &&& i == f.kept.len()
                    &&& self.wallet.balance == f.balance
                    &&& self.events@ == f.events
                }),
            decreases self.positions@.len() - i,
        {
            proof {
                assert(orig.skip(j).len() > 0);
                assert(self.positions@[i as int] == orig.skip(j)[0]);
                assert(orig.skip(j)[0] == orig[j]);
            }
            let p = self.positions[i];
            let ghost f = exec_positions_rec(orig.take(j), b0, ev0, c, tick);
            let mut updated = p;
            if let Some(OrderType::TrailingStop(_, pct)) = p.exit_type {
                let cand = match p.side {
                    PositionSide::Long => crate::money::sub_percent(candle.high(), pct),
                    PositionSide::Short => crate::money::add_percent(candle.low(), pct),
                };
                updated.set_trailingstop(cand);
            }
            proof {
                assert(updated == ratchet(p, c));
                assert(updated.wf());
            }
            let close_now = match (updated.side, updated.exit_type) {
                (PositionSide::Long, Some(OrderType::TakeProfitAndStopLoss(tp, sl))) => (tp > 0
                    && tp <= candle.high()) || (sl > 0 && sl >= candle.low()),
                (PositionSide::Short, Some(OrderType::TakeProfitAndStopLoss(tp, sl))) => (tp > 0
                    && tp >= candle.low()) || (sl > 0 && sl <= candle.high()),
                (PositionSide::Long, Some(OrderType::TrailingStop(level, _))) => candle.low()
                    <= level,
                (PositionSide::Short, Some(OrderType::TrailingStop(level, _))) => candle.high()
                    >= level,
                _ => false,
            };
            proof {
                assert(close_now == should_close(updated, c));
            }
            let mut took = false;
            if close_now {
                let exit_price = match (updated.side, updated.exit_type) {
                    (PositionSide::Long, Some(OrderType::TakeProfitAndStopLoss(tp, sl))) => {
                        if tp > 0 && tp <= candle.high() {
                            tp
                        } else {
                            sl
                        }
                    },
                    (PositionSide::Short, Some(OrderType::TakeProfitAndStopLoss(tp, sl))) => {
                        if tp > 0 && tp >= candle.low() {
                            tp
                        } else {
                            sl
                        }
                    },
                    (_, Some(OrderType::TrailingStop(level, _))) => level,
                    _ => 0,
                };
                proof {
                    assert(exit_price == exit_level(updated, c));
                    lemma_profit_product_bounds(updated.entry_price, exit_price, updated.quantity);
                }
                let cost = updated.cost();
                let profit: i128 = match updated.side {
                    PositionSide::Long => (exit_price as i128 - updated.entry_price as i128) * (
                    updated.quantity as i128),
                    PositionSide::Short => (updated.entry_price as i128 - exit_price as i128) * (
                    updated.quantity as i128),
                };
                let credit: i128 = cost as i128 + profit;
                if (self.wallet.balance as i128) + credit >= 0 {
                    took = true;
                    let _removed = self.positions.remove(i);
                    if credit >= 0 {
                        self.wallet.add(credit as u64);
                    } else {
                        let _ok = self.wallet.deduct((-credit) as u64);
                    }
                    mark_closed(&mut self.events, updated.id, tick, exit_price);
                    proof {
                        lemma_positions_rec_app(orig.take(j), seq![orig[j]], b0, ev0, c, tick);
                        lemma_positions_rec_singleton(orig[j], f.balance, f.events, c, tick);
                        assert(orig.take(j + 1) =~= orig.take(j) + seq![orig[j]]);
                        let f2 = exec_positions_rec(orig.take(j + 1), b0, ev0, c, tick);
                        assert(f2.kept =~= f.kept);
                        assert(self.positions@ =~= f2.kept + orig.skip(j + 1));
                        j = j + 1;
                    }
                }
            }
            if !took {
                self.positions.set(i, updated);
                proof {
                    lemma_positions_rec_app(orig.take(j), seq![orig[j]], b0, ev0, c, tick);
                    lemma_positions_rec_singleton(orig[j], f.balance, f.events, c, tick);
                    assert(orig.take(j + 1) =~= orig.take(j) + seq![orig[j]]);
                    let f2 = exec_positions_rec(orig.take(j + 1), b0, ev0, c, tick);
                    assert(f2.kept =~= f.kept.push(ratchet(orig[j], c)));
                    assert(self.positions@ =~= f2.kept + orig.skip(j + 1));
                    j = j + 1;
                }
                i = i + 1;
            }
        }
        proof {
            assert(orig.skip(j).len() == 0);
            assert(j == orig.len());
            assert(orig.take(j) =~= orig);
            let f = exec_positions_rec(orig, b0, ev0, c, tick);
            assert(self.positions@ =~= f.kept);
        }
        Ok(())
    }

    /// Opens a position for `order` directly, without going through the
    /// pending list: the order is validated as `place_order` does, its cost
    /// is committed out of the free balance, and the position opens under a
    /// fresh identifier with an audit record for the current tick. Fails,
    /// changing nothing, with the same validation errors as `place_order`,
    /// or with `InsufficientFunds` when the free balance cannot cover the
    /// cost.
    pub fn open_position(&mut self, order: Order) -> (r: Result<(), Error>)
        requires
            old(self).wf(),
            order.bounded(),
        ensures
            final(self).wf(),
            !order.entry_type.is_entry() ==> (r matches Err(Error::MismatchedOrderType)
                && *final(self) == *old(self)),
            order.entry_type.is_entry() && !order.valid() ==> *final(self) == *old(self)
                && (match order.exit_type {
                Some(OrderType::TrailingStop(_, _)) => r matches Err(Error::NegZeroTrailingStop),
                _ => r matches Err(Error::MismatchedOrderType),
            }),
            order.valid() && old(self).wallet.free_int() < order.cost_spec()
                ==> *final(self) == *old(self)
                && (r matches Err(Error::InsufficientFunds(c, a))
                && c == order.cost_spec()
                && a == (if old(self).wallet.free_int() >= 0 { old(self).wallet.free_int() } else { 0 })),
            order.valid() && old(self).wallet.free_int() >= order.cost_spec()
                ==> (r matches Ok(u))
                && *final(self) == (Backtest {
                    wallet: Wallet {
                        balance: (old(self).wallet.balance - order.cost_spec()) as u64,
                        ..old(self).wallet
                    },
                    positions: final(self).positions,
                    events: final(self).events,
                    next_id: next_id_inc(old(self).next_id),
                    ..*old(self)
                })
                && final(self).positions@ == old(self).positions@.push(
                    position_of_order(order, old(self).next_id),
                )
                && final(self).events@ == old(self).events@.push(
                    open_event(position_of_order(order, old(self).next_id), old(self).tick_spec()),
                ),
    {
        match order.entry_type {
            OrderType::Market(_) => (),
            OrderType::Limit(_) => (),
            _ => {
                return Err(Error::MismatchedOrderType);
            },
        }
        match order.exit_type {
            None => (),
            Some(OrderType::TakeProfitAndStopLoss(_, _)) => (),
            Some(OrderType::TrailingStop(anchor, pct)) => {
                if anchor == 0 || pct == 0 {
                    return Err(Error::NegZeroTrailingStop);
                }
            },
            Some(_) => {
                return Err(Error::MismatchedOrderType);
            },
        }
        let cost = order.cost();
        if !self.wallet.sub(cost) {
            let available = match self.wallet.free_balance() {
                Some(f) => f,
                None => 0,
            };
            return Err(Error::InsufficientFunds(cost, available));
        }
        let tick = if self.index == 0 {
            0
        } else {
            self.index - 1
        };
        let id = self.next_id;
        let p = crate::position::open_from_order(&order, id);
        self.positions.push(p);
        self.events.push(
            PositionEvent { id, open_tick: tick, side: p.side, entry_price: p.entry_price, closed: None },
        );
        if self.next_id < u64::MAX {
            self.next_id = self.next_id + 1;
        }
        Ok(())
    }

    /// The total worth of the engine at mark price `mark`: the wallet
    /// balance plus the unrealized profit of every open position, marked at
    /// `mark`. Negative when unrealized losses outweigh the balance.
    #[verifier::loop_isolation(false)]
    pub fn total_balance(&self, mark: u64) -> (r: i128)
        requires
            self.wf(),
            mark <= PRICE_MAX,
        ensures
            r == self.total_spec(mark),
    {
        let mut sum: i128 = self.wallet.balance as i128;
        let n = self.positions.len();
        let mut i: usize = 0;
        while i < n
            invariant
                n == self.positions@.len(),
                0 <= i <= n,
                sum == self.wallet.balance + unrealized_spec(self.positions@.take(i as int), mark),
                -(i * (PRICE_MAX * QTY_MAX)) <= sum - self.wallet.balance <= i * (PRICE_MAX
                    * QTY_MAX),
            decreases n - i,
        {
            let p = self.positions[i];
            proof {
                assert(self.positions@[i as int].wf());
                assert((mark - p.entry_price) * p.quantity <= PRICE_MAX * QTY_MAX && (mark
                    - p.entry_price) * p.quantity >= -(PRICE_MAX * QTY_MAX) && (p.entry_price
                    - mark) * p.quantity <= PRICE_MAX * QTY_MAX && (p.entry_price - mark)
                    * p.quantity >= -(PRICE_MAX * QTY_MAX)) by (nonlinear_arith)
                    requires
                        p.entry_price <= PRICE_MAX,
                        mark <= PRICE_MAX,
                        0 <= p.quantity <= QTY_MAX,
                ;
                assert((i + 1) * (PRICE_MAX * QTY_MAX) == i * (PRICE_MAX * QTY_MAX) + (PRICE_MAX
                    * QTY_MAX)) by (nonlinear_arith);
            }
            let term: i128 = match p.side {
                PositionSide::Long => (mark as i128 - p.entry_price as i128) * (p.quantity
                    as i128),
                PositionSide::Short => (p.entry_price as i128 - mark as i128) * (p.quantity
                    as i128),
            };
            sum = sum + term;
            proof {
                lemma_unrealized_push(self.positions@.take(i as int), p, mark);
                assert(self.positions@.take(i + 1) =~= self.positions@.take(i as int).push(p));
            }
            i = i + 1;
        }
        proof {
            assert(self.positions@.take(n as int) =~= self.positions@);
        }
        sum
    }

    /// Closes every open position at `exit_price`, oldest first, crediting
    /// each position's committed cost plus its realized profit and marking
    /// its audit record closed at the current tick. A position whose losing
    /// close would drive the balance negative is skipped and stays open;
    /// the result reports how many positions closed. Never fails.
    #[verifier::loop_isolation(false)]
    pub fn close_all_positions(&mut self, exit_price: u64) -> (r: Result<usize, Error>)
        requires
            old(self).wf(),
            exit_price <= TRAIL_MAX,
        ensures
            final(self).wf(),
            ({
                let f = close_all_rec(
                    old(self).positions@,
                    old(self).wallet.balance as int,
                    old(self).events@,
                    old(self).tick_spec(),
                    exit_price,
                );
                &&& (r matches Ok(closed) && closed == old(self).positions@.len()
                    - f.kept.len())
                &&& final(self).positions@ == f.kept
                &&& final(self).wallet.balance == f.balance
                &&& final(self).events@ == f.events
                &&& final(self).orders@ == old(self).orders@
                &&& final(self).wallet.locked == old(self).wallet.locked
                &&& final(self).wallet.initial == old(self).wallet.initial
                &&& final(self).index == old(self).index
                &&& final(self).data@ == old(self).data@
                &&& final(self).next_id == old(self).next_id
            }),
    {
        let ghost orig = self.positions@;
        let ghost b0 = self.wallet.balance as int;
        let ghost ev0 = self.events@;
        let tick = if self.index == 0 {
            0
        } else {
            self.index - 1
        };
        let total = self.positions.len();
        let mut i: usize = 0;
        let mut closed: usize = 0;
        let ghost mut j: int = 0;
        while i < self.positions.len()
            invariant
                orig.len() == total,
                0 <= j <= orig.len(),
                closed == j - i,
                tick == old(self).tick_spec(),
                self.index == old(self).index,
                self.data@ == old(self).data@,
                self.orders@ == old(self).orders@,
                self.wallet.locked == old(self).wallet.locked,
                self.wallet.initial == old(self).wallet.initial,
                self.next_id == old(self).next_id,
                forall|k: int|
                    0 <= k < self.positions@.len() ==> (#[trigger] self.positions@[k]).wf(),
                ({
                    let f = close_all_rec(orig.take(j), b0, ev0, tick, exit_price);
                    &&& self.positions@ == f.kept + orig.skip(j)
                    &&& i == f.kept.len()
                    &&& self.wallet.balance == f.balance
                    &&& self.events@ == f.events
                }),
            decreases self.positions@.len() - i,
        {
            proof {
                assert(orig.skip(j).len() > 0);
                assert(self.positions@[i as int] == orig.skip(j)[0]);
                assert(orig.skip(j)[0] == orig[j]);
            }
            let p = self.positions[i];
            let ghost f = close_all_rec(orig.take(j), b0, ev0, tick, exit_price);
            proof {
                assert(p.wf());
                lemma_profit_product_bounds(p.entry_price, exit_price, p.quantity);
            }
            let cost = p.cost();
            let profit: i128 = match p.side {
                PositionSide::Long => (exit_price as i128 - p.entry_price as i128) * (p.quantity
                    as i128),
                PositionSide::Short => (p.entry_price as i128 - exit_price as i128) * (p.quantity
                    as i128),
            };
            let credit: i128 = cost as i128 + profit;
            if (self.wallet.balance as i128) + credit >= 0 {
                let _removed = self.positions.remove(i);
                if credit >= 0 {
                    self.wallet.add(credit as u64);
                } else {
                    let _ok = self.wallet.deduct((-credit) as u64);
                }
                mark_closed(&mut self.events, p.id, tick, exit_price);
                closed = closed + 1;
                proof {
                    lemma_close_all_app(orig.take(j), seq![orig[j]], b0, ev0, tick, exit_price);
                    lemma_close_all_singleton(orig[j], f.balance, f.events, tick, exit_price);
                    assert(orig.take(j + 1) =~= orig.take(j) + seq![orig[j]]);
                    let f2 = close_all_rec(orig.take(j + 1), b0, ev0, tick, exit_price);
                    assert(f2.kept =~= f.kept);
                    assert(self.positions@ =~= f2.kept + orig.skip(j + 1));
                    j = j + 1;
                }
            } else {
                proof {
                    lemma_close_all_app(orig.take(j), seq![orig[j]], b0, ev0, tick, exit_price);
                    lemma_close_all_singleton(orig[j], f.balance, f.events, tick, exit_price);
                    assert(orig.take(j + 1) =~= orig.take(j) + seq![orig[j]]);
                    let f2 = close_all_rec(orig.take(j + 1), b0, ev0, tick, exit_price);
                    assert(f2.kept =~= f.kept.push(orig[j]));
                    assert(self.positions@ =~= f2.kept + orig.skip(j + 1));
                    j = j + 1;
                }
                i = i + 1;
            }
        }
        proof {
            assert(orig.skip(j).len() == 0);
            assert(j == orig.len());
            assert(orig.take(j) =~= orig);
            let f = close_all_rec(orig, b0, ev0, tick, exit_price);
            assert(self.positions@ =~= f.kept);
        }
        Ok(closed)
    }

    /// Replays the remaining candles, one tick at a time. Each tick first
    /// checks that some free balance is left — a free balance at or below
    /// zero aborts the whole run with `InsufficientFunds` — then shows the
    /// strategy the current candle (the index already counts that candle
    /// as consumed), applies the commands it returns (ignoring ones the
    /// engine's validation rejects), executes pending orders, and
    /// evaluates position exits. Whatever the strategy did, the final
    /// state is exactly a per-tick fold of those steps: the commands the
    /// strategy issued each tick are the witness. On success the whole
    /// candle sequence has been consumed.
    #[verifier::loop_isolation(false)]
    pub fn run<S: Strategy>(&mut self, strategy: &mut S) -> (r: Result<(), Error>)
        requires
            old(self).wf(),
        ensures
            final(self).wf(),
            final(self).data@ == old(self).data@,
            final(self).wallet.initial == old(self).wallet.initial,
            exists|cmdss: Seq<Seq<Command>>| final(self).state() == run_fold(
                old(self).state(),
                cmdss,
            ),
            r matches Ok(u) ==> final(self).index == final(self).data@.len(),
            r matches Err(e) ==> (e matches Error::InsufficientFunds(req, av) && req == 0 && av
                == 0) && final(self).wallet.free_int() <= 0,
    {
        let ghost st0 = old(self).state();
        let ghost mut acc: Seq<Seq<Command>> = Seq::empty();
        while self.index < self.data.len()
            invariant
                self.wf(),
                self.data@ == old(self).data@,
                self.wallet.initial == old(self).wallet.initial,
                self.state() == run_fold(st0, acc),
            decreases self.data@.len() - self.index,
        {
            let has_free = match self.wallet.free_balance() {
                Some(f) => f > 0,
                None => false,
            };
            if !has_free {
                proof {
                    assert(run_fold(st0, acc) == self.state());
                }
                return Err(Error::InsufficientFunds(0, 0));
            }
            let ghost st_tick = self.state();
            let candle = match self.next() {
                Ok(c) => c,
                Err(e) => {
                    return Err(e);
                },
            };
            proof {
                assert(candle.bounded());
                assert(candle == st_tick.data[st_tick.index]);
                assert(self.state() =~= (EngineState { index: st_tick.index + 1, ..st_tick }));
            }
            let ghost st1 = self.state();
            let commands = strategy.on_candle(&*self, &candle);
            let ghost idx_now = self.index;
            let mut k: usize = 0;
            while k < commands.len()
                invariant
                    0 <= k <= commands@.len(),
                    self.wf(),
                    self.data@ == old(self).data@,
                    self.wallet.initial == old(self).wallet.initial,
                    self.index == idx_now,
                    self.state() == apply_commands_spec(st1, commands@.take(k as int)),
                decreases commands@.len() - k,
            {
                let ghost st_before = self.state();
                match &commands[k] {
                    Command::Place(o) => {
                        if o.is_bounded() {
                            let _ignored = self.place_order(*o);
                        }
                        proof {
                            assert(self.state() =~= apply_command_spec(
                                st_before,
                                commands@[k as int],
                            ));
                        }
                    },
                    Command::Cancel(o) => {
                        let ghost pre_orders = self.orders@;
                        let ghost pre_locked = self.wallet.locked as int;
                        let outcome = self.delete_order(o);
                        proof {
                            match outcome {
                                Ok(u) => {
                                    let i = choose|i: int|
                                        {
                                            &&& 0 <= i < pre_orders.len()
                                            &&& pre_orders[i] == *o
                                            &&& forall|m: int|
                                                0 <= m < i ==> pre_orders[m] != *o
                                            &&& self.orders@ == pre_orders.remove(i)
                                            &&& self.wallet.locked == (pre_locked
                                                - o.cost_spec()) as u64
                                        };
                                    lemma_first_match_found(pre_orders, *o, i);
                                    lemma_cost_le_sum(pre_orders, i);
                                    assert(o.cost_spec() <= pre_locked);
                                },
                                Err(e) => {
                                    assert(forall|m: int|
                                        0 <= m < pre_orders.len() ==> pre_orders[m] != *o);
                                    lemma_first_match_none(pre_orders, *o);
                                },
                            }
                            assert(self.state() =~= apply_command_spec(
                                st_before,
                                commands@[k as int],
                            ));
                        }
                    },
                }
                proof {
                    lemma_apply_commands_push(st1, commands@.take(k as int), commands@[k as int]);
                    assert(commands@.take(k + 1) =~= commands@.take(k as int).push(
                        commands@[k as int],
                    ));
                }
                k = k + 1;
            }
            proof {
                assert(commands@.take(commands@.len() as int) =~= commands@);
                assert(self.state() == apply_commands_spec(st1, commands@));
            }
            let ghost st2 = self.state();
            let _orders_done = self.execute_orders(&candle);
            proof {
                let tickv = st_tick.index as usize;
                let fo = exec_orders_rec(st2.orders, st2.balance, st2.locked, st2.next_id, candle);
                assert(self.state() =~= (EngineState {
                    orders: fo.pending,
                    balance: fo.balance,
                    locked: fo.locked,
                    positions: st2.positions + fo.opened,
                    events: st2.events + fo.opened.map_values(
                        |p: Position| open_event(p, tickv),
                    ),
                    next_id: fo.next_id,
                    ..st2
                }));
            }
            let ghost st3 = self.state();
            let _positions_done = self.execute_positions(&candle);
            proof {
                let tickv = st_tick.index as usize;
                let fp = exec_positions_rec(st3.positions, st3.balance, st3.events, candle, tickv);
                assert(self.state() =~= (EngineState {
                    positions: fp.kept,
                    balance: fp.balance,
                    events: fp.events,
                    ..st3
                }));
                assert(self.state() =~= tick_step_spec(st_tick, commands@));
                lemma_run_fold_push(st0, acc, commands@);
                acc = acc.push(commands@);
            }
        }
        proof {
            assert(run_fold(st0, acc) == self.state());
        }
        Ok(())
    }

    /// Restores the engine to its construction-time state: index zero, no
    /// pending orders, no open positions, and the wallet back at its
    /// initial balance with nothing locked. The audit log and the position
    /// identifier counter are kept, so records stay unique over the
    /// engine's whole life.
    pub fn reset(&mut self)
        requires
            old(self).wf(),
        ensures
            final(self).wf(),
            *final(self) == (Backtest {
                index: 0,
                wallet: Wallet {
                    balance: old(self).wallet.initial,
                    locked: 0,
                    ..old(self).wallet
                },
                orders: final(self).orders,
                positions: final(self).positions,
                ..*old(self)
            }),
            final(self).orders@ =~= Seq::<Order>::empty(),
            final(self).positions@ =~= Seq::<Position>::empty(),
    {
        self.index = 0;
        self.wallet.reset();
        self.orders = Vec::new();
        self.positions = Vec::new();
    }
}

} // verus!
