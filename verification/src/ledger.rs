//! The event-sourced balance ledger.
//!
//! A user's balance is never stored: it is reconstructed on every check by
//! replaying the user's ordered usage-event log. Credit comes from
//! `FundsAdded` events; debit accrues per whole hour of metered session time,
//! where a `SessionStart`/`SessionPause` pair closes an interval and a
//! trailing unmatched `SessionStart` keeps accruing against the wall clock.
//! A log in which starts and pauses do not alternate strictly is corrupted
//! data, surfaced as an internal failure and never silently repaired.

use vstd::arithmetic::div_mod::{lemma_div_is_ordered, lemma_div_pos_is_pos};
use vstd::arithmetic::mul::{lemma_mul_inequality, lemma_mul_nonnegative};
use vstd::prelude::*;

use crate::error::AppError;
use crate::store::{events_valid, UsageEvent};

verus! {

/// Balance unit: millionths of the billing currency, so that integer
/// arithmetic carries no rounding error.
pub const DEFAULT_BALANCE: i64 = 1_000_000;

/// Once the balance is at or below this (negative) threshold the account
/// becomes read-only: a small buffer is tolerated before lockout.
pub const FUNDED_BALANCE: i64 = -500_000;

/// Cost per whole metered hour.
pub const HOURLY_BALANCE_COST: i64 = 1_370;

pub const SECONDS_PER_HOUR: i64 = 3600;

/// The metering constants. They are configuration, not behaviour: the guard's
/// shape is fixed, the numbers have changed across deployments.
pub struct LedgerConfig {
    /// Balance granted to a fresh account.
    pub default_balance: i64,
    /// Lockout boundary: funded means strictly above this.
    pub funded_threshold: i64,
    /// Debit per whole hour of metered session time.
    pub hourly_cost: i64,
}

impl LedgerConfig {
    pub open spec fn wf(self) -> bool {
        0 <= self.hourly_cost
    }
}

impl Default for LedgerConfig {
    /// The constants currently deployed.
    fn default() -> (c: LedgerConfig)
        ensures
            c.default_balance == DEFAULT_BALANCE,
            c.funded_threshold == FUNDED_BALANCE,
            c.hourly_cost == HOURLY_BALANCE_COST,
            c.wf(),
    {
        LedgerConfig {
            default_balance: DEFAULT_BALANCE,
            funded_threshold: FUNDED_BALANCE,
            hourly_cost: HOURLY_BALANCE_COST,
        }
    }
}

/// The reconstructed balance and the judgement derived from it.
#[derive(Debug)]
pub struct BalanceInfo {
    pub balance: i64,
    pub is_funded: bool,
}

/// Replay state after a prefix of the log: accumulated credit and debit, the
/// start time of the currently open session if any, and whether an ordering
/// violation has been seen (after which the state is frozen).
pub ghost struct LedgerState {
    pub credit: int,
    pub debit: int,
    pub open_start: Option<int>,
    pub corrupt: bool,
}

/// Whole metered hours between two instants.
pub open spec fn whole_hours(start: int, end: int) -> int {
    (end - start) / (SECONDS_PER_HOUR as int)
}

pub open spec fn ledger_init() -> LedgerState {
    LedgerState { credit: 0, debit: 0, open_start: None, corrupt: false }
}

/// One replay step. Two starts without an intervening pause, or a pause with
/// no open start, corrupt the ledger; a corrupted state absorbs every later
/// event.
pub open spec fn ledger_step(st: LedgerState, ev: UsageEvent, cost: int) -> LedgerState {
    if st.corrupt {
        st
    } else {
        match ev {
            UsageEvent::FundsAdded { amount, .. } => LedgerState {
                credit: st.credit + amount,
                ..st
            },
            UsageEvent::SessionStart { at } => match st.open_start {
                Some(_) => LedgerState { corrupt: true, ..st },
                None => LedgerState { open_start: Some(at as int), ..st },
            },
            UsageEvent::SessionPause { at } => match st.open_start {
                None => LedgerState { corrupt: true, ..st },
                Some(s) => LedgerState {
                    debit: st.debit + whole_hours(s, at as int) * cost,
                    open_start: None,
                    ..st
                },
            },
        }
    }
}

/// The replay state after the whole log.
pub open spec fn replay(events: Seq<UsageEvent>, cost: int) -> LedgerState
    decreases events.len(),
{
    if events.len() == 0 {
        ledger_init()
    } else {
        ledger_step(replay(events.drop_last(), cost), events.last(), cost)
    }
}

/// The log violates the strict start/pause alternation.
pub open spec fn ledger_corrupt(events: Seq<UsageEvent>, cost: int) -> bool {
    replay(events, cost).corrupt
}

/// Debit still accruing at `now` against an open session, if one is open.
pub open spec fn live_debit(st: LedgerState, now: int, cost: int) -> int {
    match st.open_start {
        Some(s) => whole_hours(s, now) * cost,
        None => 0,
    }
}

/// The balance the replay reconstructs at `now`.
pub open spec fn ledger_balance(events: Seq<UsageEvent>, now: int, cfg: LedgerConfig) -> int {
    let st = replay(events, cfg.hourly_cost as int);
    cfg.default_balance + st.credit - st.debit - live_debit(st, now, cfg.hourly_cost as int)
}

/// The funded judgement: strictly above the threshold.
pub open spec fn ledger_funded(events: Seq<UsageEvent>, now: int, cfg: LedgerConfig) -> bool {
    ledger_balance(events, now, cfg) > cfg.funded_threshold
}

/// The replayed quantities stay within the machine integers the computation
/// uses; outside them the computation reports an internal failure.
pub open spec fn ledger_fits(events: Seq<UsageEvent>, now: int, cfg: LedgerConfig) -> bool {
    let st = replay(events, cfg.hourly_cost as int);
    let total_debit = st.debit + live_debit(st, now, cfg.hourly_cost as int);
    &&& st.credit <= i64::MAX
    &&& total_debit <= u64::MAX
    &&& i64::MIN <= cfg.default_balance + st.credit - total_debit <= i64::MAX
}

/// No event lies after `now`.
pub open spec fn events_no_later_than(events: Seq<UsageEvent>, now: int) -> bool {
    forall|k: int| 0 <= k < events.len() ==> #[trigger] events[k].at() <= now
}

/// Basic facts about a replayed state of a valid log: credit and debit never
/// go negative, and an open start is the time of one of the events.
pub proof fn lemma_replay_props(events: Seq<UsageEvent>, cost: int)
    requires
        events_valid(events),
        0 <= cost,
    ensures
        0 <= replay(events, cost).credit,
        0 <= replay(events, cost).debit,
        replay(events, cost).open_start matches Some(s) ==> exists|k: int|
            0 <= k < events.len() && s == #[trigger] events[k].at(),
    decreases events.len(),
{
    if events.len() > 0 {
        let prefix = events.drop_last();
        assert(events_valid(prefix)) by {
            assert(forall|k: int| 0 <= k < prefix.len() ==> #[trigger] prefix[k] == events[k]);
        }
        lemma_replay_props(prefix, cost);
        let st = replay(prefix, cost);
        let last = events.last();
        if !st.corrupt {
            match last {
                UsageEvent::SessionPause { at } => {
                    if let Some(s) = st.open_start {
                        let k = choose|k: int| 0 <= k < prefix.len() && s == #[trigger] prefix[k].at();
                        assert(events[k].at() <= events[events.len() - 1].at());
                        assert(s <= at as int);
                        lemma_div_pos_is_pos(at - s, SECONDS_PER_HOUR as int);
                        lemma_mul_nonnegative(whole_hours(s, at as int), cost);
                    }
                },
                _ => {},
            }
        }
        match replay(events, cost).open_start {
            Some(s2) => {
                match st.open_start {
                    Some(s1) => {
                        if s2 == s1 {
                            let k = choose|k: int|
                                0 <= k < prefix.len() && s1 == #[trigger] prefix[k].at();
                            assert(0 <= k < events.len() && s2 == events[k].at());
                        }
                    },
                    None => {},
                }
                if !st.corrupt && st.open_start is None && last matches UsageEvent::SessionStart {
                    at,
                } {
                    assert(s2 == events[events.len() - 1].at());
                }
            },
            None => {},
        }
    }
}

/// Replaying a longer prefix never loses corruption and never decreases the
/// accumulated credit or debit.
pub proof fn lemma_replay_extend(events: Seq<UsageEvent>, cost: int, i: int)
    requires
        events_valid(events),
        0 <= cost,
        0 <= i <= events.len(),
    ensures
        replay(events.take(i), cost).corrupt ==> replay(events, cost).corrupt,
        replay(events.take(i), cost).credit <= replay(events, cost).credit,
        replay(events.take(i), cost).debit <= replay(events, cost).debit,
    decreases events.len() - i,
{
    if i == events.len() {
        assert(events.take(i) =~= events);
    } else {
        let pre = events.take(i);
        let ext = events.take(i + 1);
        assert(ext.drop_last() =~= pre);
        assert(ext.last() == events[i]);
        assert(events_valid(pre)) by {
            assert(forall|k: int| 0 <= k < pre.len() ==> #[trigger] pre[k] == events[k]);
        }
        lemma_replay_props(pre, cost);
        let st = replay(pre, cost);
        if !st.corrupt {
            match events[i] {
                UsageEvent::FundsAdded { .. } => {},
                UsageEvent::SessionStart { .. } => {},
                UsageEvent::SessionPause { at } => {
                    if let Some(s) = st.open_start {
                        let k = choose|k: int| 0 <= k < pre.len() && s == #[trigger] pre[k].at();
                        assert(events[k].at() <= events[i].at());
                        lemma_div_pos_is_pos(at - s, SECONDS_PER_HOUR as int);
                        lemma_mul_nonnegative(whole_hours(s, at as int), cost);
                    }
                },
            }
        }
        lemma_replay_extend(events, cost, i + 1);
    }
}

/// With an open session, more wall-clock time can only mean more live debit:
/// the reconstructed balance never increases as `now` advances, with or
/// without an open session. This is what makes the balance a function of
/// wall-clock time between requests.
pub proof fn lemma_balance_nonincreasing(
    events: Seq<UsageEvent>,
    now1: int,
    now2: int,
    cfg: LedgerConfig,
)
    requires
        events_valid(events),
        cfg.wf(),
        now1 <= now2,
    ensures
        ledger_balance(events, now2, cfg) <= ledger_balance(events, now1, cfg),
{
    let cost = cfg.hourly_cost as int;
    let st = replay(events, cost);
    match st.open_start {
        Some(s) => {
            lemma_div_is_ordered(now1 - s, now2 - s, SECONDS_PER_HOUR as int);
            lemma_mul_inequality(whole_hours(s, now1), whole_hours(s, now2), cost);
        },
        None => {},
    }
}

/// Law: while a session is open, recomputing the balance exactly one hour
/// later yields exactly one more hour's cost — the balance decreases purely
/// with wall-clock time, with no new events recorded.
pub proof fn lemma_balance_hourly_step(events: Seq<UsageEvent>, now: int, cfg: LedgerConfig)
    requires
        events_valid(events),
        cfg.wf(),
        replay(events, cfg.hourly_cost as int).open_start is Some,
    ensures
        ledger_balance(events, now + SECONDS_PER_HOUR, cfg) == ledger_balance(events, now, cfg)
            - cfg.hourly_cost,
{
    let cost = cfg.hourly_cost as int;
    let st = replay(events, cost);
    match st.open_start {
        Some(s) => {
            let d = SECONDS_PER_HOUR as int;
            let x = now - s;
            vstd::arithmetic::div_mod::lemma_fundamental_div_mod(x, d);
            vstd::arithmetic::div_mod::lemma_mod_bound(x, d);
            vstd::arithmetic::div_mod::lemma_fundamental_div_mod_converse(
                x + d,
                d,
                x / d + 1,
                x % d,
            );
            assert(whole_hours(s, now + SECONDS_PER_HOUR) == whole_hours(s, now) + 1);
            assert((whole_hours(s, now) + 1) * cost == whole_hours(s, now) * cost + cost)
                by (nonlinear_arith);
        },
        None => {},
    }
}

/// Replay the ordered usage-event log of one user into a balance and a
/// funded judgement at time `now`.
///
/// Exactly two things go to an internal failure: a log whose starts and
/// pauses do not alternate strictly (corrupted data, never a user-facing
/// error), and a replay whose quantities leave the machine-integer range.
/// Every other input yields `Ok` with the reconstructed balance.
pub fn compute_balance(events: &Vec<UsageEvent>, now: i64, cfg: &LedgerConfig) -> (r: Result<
    BalanceInfo,
    AppError,
>)
    requires
        events_valid(events@),
        events_no_later_than(events@, now as int),
        0 <= now,
        cfg.wf(),
    ensures
        r is Ok <==> (!ledger_corrupt(events@, cfg.hourly_cost as int) && ledger_fits(
            events@,
            now as int,
            *cfg,
        )),
        r matches Ok(b) ==> b.balance == ledger_balance(events@, now as int, *cfg) && b.is_funded
            == ledger_funded(events@, now as int, *cfg),
        r matches Err(e) ==> e == AppError::ViolatedAssertion,
{
    let ghost cost = cfg.hourly_cost as int;
    let n = events.len();
    let mut credit: i64 = 0;
    let mut debit: u64 = 0;
    let mut open_start: Option<i64> = None;
    let mut i: usize = 0;
    while i < n
        invariant
            events_valid(events@),
            events_no_later_than(events@, now as int),
            0 <= now,
            cfg.wf(),
            cost == cfg.hourly_cost as int,
            n == events@.len(),
            i <= n,
            !replay(events@.take(i as int), cost).corrupt,
            credit == replay(events@.take(i as int), cost).credit,
            debit == replay(events@.take(i as int), cost).debit,
            match open_start {
                Some(v) => replay(events@.take(i as int), cost).open_start == Some(v as int) && 0
                    <= v,
                None => replay(events@.take(i as int), cost).open_start is None,
            },
        decreases n - i,
    {
        let ghost pre = replay(events@.take(i as int), cost);
        proof {
            assert(events@.take(i + 1).drop_last() =~= events@.take(i as int));
            assert(events@.take(i + 1).last() == events@[i as int]);
        }
        match events[i] {
            UsageEvent::FundsAdded { amount, .. } => {
                match credit.checked_add(amount) {
                    Some(c) => {
                        credit = c;
                    },
                    None => {
                        proof {
                            lemma_replay_extend(events@, cost, i + 1);
                        }
                        return Err(AppError::ViolatedAssertion);
                    },
                }
            },
            UsageEvent::SessionStart { at } => {
                if open_start.is_some() {
                    proof {
                        lemma_replay_extend(events@, cost, i + 1);
                    }
                    return Err(AppError::ViolatedAssertion);
                }
                proof {
                    assert(0 <= events@[i as int].at());
                }
                open_start = Some(at);
            },
            UsageEvent::SessionPause { at } => {
                match open_start {
                    None => {
                        proof {
                            lemma_replay_extend(events@, cost, i + 1);
                        }
                        return Err(AppError::ViolatedAssertion);
                    },
                    Some(s) => {
                        proof {
                            lemma_replay_props(events@.take(i as int), cost);
                            let k = choose|k: int|
                                0 <= k < events@.take(i as int).len() && s as int
                                    == #[trigger] events@.take(i as int)[k].at();
                            assert(events@[k].at() <= events@[i as int].at());
                        }
                        let elapsed: i64 = at - s;
                        let hours: u64 = (elapsed as u64) / 3600;
                        let term = match hours.checked_mul(cfg.hourly_cost as u64) {
                            Some(t) => t,
                            None => {
                                proof {
                                    lemma_replay_extend(events@, cost, i + 1);
                                    lemma_live_debit_nonneg(events@, now as int, *cfg);
                                }
                                return Err(AppError::ViolatedAssertion);
                            },
                        };
                        match debit.checked_add(term) {
                            Some(d) => {
                                debit = d;
                            },
                            None => {
                                proof {
                                    lemma_replay_extend(events@, cost, i + 1);
                                    lemma_live_debit_nonneg(events@, now as int, *cfg);
                                }
                                return Err(AppError::ViolatedAssertion);
                            },
                        }
                        open_start = None;
                    },
                }
            },
        }
        i = i + 1;
    }
    proof {
        assert(events@.take(n as int) =~= events@);
    }
    let total_debit: u64 = match open_start {
        Some(s) => {
            proof {
                lemma_replay_props(events@, cost);
                let k = choose|k: int|
                    0 <= k < events@.len() && s as int == #[trigger] events@[k].at();
                assert(events@[k].at() <= now as int);
            }
            let elapsed: i64 = now - s;
            let hours: u64 = (elapsed as u64) / 3600;
            let term = match hours.checked_mul(cfg.hourly_cost as u64) {
                Some(t) => t,
                None => {
                    return Err(AppError::ViolatedAssertion);
                },
            };
            match debit.checked_add(term) {
                Some(d) => d,
                None => {
                    return Err(AppError::ViolatedAssertion);
                },
            }
        },
        None => debit,
    };
    let wide: i128 = cfg.default_balance as i128 + credit as i128 - total_debit as i128;
    if wide < i64::MIN as i128 || wide > i64::MAX as i128 {
        return Err(AppError::ViolatedAssertion);
    }
    let balance: i64 = wide as i64;
    Ok(BalanceInfo { balance, is_funded: balance > cfg.funded_threshold })
}

/// The live debit of a valid, uncorrupted log is never negative.
proof fn lemma_live_debit_nonneg(events: Seq<UsageEvent>, now: int, cfg: LedgerConfig)
    requires
        events_valid(events),
        events_no_later_than(events, now),
        cfg.wf(),
    ensures
        0 <= live_debit(replay(events, cfg.hourly_cost as int), now, cfg.hourly_cost as int),
{
    let cost = cfg.hourly_cost as int;
    lemma_replay_props(events, cost);
    let st = replay(events, cost);
    if let Some(s) = st.open_start {
        let k = choose|k: int| 0 <= k < events.len() && s == #[trigger] events[k].at();
        assert(s <= now);
        lemma_div_pos_is_pos(now - s, SECONDS_PER_HOUR as int);
        lemma_mul_nonnegative(whole_hours(s, now), cost);
    }
}

} // verus!
