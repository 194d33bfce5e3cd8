use fieldnotes::error::AppError;
use fieldnotes::ledger::{compute_balance, LedgerConfig, DEFAULT_BALANCE, HOURLY_BALANCE_COST};
use fieldnotes::store::UsageEvent;

const HOUR: i64 = 3600;

fn default_config() -> LedgerConfig {
    LedgerConfig::default()
}

#[test]
fn closed_session_costs_whole_hours() {
    // [start@T0, pause@T0+3h] yields B - 3C regardless of how much later we look.
    let events = vec![
        UsageEvent::SessionStart { at: 0 },
        UsageEvent::SessionPause { at: 3 * HOUR },
    ];
    let cfg = default_config();
    let info = compute_balance(&events, 10 * HOUR, &cfg).unwrap();
    assert_eq!(info.balance, DEFAULT_BALANCE - 3 * HOURLY_BALANCE_COST);
    assert!(info.is_funded);
}

#[test]
fn open_session_accrues_with_wall_clock() {
    // [start@T0] with now = T0+5h yields B - 5C; one hour later, B - 6C.
    let events = vec![UsageEvent::SessionStart { at: 0 }];
    let cfg = default_config();
    let at_five = compute_balance(&events, 5 * HOUR, &cfg).unwrap();
    assert_eq!(at_five.balance, DEFAULT_BALANCE - 5 * HOURLY_BALANCE_COST);
    let at_six = compute_balance(&events, 6 * HOUR, &cfg).unwrap();
    assert_eq!(at_six.balance, DEFAULT_BALANCE - 6 * HOURLY_BALANCE_COST);
    assert!(at_six.balance < at_five.balance);
}

#[test]
fn partial_hour_is_not_billed() {
    let events = vec![
        UsageEvent::SessionStart { at: 0 },
        UsageEvent::SessionPause { at: 3 * HOUR + 1800 },
    ];
    let cfg = default_config();
    let info = compute_balance(&events, 4 * HOUR, &cfg).unwrap();
    assert_eq!(info.balance, DEFAULT_BALANCE - 3 * HOURLY_BALANCE_COST);
}

#[test]
fn empty_log_yields_default_balance() {
    let events: Vec<UsageEvent> = Vec::new();
    let cfg = default_config();
    let info = compute_balance(&events, 1000, &cfg).unwrap();
    assert_eq!(info.balance, DEFAULT_BALANCE);
    assert!(info.is_funded);
}

#[test]
fn funds_added_increase_balance() {
    let events = vec![
        UsageEvent::FundsAdded { at: 10, amount: 250_000 },
        UsageEvent::SessionStart { at: 20 },
        UsageEvent::SessionPause { at: 20 + 2 * HOUR },
    ];
    let cfg = default_config();
    let info = compute_balance(&events, 3 * HOUR, &cfg).unwrap();
    assert_eq!(
        info.balance,
        DEFAULT_BALANCE + 250_000 - 2 * HOURLY_BALANCE_COST
    );
}

#[test]
fn two_starts_corrupt_the_ledger() {
    let events = vec![
        UsageEvent::SessionStart { at: 0 },
        UsageEvent::SessionStart { at: 10 },
    ];
    let cfg = default_config();
    let r = compute_balance(&events, 100, &cfg);
    assert_eq!(r.unwrap_err(), AppError::ViolatedAssertion);
}

#[test]
fn pause_without_start_corrupts_the_ledger() {
    let events = vec![UsageEvent::SessionPause { at: 5 }];
    let cfg = default_config();
    let r = compute_balance(&events, 100, &cfg);
    assert_eq!(r.unwrap_err(), AppError::ViolatedAssertion);
}

#[test]
fn corruption_is_reported_even_after_credit() {
    let events = vec![
        UsageEvent::FundsAdded { at: 0, amount: 7 },
        UsageEvent::SessionPause { at: 5 },
    ];
    let cfg = default_config();
    assert_eq!(
        compute_balance(&events, 100, &cfg).unwrap_err(),
        AppError::ViolatedAssertion
    );
}

#[test]
fn balance_exactly_at_threshold_is_not_funded() {
    // With a small config: 10 hours at cost 10 against a default of 100
    // lands exactly on the threshold 0, which is on the locked-out side.
    let cfg = LedgerConfig { default_balance: 100, funded_threshold: 0, hourly_cost: 10 };
    let events = vec![
        UsageEvent::SessionStart { at: 0 },
        UsageEvent::SessionPause { at: 10 * HOUR },
    ];
    let info = compute_balance(&events, 10 * HOUR, &cfg).unwrap();
    assert_eq!(info.balance, 0);
    assert!(!info.is_funded);
}

#[test]
fn balance_above_threshold_is_funded() {
    let cfg = LedgerConfig { default_balance: 100, funded_threshold: 0, hourly_cost: 10 };
    let events = vec![
        UsageEvent::SessionStart { at: 0 },
        UsageEvent::SessionPause { at: 9 * HOUR },
    ];
    let info = compute_balance(&events, 9 * HOUR, &cfg).unwrap();
    assert_eq!(info.balance, 10);
    assert!(info.is_funded);
}

#[test]
fn default_config_matches_constants() {
    let cfg = LedgerConfig::default();
    assert_eq!(cfg.default_balance, fieldnotes::ledger::DEFAULT_BALANCE);
    assert_eq!(cfg.funded_threshold, fieldnotes::ledger::FUNDED_BALANCE);
    assert_eq!(cfg.hourly_cost, fieldnotes::ledger::HOURLY_BALANCE_COST);
}
