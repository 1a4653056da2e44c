use ntx_settlement::dates::{daily_ntx_issuance_for_dates, days_between};
use ntx_settlement::issuance::{daily_ntx_issuance, DAYS_PHASE1, TOTAL_DAYS};
use ntx_settlement::schedule::seconds_until_next_run;
use ntx_settlement::validation::{is_valid_date, is_valid_email, is_valid_evm_address, is_valid_password};

#[test]
fn issuance_on_genesis_day() {
    // i0 = 2·1.68e9/7300 − 2·0.42e9/10950 tokens, in micro-units.
    assert_eq!(daily_ntx_issuance(0), 383_561_643_835);
}

#[test]
fn issuance_at_phase_boundary() {
    assert_eq!(daily_ntx_issuance(DAYS_PHASE1 as i64 - 1), 76_754_362_919);
    assert_eq!(daily_ntx_issuance(DAYS_PHASE1 as i64), 76_712_328_767);
}

#[test]
fn issuance_zero_outside_window() {
    assert_eq!(daily_ntx_issuance(-1), 0);
    assert_eq!(daily_ntx_issuance(TOTAL_DAYS as i64), 0);
    assert_eq!(daily_ntx_issuance(i64::MAX), 0);
    assert_eq!(daily_ntx_issuance(i64::MIN), 0);
    assert!(daily_ntx_issuance(TOTAL_DAYS as i64 - 1) > 0);
}

#[test]
fn issuance_decays_day_by_day() {
    let mut previous = daily_ntx_issuance(0);
    let mut day: i64 = 1;
    while day <= TOTAL_DAYS as i64 {
        let current = daily_ntx_issuance(day);
        assert!(current <= previous, "day {}", day);
        previous = current;
        day += 1;
    }
    assert_eq!(previous, 0);
}

#[test]
fn issuance_for_dates_counts_days() {
    let expected = daily_ntx_issuance(1);
    assert_eq!(daily_ntx_issuance_for_dates("2024-01-02", "2024-01-01"), Some(expected));
    assert_eq!(days_between("2024-03-01", "2024-02-01"), Some(29));
    assert_eq!(days_between("2023-12-31", "2024-01-01"), Some(-1));
    assert_eq!(daily_ntx_issuance_for_dates("2023-12-31", "2024-01-01"), Some(0));
}

#[test]
fn issuance_for_dates_rejects_bad_dates() {
    assert_eq!(daily_ntx_issuance_for_dates("2024-13-01", "2024-01-01"), None);
    assert_eq!(daily_ntx_issuance_for_dates("2024-01-02", "yesterday"), None);
    assert_eq!(days_between("", "2024-01-01"), None);
}

#[test]
fn password_rules() {
    assert!(is_valid_password("Abcdefgh"));
    assert!(!is_valid_password("abcdefgh"));
    assert!(!is_valid_password("Abcdefg"));
    assert!(is_valid_password("abcdefghijklmnopqrstuvwxyz12345Z"));
    assert!(!is_valid_password("abcdefghijklmnopqrstuvwxyz12345ZZ"));
    // Eight characters but more bytes; the uppercase letter must be ASCII.
    assert!(!is_valid_password("ÄÖÜäöüßx"));
}

#[test]
fn date_shape_rules() {
    assert!(is_valid_date("2024-01-02"));
    assert!(!is_valid_date("2024/01/02"));
    assert!(!is_valid_date("2024-1-2"));
    assert!(is_valid_date("----------"));
}

#[test]
fn next_run_later_today_or_tomorrow() {
    assert_eq!(seconds_until_next_run(0, "00:00"), Some(0));
    assert_eq!(seconds_until_next_run(0, "01:30"), Some(5_400));
    assert_eq!(seconds_until_next_run(3_600, "00:30"), Some(86_400 - 1_800));
    assert_eq!(seconds_until_next_run(86_399, "23:59"), Some(86_400 - 59));
    assert_eq!(seconds_until_next_run(0, "25:00"), None);
    assert_eq!(seconds_until_next_run(0, "noon"), None);
}

#[test]
fn email_shapes() {
    assert!(is_valid_email("alice@example.com"));
    assert!(is_valid_email("a.b+c%d_e-f@sub.example.io"));
    assert!(!is_valid_email("alice@example"));
    assert!(!is_valid_email("alice@example.c"));
    assert!(!is_valid_email("@example.com"));
    assert!(!is_valid_email("alice example@example.com"));
}

#[test]
fn evm_address_shapes() {
    assert!(is_valid_evm_address("0x52908400098527886E0F7030069857D2E4169EE7"));
    assert!(!is_valid_evm_address("52908400098527886E0F7030069857D2E4169EE7"));
    assert!(!is_valid_evm_address("0x52908400098527886E0F7030069857D2E4169EE"));
    assert!(!is_valid_evm_address("0x52908400098527886E0F7030069857D2E4169EEG"));
}
