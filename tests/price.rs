use shopify_price_fixer::price::{format_cents, parse_quantity, price_from_str, report_price_cents};
use shopify_price_fixer::report_tools::{legacy_price_action, poll_tab_output, PollAction, PriceAction};

#[test]
fn price_strips_and_rounds() {
    assert_eq!(price_from_str("$1,234.56"), Some(123456));
    assert_eq!(price_from_str("12.345"), Some(1235));
    assert_eq!(price_from_str("12.344"), Some(1234));
    assert_eq!(price_from_str("7"), Some(700));
    assert_eq!(price_from_str("7."), Some(700));
    assert_eq!(price_from_str(".5"), Some(50));
    assert_eq!(price_from_str("-3.10"), Some(310));
}

#[test]
fn price_refuses_what_is_no_number() {
    assert_eq!(price_from_str(""), None);
    assert_eq!(price_from_str("."), None);
    assert_eq!(price_from_str("abc"), None);
    assert_eq!(price_from_str("1.2.3"), None);
    assert_eq!(price_from_str("99999999999999999999"), None);
}

#[test]
fn quantity_truncates_toward_zero() {
    assert_eq!(parse_quantity("12"), Some(12));
    assert_eq!(parse_quantity("12.9"), Some(12));
    assert_eq!(parse_quantity("-3.5"), Some(-3));
    assert_eq!(parse_quantity("+4"), Some(4));
    assert_eq!(parse_quantity("0.000"), Some(0));
    assert_eq!(parse_quantity(""), None);
    assert_eq!(parse_quantity("-"), None);
    assert_eq!(parse_quantity("1e3"), None);
    assert_eq!(parse_quantity(" 5"), None);
}

#[test]
fn legacy_report_cents_truncate_and_saturate() {
    assert_eq!(report_price_cents("19.999"), Some(1999));
    assert_eq!(report_price_cents("-2.50"), Some(0));
    assert_eq!(report_price_cents("50000000"), Some(u32::MAX));
    assert_eq!(report_price_cents("$5"), None);
}

#[test]
fn cents_are_written_with_two_decimals() {
    assert_eq!(format_cents(0), "0.00");
    assert_eq!(format_cents(5), "0.05");
    assert_eq!(format_cents(1000), "10.00");
    assert_eq!(format_cents(123456), "1234.56");
}

#[test]
fn legacy_updater_only_raises() {
    assert_eq!(legacy_price_action(500, 1000), PriceAction::Raise(1000));
    assert_eq!(legacy_price_action(1200, 1000), PriceAction::KeepGreater);
    assert_eq!(legacy_price_action(1000, 1000), PriceAction::Keep);
}

#[test]
fn bill_report_wait_gives_up_after_the_last_attempt() {
    assert_eq!(poll_tab_output(0, false), PollAction::Retry(500));
    assert_eq!(poll_tab_output(3, true), PollAction::Settle(5000));
    assert_eq!(poll_tab_output(599, false), PollAction::Retry(500));
    assert_eq!(poll_tab_output(600, true), PollAction::GiveUp);
}
