use ui_kit::bill::{place_currency, widened_places, MAX_PLACES};
use ui_kit::CurrencyPosition;

#[test]
fn a_symbol_leads_and_a_ticker_follows_written_amounts() {
    assert_eq!(place_currency("12.00", "$", CurrencyPosition::Prefix), "$ 12.00");
    assert_eq!(place_currency("12.00", "USDC", CurrencyPosition::Suffix), "12.00 USDC");
}

fn zero_at(value: f64, max: usize) -> Vec<bool> {
    (0..=max).map(|p| format!("{value:.p$}").parse::<f64>().map_or(false, |r| r == 0.0)).collect()
}

#[test]
fn places_widen_only_for_amounts_that_would_vanish() {
    assert_eq!(widened_places(2, false, &zero_at(0.11, 18)), 2);
    assert_eq!(widened_places(2, false, &zero_at(0.00038, 18)), 5);
    assert_eq!(widened_places(2, false, &zero_at(0.000005, 18)), 6);
    assert_eq!(widened_places(2, false, &zero_at(1.234e-7, 18)), 8);
    assert_eq!(widened_places(2, true, &zero_at(0.0, 18)), 2);
    assert_eq!(widened_places(2, false, &zero_at(1e-30, 18)), 18);
    assert_eq!(widened_places(9, true, &zero_at(0.0, 18)), 9);
}

#[test]
fn places_asked_for_are_never_cut() {
    // More places than a widening would ever reach are kept as asked.
    assert_eq!(widened_places(20, false, &zero_at(1e-30, 20)), 20);
    assert_eq!(widened_places(MAX_PLACES, false, &zero_at(1e-30, MAX_PLACES)), MAX_PLACES);
    assert_eq!(widened_places(25, false, &zero_at(0.5, 25)), 25);
    // Widening from below stops at the cap.
    assert_eq!(widened_places(17, false, &zero_at(1e-30, 18)), 18);
}

#[test]
fn a_widened_amount_keeps_a_second_digit() {
    // 0.000005 first shows at five places; one more is written.
    assert_eq!(widened_places(2, false, &zero_at(0.000005, 18)), 6);
    assert_eq!(widened_places(0, false, &zero_at(0.4, 18)), 2);
}
