use refuel_bot::dispatch_reply;
use refuel_bot::refuel_reply;

#[test]
fn test_refuel_reply() {
    assert_eq!(
        refuel_reply("/refuel  1000km   35l   2400rub "),
        Some(String::from("3.500 l/100km, 28.571 km/l, 2.40 rub/km"))
    );
    assert_eq!(
        refuel_reply("/refuel  1000KM   35L 2400RUB"),
        Some(String::from("3.500 l/100km, 28.571 km/l, 2.40 rub/km"))
    );
    assert_eq!(
        refuel_reply("/refuel  1000KM   35L"),
        Some(String::from("3.500 l/100km, 28.571 km/l"))
    );
}

#[test]
fn full_command_gives_all_three_metrics() {
    assert_eq!(
        refuel_reply("/refuel 1000km 35l 2400rub"),
        Some(String::from("3.500 l/100km, 28.571 km/l, 2.40 rub/km"))
    );
}

#[test]
fn suffixes_are_case_insensitive() {
    assert_eq!(
        refuel_reply("/refuel 1000KM 35L 2400RUB"),
        Some(String::from("3.500 l/100km, 28.571 km/l, 2.40 rub/km"))
    );
    assert_eq!(refuel_reply("/refuel 1000Km 35l"), refuel_reply("/refuel 1000km 35L"));
}

#[test]
fn distance_and_volume_give_the_fuel_pair() {
    assert_eq!(
        refuel_reply("/refuel 1000KM 35L"),
        Some(String::from("3.500 l/100km, 28.571 km/l"))
    );
}

#[test]
fn distance_and_cost_give_the_cost_metric() {
    assert_eq!(refuel_reply("/refuel 100km 250rub"), Some(String::from("2.50 rub/km")));
}

#[test]
fn missing_distance_gives_no_reply() {
    assert_eq!(refuel_reply("/refuel 500l 2000rub"), None);
}

#[test]
fn missing_volume_and_cost_gives_no_reply() {
    assert_eq!(refuel_reply("/refuel 500km"), None);
    assert_eq!(refuel_reply("/refuel"), None);
}

#[test]
fn zero_distance_gives_no_reply() {
    assert_eq!(refuel_reply("/refuel 0km 10l"), None);
}

#[test]
fn zero_volume_omits_the_fuel_pair_only() {
    assert_eq!(refuel_reply("/refuel 100km 0l 50rub"), Some(String::from("0.50 rub/km")));
}

#[test]
fn later_token_of_the_same_unit_wins() {
    assert_eq!(
        refuel_reply("/refuel 100km 200km 50l"),
        Some(String::from("25.000 l/100km, 4.000 km/l"))
    );
}

#[test]
fn malformed_numeric_token_is_treated_as_absent() {
    assert_eq!(
        refuel_reply("/refuel abckm 100km 50l"),
        Some(String::from("50.000 l/100km, 2.000 km/l"))
    );
    assert_eq!(refuel_reply("/refuel abckm"), None);
    assert_eq!(refuel_reply("/refuel 1.2.3km 50l"), None);
}

#[test]
fn whitespace_is_tolerated() {
    assert_eq!(
        refuel_reply("/refuel\t1000km\n35l\r\n"),
        Some(String::from("3.500 l/100km, 28.571 km/l"))
    );
    assert_eq!(
        refuel_reply("/refuel      1000km      35l      "),
        Some(String::from("3.500 l/100km, 28.571 km/l"))
    );
}

#[test]
fn decimal_values_are_divided_exactly_and_rounded() {
    assert_eq!(
        refuel_reply("/refuel 100.5km 10.25l"),
        Some(String::from("10.199 l/100km, 9.805 km/l"))
    );
}

#[test]
fn small_quotients_round_to_fixed_precision() {
    assert_eq!(refuel_reply("/refuel 1000km 1rub"), Some(String::from("0.00 rub/km")));
    assert_eq!(refuel_reply("/refuel 1000km 5rub"), Some(String::from("0.01 rub/km")));
}

#[test]
fn oversized_numeral_is_treated_as_absent() {
    assert_eq!(refuel_reply("/refuel 12345678901234567890km 5l"), None);
}

#[test]
fn suffix_priority_checks_km_then_l_then_rub() {
    // "5kml" ends in "l" but its stripped numeral "5km" is malformed
    assert_eq!(
        refuel_reply("/refuel 5kml 100km 10l"),
        Some(String::from("10.000 l/100km, 10.000 km/l"))
    );
}

#[test]
fn dispatch_answers_refuel_commands() {
    assert_eq!(
        dispatch_reply("/refuel 1000km 35l 2400rub"),
        Some(String::from("3.500 l/100km, 28.571 km/l, 2.40 rub/km"))
    );
    assert_eq!(dispatch_reply("/refuel 500l 2000rub"), None);
}

#[test]
fn dispatch_answers_help_verbatim() {
    assert_eq!(
        dispatch_reply("/help"),
        Some(String::from(
            "Type /refuel ???km ???l ???rub to compute consumption.\n For example: /refuel 500km 30l 2000rub"
        ))
    );
}

#[test]
fn dispatch_goes_by_prefix_alone() {
    // anything beginning with a command word is dispatched to it
    assert_eq!(dispatch_reply("/helpme"), dispatch_reply("/help"));
    assert_eq!(dispatch_reply("/refuel5l"), None);
}

#[test]
fn help_example_computes_as_documented() {
    assert_eq!(
        refuel_reply("/refuel 500km 30l 2000rub"),
        Some(String::from("6.000 l/100km, 16.667 km/l, 4.00 rub/km"))
    );
}

#[test]
fn dispatch_ignores_other_text() {
    assert_eq!(dispatch_reply("hello"), None);
    assert_eq!(dispatch_reply(""), None);
    assert_eq!(dispatch_reply("/refill 100km"), None);
}
