use mlc_core::errors::MlcError;
use mlc_core::label::{
    calculate_price_increment_intervals, next_bike_tariff, next_bike_without_tariff, personal_car,
    Label, PriceIncrementInfo, UpdateRule,
};

fn label_with_hidden(hidden_values: Vec<u64>) -> Label {
    Label { node_id: 0, values: vec![0, 0], hidden_values, path: vec![] }
}

struct TestCase {
    old_hidden_values: Vec<u64>,
    new_hidden_values: Vec<u64>,
    expected_price: u64,
    pricing_function: fn(&Label, &Label) -> Label,
}

#[test]
fn test_price_calculations() {
    let test_cases = vec![
        TestCase {
            old_hidden_values: vec![0],
            new_hidden_values: vec![1 * 60],
            expected_price: 0,
            pricing_function: next_bike_tariff,
        },
        TestCase {
            old_hidden_values: vec![1 * 60],
            new_hidden_values: vec![2 * 60],
            expected_price: 0,
            pricing_function: next_bike_tariff,
        },
        TestCase {
            old_hidden_values: vec![1 * 60],
            new_hidden_values: vec![35 * 60],
            expected_price: 100,
            pricing_function: next_bike_tariff,
        },
        TestCase {
            old_hidden_values: vec![25 * 60],
            new_hidden_values: vec![35 * 60],
            expected_price: 100,
            pricing_function: next_bike_tariff,
        },
        TestCase {
            old_hidden_values: vec![0 * 60],
            new_hidden_values: vec![1 * 60],
            expected_price: 100,
            pricing_function: next_bike_without_tariff,
        },
        TestCase {
            old_hidden_values: vec![1 * 60],
            new_hidden_values: vec![2 * 60],
            expected_price: 0,
            pricing_function: next_bike_without_tariff,
        },
        TestCase {
            old_hidden_values: vec![1 * 60],
            new_hidden_values: vec![35 * 60],
            expected_price: 200,
            pricing_function: next_bike_without_tariff,
        },
        TestCase {
            old_hidden_values: vec![25 * 60],
            new_hidden_values: vec![35 * 60],
            expected_price: 100,
            pricing_function: next_bike_without_tariff,
        },
    ];

    for (i, case) in test_cases.iter().enumerate() {
        let old_label = label_with_hidden(case.old_hidden_values.clone());
        let new_label = label_with_hidden(case.new_hidden_values.clone());
        let result_label = (case.pricing_function)(&old_label, &new_label);
        assert_eq!(
            result_label.values[1], case.expected_price,
            "case {} with old {:?}, new {:?}",
            i, old_label.hidden_values, new_label.hidden_values
        );
    }
}

#[test]
fn personal_car_charges_every_started_minute() {
    // Crossing from "not started" charges the first interval immediately:
    // one minute elapsed gives two one-minute intervals at 19 cents.
    let old_label = label_with_hidden(vec![0]);
    let new_label = label_with_hidden(vec![60]);
    let result = personal_car(&old_label, &new_label);
    assert_eq!(result.values[1], 38);

    // A later crossing charges only the newly covered intervals.
    let old_label = label_with_hidden(vec![60]);
    let new_label = label_with_hidden(vec![180]);
    let result = personal_car(&old_label, &new_label);
    assert_eq!(result.values[1], 2 * 19);
}

#[test]
fn pricing_copies_everything_but_the_price() {
    let old_label = label_with_hidden(vec![60]);
    let new_label = Label {
        node_id: 7,
        values: vec![42, 5],
        hidden_values: vec![35 * 60],
        path: vec![0, 3, 7],
    };
    let result = next_bike_tariff(&old_label, &new_label);
    assert_eq!(result.node_id, 7);
    assert_eq!(result.values, vec![42, 105]);
    assert_eq!(result.hidden_values, vec![35 * 60]);
    assert_eq!(result.path, vec![0, 3, 7]);
}

#[test]
fn increment_intervals_is_integer_division() {
    let info = PriceIncrementInfo { interval: 30, price_per_interval: 100, first_interval_free: true };
    assert_eq!(calculate_price_increment_intervals(0, &info), 0);
    assert_eq!(calculate_price_increment_intervals(29, &info), 0);
    assert_eq!(calculate_price_increment_intervals(30, &info), 1);
    assert_eq!(calculate_price_increment_intervals(65, &info), 2);
}

#[test]
fn rule_registry_knows_exactly_four_names() {
    assert!(matches!(UpdateRule::from_str("none"), Ok(UpdateRule::NoUpdate)));
    assert!(matches!(UpdateRule::from_str("next_bike_tariff"), Ok(UpdateRule::NextBikeTariff)));
    assert!(matches!(
        UpdateRule::from_str("next_bike_no_tariff"),
        Ok(UpdateRule::NextBikeNoTariff)
    ));
    assert!(matches!(UpdateRule::from_str("personal_car"), Ok(UpdateRule::PersonalCar)));
    assert!(matches!(
        UpdateRule::from_str("next_bike"),
        Err(MlcError::UnknownUpdateRule)
    ));
    assert!(matches!(UpdateRule::from_str(""), Err(MlcError::UnknownUpdateRule)));
}

#[test]
fn dominance_is_strict_somewhere() {
    let a = Label { node_id: 0, values: vec![1, 2], hidden_values: vec![0], path: vec![] };
    let b = Label { node_id: 0, values: vec![1, 3], hidden_values: vec![9], path: vec![0] };
    let c = Label { node_id: 0, values: vec![1, 2], hidden_values: vec![5], path: vec![0] };
    // a is no worse than b everywhere and better in the second objective.
    assert!(a.dominates(&b));
    assert!(!b.dominates(&a));
    // equal cost vectors never dominate, whatever the other fields hold.
    assert!(!a.dominates(&c));
    assert!(!c.dominates(&a));
    assert!(!a.dominates(&a));
}
