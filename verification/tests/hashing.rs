use flagsmith_flag_engine::decimal::Decimal;
use flagsmith_flag_engine::utils::get_uuid;
use flagsmith_flag_engine::utils::hashing::{
    get_hashed_percentage_for_object_ids, join_ids, residue, HashedPercentage,
};
use uuid::Uuid;

#[test]
fn hashed_percentage_for_object_ids_is_same_for_same_ids() {
    fn check(object_ids: &Vec<&str>) {
        let first_hashed_percetnage = get_hashed_percentage_for_object_ids(&object_ids, 1);
        let second_hashed_percetnage = get_hashed_percentage_for_object_ids(&object_ids, 1);
        assert_eq!(first_hashed_percetnage, second_hashed_percetnage);
    }
    check(&vec!["1", "2"]);
    check(&vec![&Uuid::new_v4().hyphenated().to_string(), "2"])
}

#[test]
fn hashed_percentage_for_object_ids_is_different_for_different_ids() {
    let first_object_ids = vec!["1", "2"];
    let second_object_ids = vec!["9", "10"];
    let first_hashed_percetnage = get_hashed_percentage_for_object_ids(&first_object_ids, 1);
    let second_hashed_percetnage = get_hashed_percentage_for_object_ids(&second_object_ids, 1);
    assert!(first_hashed_percetnage != second_hashed_percetnage);
}

#[test]
fn known_positions() {
    let cases: Vec<(Vec<&str>, u32)> = vec![
        (vec!["1", "2"], 2659),
        (vec!["1", "8"], 3888),
        (vec!["1", "1"], 8496),
        (vec!["1", "env_2"], 2287),
        (vec!["9", "10"], 5716),
        (vec!["a6ff815f-63ed-4e72-99dc-9124c442ce4d", "13"], 977),
        (vec!["seg", "user"], 6072),
        (vec!["x", "1450"], 0),
        (vec!["x", "1498"], 9998),
        (vec!["x", "2680"], 4999),
    ];
    for (ids, position) in cases {
        assert_eq!(get_hashed_percentage_for_object_ids(&ids, 1).position(), position, "{:?}", ids);
    }
}

#[test]
fn percentages_lie_between_nothing_and_everything() {
    let lowest = get_hashed_percentage_for_object_ids(&vec!["x", "1450"], 1);
    let highest = get_hashed_percentage_for_object_ids(&vec!["x", "1498"], 1);
    let half = get_hashed_percentage_for_object_ids(&vec!["x", "2680"], 1);
    let percent = |p: HashedPercentage| (p.position() as f32 / 9998.0) * 100.0;
    assert_eq!(percent(lowest), 0.0);
    assert_eq!(percent(highest), 100.0);
    assert_eq!(percent(half), 50.0);
    assert!(highest.at_most(&Decimal::from_integer(100)));
    assert!(!highest.below(&Decimal::from_integer(100)));
    assert!(highest.below(&Decimal::parse("100.000000000000000001").unwrap()));
    assert!(lowest.at_most(&Decimal::zero()));
    assert!(!lowest.below(&Decimal::zero()));
    assert!(half.at_most(&Decimal::from_integer(50)));
    assert!(!half.below(&Decimal::from_integer(50)));
    for i in 0..200 {
        let id = i.to_string();
        let p = get_hashed_percentage_for_object_ids(&vec!["k", id.as_str()], 1);
        assert!(p.position() <= 9998);
    }
}

#[test]
fn iterations_repeat_the_joined_ids() {
    let ids = vec!["1", "2"];
    let once = get_hashed_percentage_for_object_ids(&ids, 1);
    let none = get_hashed_percentage_for_object_ids(&ids, 0);
    let twice = get_hashed_percentage_for_object_ids(&ids, 2);
    assert_eq!(once, none);
    assert_eq!(twice.position(), 478);
    assert_eq!(twice, get_hashed_percentage_for_object_ids(&vec!["1", "21", "2"], 1));
}

#[test]
fn ids_are_joined_with_commas() {
    assert_eq!(join_ids(&vec![]), "");
    assert_eq!(join_ids(&vec!["a"]), "a");
    assert_eq!(join_ids(&vec!["a", "b", ""]), "a,b,");
    assert_eq!(join_ids(&vec!["", ""]), ",");
}

#[test]
fn digests_are_reduced_modulo_the_number_of_positions() {
    assert_eq!(residue(&vec![]), 0);
    assert_eq!(residue(&vec![0]), 0);
    assert_eq!(residue(&vec![1, 0]), 256);
    assert_eq!(residue(&vec![0x27, 0x0f]), 0);
    assert_eq!(residue(&vec![0x27, 0x10]), 1);
    assert_eq!(residue(&vec![0xff; 16]), 8967);
}

#[test]
fn positions_beyond_the_last_count_as_the_last() {
    assert_eq!(HashedPercentage::from_position(0).position(), 0);
    assert_eq!(HashedPercentage::from_position(9998).position(), 9998);
    assert_eq!(HashedPercentage::from_position(9999).position(), 9998);
    assert_eq!(HashedPercentage::from_position(u32::MAX).position(), 9998);
}

#[test]
fn thresholds_in_units() {
    let p = HashedPercentage::from_position(2500);
    assert!(!p.at_most_units(-1));
    assert!(!p.at_most_units(0));
    assert!(p.at_most_units(i128::MAX));
    assert!(!p.at_most_units(i128::MIN));
    assert!(p.at_most_units(25_005_001_000_200_040_009));
    assert!(!p.at_most_units(25_005_001_000_200_040_008));
    assert!(p.below_units(25_005_001_000_200_040_009));
    assert!(!p.below_units(25_005_001_000_200_040_008));
    assert!(p.below_units(i128::MAX));
    assert!(!p.below_units(i128::MIN));
    let zero = HashedPercentage::from_position(0);
    assert!(zero.at_most_units(0));
    assert!(!zero.below_units(0));
    assert!(zero.below_units(1));
}

#[test]
fn fresh_identifiers_are_hyphenated_and_differ() {
    let first = get_uuid();
    let second = get_uuid();
    assert_eq!(first.len(), 36);
    assert_eq!(first.matches('-').count(), 4);
    assert!(first != second);
    assert!(Uuid::parse_str(&first).is_ok());
}
