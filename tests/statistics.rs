use b7::input::Input;
use b7::statistics::{find_outlier, get_average, outlier_index};

#[test]
fn test_average() {
    let pairs: &[(&[i64], i64)] = &[(&[0], 0), (&[1], 1), (&[0, 1], 0), (&[1, 3], 2)];
    for i in pairs {
        assert!(get_average(i.0) == i.1);
    }
}

#[test]
fn outlier_test() {
    let pairs = &[
        (0 as i64, (0, Input::new())),
        (0 as i64, (2, Input::new())),
        (1 as i64, (6, Input::new())),
    ];
    let found = find_outlier(pairs).unwrap();
    assert_eq!(found.0, 1);
    assert_eq!((found.1).0, 6);
}

#[test]
fn average_rounds_toward_zero() {
    assert_eq!(get_average(&[-1, -2]), -1);
    assert_eq!(get_average(&[-3]), -3);
    assert_eq!(get_average(&[i64::MAX, i64::MAX]), i64::MAX);
    assert_eq!(get_average(&[i64::MIN, i64::MIN]), i64::MIN);
}

#[test]
fn outlier_below_the_mean() {
    // mean 75: 0 lies 75 away, every 100 lies 25 away
    assert_eq!(outlier_index(&[100, 100, 0, 100]), 2);
}

#[test]
fn outlier_tie_goes_to_first() {
    // mean 5: 0 and 10 are both 5 away
    assert_eq!(outlier_index(&[0, 5, 10]), 0);
    assert_eq!(outlier_index(&[7]), 0);
}

#[test]
fn outlier_uses_exact_mean() {
    // mean 1/3: the 1 lies 2/3 away, each 0 lies 1/3 away
    assert_eq!(outlier_index(&[0, 0, 1]), 2);
    // mean 4/3 (2 would be 2/3 away from it, 0 is 4/3 away)
    assert_eq!(outlier_index(&[2, 2, 0]), 2);
}

#[test]
fn outlier_on_extreme_values() {
    assert_eq!(outlier_index(&[i64::MIN, i64::MAX, i64::MAX]), 0);
}
