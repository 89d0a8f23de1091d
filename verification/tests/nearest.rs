use reinforced_graph::nearest::{nearest, MAX_DIST};

#[test]
fn threshold_is_ten_units() {
    assert_eq!(MAX_DIST, 10.0f32.to_bits());
}

#[test]
fn no_points_no_nearest() {
    assert_eq!(nearest(&vec![]), None);
}

#[test]
fn a_single_point_is_the_nearest() {
    assert_eq!(nearest(&vec![7]), Some((0, 7)));
}

#[test]
fn nearest_takes_the_smallest_key() {
    assert_eq!(nearest(&vec![9, 4, 6]), Some((1, 4)));
    assert_eq!(nearest(&vec![9, 8, 1]), Some((2, 1)));
    assert_eq!(nearest(&vec![0, 8, 1]), Some((0, 0)));
}

#[test]
fn nearest_takes_the_first_of_equal_keys() {
    assert_eq!(nearest(&vec![5, 3, 3, 3]), Some((1, 3)));
    assert_eq!(nearest(&vec![2, 2]), Some((0, 2)));
}

#[test]
fn nearest_orders_distances_by_their_keys() {
    let dists = [21.2f32, 7.07, 0.0, 1.41, 1.0e-30, 3.0e38];
    let keys: Vec<u32> = dists.iter().map(|d| d.to_bits()).collect();
    assert_eq!(nearest(&keys), Some((2, 0.0f32.to_bits())));
    let keys: Vec<u32> = [21.2f32, 7.07, 1.41, 70.7].iter().map(|d| d.to_bits()).collect();
    assert_eq!(nearest(&keys), Some((2, 1.41f32.to_bits())));
}

#[test]
fn keys_compare_as_the_distances_do() {
    let dists = [0.0f32, 1.0e-40, 1.0e-30, 0.5, 1.0, 9.999999, 10.0, 10.000001, 70.7, 3.0e38,
        f32::INFINITY];
    for a in dists {
        for b in dists {
            assert_eq!(a < b, a.to_bits() < b.to_bits());
        }
    }
}
