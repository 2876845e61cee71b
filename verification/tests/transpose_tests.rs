use pointctl::transpose::{common_dimensionality, transpose};

#[test]
fn transposes_points() {
    let data = vec![vec![1, 2, 3], vec![4, 5, 6]];
    assert_eq!(transpose(&data), Some(vec![vec![1, 4], vec![2, 5], vec![3, 6]]));
}

#[test]
fn transposing_twice_gives_the_points_back() {
    let data = vec![vec![1.0f32, 1.0], vec![3.0, 0.0], vec![-1.0, -1.0]];
    let once = transpose(&data).unwrap();
    assert_eq!(once, vec![vec![1.0, 3.0, -1.0], vec![1.0, 0.0, -1.0]]);
    assert_eq!(transpose(&once), Some(data));
}

#[test]
fn no_transposition_for_empty_or_ragged_data() {
    assert_eq!(transpose::<i32>(&[]), None);
    assert_eq!(transpose(&[vec![1, 2], vec![3]]), None);
    assert_eq!(transpose(&[vec![0u8; 0], vec![]]), Some(Vec::<Vec<u8>>::new()));
}

#[test]
fn dimensionality_of_points() {
    assert_eq!(common_dimensionality(&[vec![1, 2], vec![3, 4]]), Some(2));
    assert_eq!(common_dimensionality::<u8>(&[]), None);
    assert_eq!(common_dimensionality(&[vec![1, 2], vec![3, 4, 5]]), None);
}
