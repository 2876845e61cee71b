use pointctl::ranking::{annotation_support, calculate_dimension_rankings};

#[test]
fn calculates_correct_dimension_rankings() {
    let indexes = vec![0usize, 1, 1, 1, 2, 2];
    assert_eq!(calculate_dimension_rankings(&indexes), vec![1, 2, 0]);
}

#[test]
fn ranking_of_nothing_is_empty() {
    assert_eq!(calculate_dimension_rankings(&[]), Vec::<usize>::new());
}

#[test]
fn ties_keep_the_smaller_dimension_first() {
    assert_eq!(calculate_dimension_rankings(&[5, 3, 5, 3, 9]), vec![3, 5, 9]);
    assert_eq!(calculate_dimension_rankings(&[7]), vec![7]);
    assert_eq!(calculate_dimension_rankings(&[4, 0, 4, 2, 0, 4]), vec![4, 0, 2]);
}

#[test]
fn calculates_correct_annotation() {
    // (dimension, contribution) rankings; only the dimensions matter here.
    let rankings: Vec<(usize, f32)> =
        vec![(2, 0.7), (1, 0.4), (1, 0.9), (1, 0.6), (1, 0.4), (3, 0.5)];
    let dims: Vec<usize> = rankings.iter().map(|&(d, _)| d).collect();
    let annotate = |point: usize, neighbors: &[u32]| -> (usize, f32) {
        let (dim, count) = annotation_support(point, &dims, neighbors);
        let confidence = if neighbors.is_empty() {
            0.0f32
        } else {
            count as f32 / neighbors.len() as f32
        };
        (dim, confidence)
    };
    assert_eq!(annotate(0, &[1, 2, 3, 4]), (2, 0.0));
    assert_eq!(annotate(1, &[2, 3, 4]), (1, 1.0));
    assert_eq!(annotate(1, &[0, 2, 3, 4]), (1, 0.75));
    assert_eq!(annotate(1, &[0, 2, 3, 5]), (1, 0.50));
}

#[test]
fn annotation_support_counts() {
    let dims = vec![0usize, 0, 1];
    assert_eq!(annotation_support(0, &dims, &[]), (0, 0));
    assert_eq!(annotation_support(2, &dims, &[0, 1, 2, 2]), (1, 2));
}
