use pointctl::color_map::{ColoringMode, RankMap};

#[test]
fn categorical_ranks_follow_the_ranking() {
    let map = RankMap::new(vec![4, 1, 7], ColoringMode::Categorical);
    assert!(map.is_initialized());
    assert_eq!(map.dimension_count(), 3);
    assert_eq!(map.get_dimension_from_rank(0), Some(4));
    assert_eq!(map.get_dimension_from_rank(1), Some(1));
    assert_eq!(map.get_dimension_from_rank(2), Some(7));
    assert_eq!(map.get_dimension_from_rank(3), None);
    assert_eq!(map.get_rank_from_dimension(7), Some(2));
    assert_eq!(map.get_rank_from_dimension(5), None);
    assert!(!map.single_attribute_mode());
    assert!(!map.uses_rank_overrides());
}

#[test]
fn ordinal_ranks_follow_sorted_dimensions() {
    let map = RankMap::new(vec![4, 1, 7], ColoringMode::Ordinal);
    assert_eq!(map.get_dimension_from_rank(0), Some(1));
    assert_eq!(map.get_dimension_from_rank(1), Some(4));
    assert_eq!(map.get_dimension_from_rank(2), Some(7));
    assert_eq!(map.get_rank_from_dimension(4), Some(1));
    assert_eq!(map.mode(), ColoringMode::Ordinal);
}

#[test]
fn single_mode_has_two_ranks() {
    let map = RankMap::new(vec![9, 8, 7, 6], ColoringMode::Single);
    assert!(map.single_attribute_mode());
    assert_eq!(map.dimension_count(), 2);
    assert_eq!(map.get_dimension_from_rank(0), Some(0));
    assert_eq!(map.get_dimension_from_rank(1), Some(1));
    assert_eq!(map.get_dimension_from_rank(2), None);
}

#[test]
fn repeated_dimensions_keep_their_last_rank() {
    // Inserting (2, 5) after (0, 5) replaces the earlier pair with value 5.
    let map = RankMap::new(vec![5, 3, 5], ColoringMode::Categorical);
    assert_eq!(map.dimension_count(), 2);
    assert_eq!(map.get_dimension_from_rank(0), None);
    assert_eq!(map.get_dimension_from_rank(2), Some(5));
    assert_eq!(map.get_rank_from_dimension(5), Some(2));
}

#[test]
fn empty_map_is_not_initialized() {
    let map = RankMap::empty();
    assert!(!map.is_initialized());
    assert_eq!(map.dimension_count(), 0);
    assert_eq!(map.get_dimension_from_rank(0), None);
    assert_eq!(map.get_rank_from_dimension(0), None);
}

#[test]
fn overrides_take_effect_both_ways() {
    let mut map = RankMap::new(vec![4, 1, 7], ColoringMode::Categorical);
    // Show dimension 7 at rank 0.
    map.set_rank_override(0, 7);
    assert!(map.uses_rank_overrides());
    assert_eq!(map.get_dimension_from_rank(0), Some(7));
    assert_eq!(map.get_rank_from_dimension(7), Some(0));
    // Dimension 4 lost its rank to the override.
    assert_eq!(map.get_rank_from_dimension(4), None);
    // Rank 2 used to show 7, which was moved away.
    assert_eq!(map.get_dimension_from_rank(2), None);
    // Rank 1 is untouched.
    assert_eq!(map.get_dimension_from_rank(1), Some(1));
    assert_eq!(map.get_rank_from_dimension(1), Some(1));
}

#[test]
fn override_to_the_rank_past_the_end_has_no_rank() {
    let mut map = RankMap::new(vec![4, 1, 7], ColoringMode::Categorical);
    map.set_rank_override(3, 1);
    assert_eq!(map.get_dimension_from_rank(3), Some(1));
    assert_eq!(map.get_rank_from_dimension(1), None);
}

#[test]
fn lookups_are_inverse() {
    let mut map = RankMap::new(vec![3, 0, 2, 1], ColoringMode::Categorical);
    map.set_rank_override(1, 2);
    for rank in 0..4usize {
        for dim in 0..4usize {
            assert_eq!(
                map.get_dimension_from_rank(rank) == Some(dim),
                map.get_rank_from_dimension(dim) == Some(rank),
                "rank {} dim {}",
                rank,
                dim
            );
        }
    }
}

#[test]
fn clearing_overrides_restores_ranks() {
    let mut map = RankMap::new(vec![4, 1, 7], ColoringMode::Categorical);
    map.set_rank_override(0, 7);
    map.set_rank_override(2, 4);
    map.clear_rank_overrides();
    assert!(!map.uses_rank_overrides());
    assert_eq!(map.get_dimension_from_rank(0), Some(4));
    assert_eq!(map.get_dimension_from_rank(2), Some(7));
    assert_eq!(map.get_rank_from_dimension(7), Some(2));
}

#[test]
fn overriding_a_dimension_twice_keeps_the_last() {
    let mut map = RankMap::new(vec![4, 1, 7], ColoringMode::Categorical);
    map.set_rank_override(0, 7);
    map.set_rank_override(1, 7);
    assert_eq!(map.get_rank_from_dimension(7), Some(1));
    assert_eq!(map.get_dimension_from_rank(1), Some(7));
    assert_eq!(map.get_dimension_from_rank(0), Some(4));
}
