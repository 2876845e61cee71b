use pointctl::modes::{DaSilvaType, ExplanationMode, VanDrielType};
use pointctl::visualization::ColorMaps;

#[test]
fn starts_with_the_plain_map() {
    let maps = ColorMaps::new("plain");
    assert_eq!(maps.get_explanation_mode(), ExplanationMode::NoExplanation);
    assert_eq!(maps.get_current_color_map(), &"plain");
    assert!(maps.is_explanation_available(ExplanationMode::NoExplanation));
    assert!(!maps.is_explanation_available(ExplanationMode::Normal));
}

#[test]
fn stored_maps_can_be_shown() {
    let mut maps = ColorMaps::new("plain");
    let var = ExplanationMode::DaSilva(DaSilvaType::Variance);
    assert!(!maps.set_explanation_mode(var));
    assert_eq!(maps.get_explanation_mode(), ExplanationMode::NoExplanation);
    maps.insert(var, "variance");
    assert!(maps.set_explanation_mode(var));
    assert_eq!(maps.get_current_color_map(), &"variance");
    maps.insert(var, "variance 2");
    assert_eq!(maps.get(var), Some(&"variance 2"));
}

#[test]
fn taking_a_map_out_and_back() {
    let mut maps = ColorMaps::new(String::from("plain"));
    let normal = ExplanationMode::Normal;
    maps.insert(normal, String::from("normals"));
    let mut taken = maps.take(normal).unwrap();
    assert!(!maps.is_explanation_available(normal));
    assert_eq!(maps.take(normal), None);
    taken.push('!');
    maps.insert(normal, taken);
    assert_eq!(maps.get(normal), Some(&String::from("normals!")));
}

#[test]
fn recomputing_drops_the_replaced_maps() {
    let mut maps = ColorMaps::new(0);
    let var = ExplanationMode::DaSilva(DaSilvaType::Variance);
    let var_single = ExplanationMode::DaSilva(DaSilvaType::VarianceSingle(3));
    let euc_single = ExplanationMode::DaSilva(DaSilvaType::EuclideanSingle(3));
    let driel = ExplanationMode::VanDriel(VanDrielType::TotalVariance);
    maps.insert(var, 1);
    maps.insert(var_single, 2);
    maps.insert(euc_single, 3);
    maps.insert(driel, 4);
    assert!(maps.set_explanation_mode(driel));
    maps.prepare_recompute(var);
    assert_eq!(maps.get_explanation_mode(), ExplanationMode::NoExplanation);
    assert!(!maps.is_explanation_available(var));
    assert!(!maps.is_explanation_available(var_single));
    assert_eq!(maps.get(euc_single), Some(&3));
    assert_eq!(maps.get(driel), Some(&4));
    assert_eq!(maps.get_current_color_map(), &0);
}

#[test]
fn the_plain_map_survives_everything() {
    let mut maps = ColorMaps::new(0);
    let normal = ExplanationMode::Normal;
    maps.insert(normal, 5);
    assert!(maps.set_explanation_mode(normal));
    maps.prepare_recompute(ExplanationMode::NoExplanation);
    assert_eq!(maps.get_explanation_mode(), ExplanationMode::NoExplanation);
    assert_eq!(maps.get_current_color_map(), &0);
    assert_eq!(maps.get(normal), Some(&5));
    assert!(maps.set_explanation_mode(normal));
    assert_eq!(maps.take(normal), Some(5));
    assert_eq!(maps.get_explanation_mode(), ExplanationMode::NoExplanation);
    assert_eq!(maps.get_current_color_map(), &0);
}
