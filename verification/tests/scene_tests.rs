use pointctl::modes::{DaSilvaType, DimensionalityMode, ExplanationMode, VanDrielType};
use pointctl::scene::{get_dimension_name, SceneStates};

#[test]
fn new_scene_is_empty() {
    let scene: SceneStates<u8, u16> = SceneStates::new();
    assert!(!scene.initialized());
    assert!(!scene.dimension_switch_available());
    assert_eq!(scene.dimensionality_mode(), DimensionalityMode::ThreeD);
    assert!(scene.state_2d().is_none());
    assert!(scene.state_3d().is_none());
}

#[test]
fn loading_shows_the_loaded_state() {
    let mut scene: SceneStates<u8, u16> = SceneStates::new();
    scene.load_2d(2);
    assert!(scene.initialized());
    assert_eq!(scene.dimensionality_mode(), DimensionalityMode::TwoD);
    assert!(!scene.dimension_switch_available());
    assert!(scene.take_dirty());
    assert!(!scene.take_dirty());
    // Without a 3D state the scene stays in 2D.
    assert!(!scene.switch_dimensionality());
    assert_eq!(scene.dimensionality_mode(), DimensionalityMode::TwoD);
    scene.load_3d(3);
    assert_eq!(scene.dimensionality_mode(), DimensionalityMode::ThreeD);
    assert_eq!(scene.state_2d(), Some(&2));
    assert_eq!(scene.state_3d(), Some(&3));
}

#[test]
fn switching_twice_returns_to_the_same_dimensionality() {
    let mut scene: SceneStates<u8, u16> = SceneStates::new();
    scene.load_2d(2);
    scene.load_3d(3);
    scene.take_dirty();
    assert!(scene.switch_dimensionality());
    assert_eq!(scene.dimensionality_mode(), DimensionalityMode::TwoD);
    assert!(scene.take_dirty());
    assert!(scene.switch_dimensionality());
    assert_eq!(scene.dimensionality_mode(), DimensionalityMode::ThreeD);
}

#[test]
fn states_can_be_changed() {
    let mut scene: SceneStates<u8, u16> = SceneStates::new();
    scene.load_3d(3);
    if let Some(s) = scene.state_3d_mut() {
        *s = 30;
    }
    assert!(scene.state_2d_mut().is_none());
    assert_eq!(scene.state_3d(), Some(&30));
}

#[test]
fn dimension_names_in_the_legend() {
    let names = vec!["alcohol".to_string(), "acidity".to_string()];
    let silva = ExplanationMode::DaSilva(DaSilvaType::Variance);
    assert_eq!(get_dimension_name(silva, Some(&names), 1), Some("acidity".to_string()));
    assert_eq!(get_dimension_name(silva, Some(&names), 2), None);
    assert_eq!(get_dimension_name(silva, None, 0), None);
    let driel = ExplanationMode::VanDriel(VanDrielType::MinimalVariance);
    assert_eq!(get_dimension_name(driel, Some(&names), 12), Some("12 Dimension(s)".to_string()));
    assert_eq!(get_dimension_name(ExplanationMode::Normal, Some(&names), 0), None);
    assert_eq!(get_dimension_name(ExplanationMode::NoExplanation, Some(&names), 0), None);
}
