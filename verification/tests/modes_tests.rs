use pointctl::modes::{
    keeps_color_map, DaSilvaType, DimensionalityMode, ExplanationMode, NeighborhoodType,
    RenderMode, VanDrielType,
};

#[test]
fn dimensionality_names_and_inverse() {
    assert_eq!(DimensionalityMode::TwoD.to_string(), "2D");
    assert_eq!(DimensionalityMode::ThreeD.to_string(), "3D");
    assert_eq!(DimensionalityMode::TwoD.inverse(), DimensionalityMode::ThreeD);
    assert_eq!(DimensionalityMode::ThreeD.inverse(), DimensionalityMode::TwoD);
    for m in [DimensionalityMode::TwoD, DimensionalityMode::ThreeD].iter() {
        assert_eq!(m.inverse().inverse(), *m);
        assert_ne!(m.inverse(), *m);
    }
}

#[test]
fn render_mode_names_and_inverse() {
    assert_eq!(RenderMode::Discreet.to_string(), "Discreet");
    assert_eq!(RenderMode::Continuous.to_string(), "Continous");
    assert_eq!(RenderMode::Discreet.inverse(), RenderMode::Continuous);
    assert_eq!(RenderMode::Continuous.inverse().inverse(), RenderMode::Continuous);
}

#[test]
fn neighborhood_type_names_and_inverse() {
    assert_eq!(NeighborhoodType::K.to_string(), "K");
    assert_eq!(NeighborhoodType::R.to_string(), "R");
    assert_eq!(NeighborhoodType::K.inverse(), NeighborhoodType::R);
    assert_eq!(NeighborhoodType::R.inverse().inverse(), NeighborhoodType::R);
}

#[test]
fn da_silva_type_names() {
    assert_eq!(DaSilvaType::Euclidean.to_string(), "Euclidean");
    assert_eq!(DaSilvaType::Variance.to_string(), "Variance");
    assert_eq!(DaSilvaType::EuclideanSingle(7).to_string(), "Euclidean for attribute 7");
    assert_eq!(DaSilvaType::VarianceSingle(0).to_string(), "Variance for attribute 0");
    assert_eq!(
        DaSilvaType::VarianceSingle(1234567).to_string(),
        format!("Variance for attribute {}", 1234567)
    );
    assert_eq!(
        DaSilvaType::EuclideanSingle(usize::MAX).to_string(),
        format!("Euclidean for attribute {}", usize::MAX)
    );
}

#[test]
fn explanation_mode_names() {
    assert_eq!(ExplanationMode::NoExplanation.to_string(), "None");
    assert_eq!(ExplanationMode::Normal.to_string(), "Normal");
    assert_eq!(
        ExplanationMode::DaSilva(DaSilvaType::Variance).to_string(),
        "Da Silva (Variance)"
    );
    assert_eq!(
        ExplanationMode::DaSilva(DaSilvaType::EuclideanSingle(3)).to_string(),
        "Da Silva (Euclidean for attribute 3)"
    );
    assert_eq!(
        ExplanationMode::VanDriel(VanDrielType::MinimalVariance).to_string(),
        "Van Driel (min)"
    );
    assert_eq!(
        ExplanationMode::VanDriel(VanDrielType::TotalVariance).to_string(),
        "Van Driel (total)"
    );
}

#[test]
fn explanation_mode_from_mechanism_name() {
    assert_eq!(
        ExplanationMode::try_from("silva_euclidean"),
        Ok(ExplanationMode::DaSilva(DaSilvaType::Euclidean))
    );
    assert_eq!(
        ExplanationMode::try_from("silva_variance"),
        Ok(ExplanationMode::DaSilva(DaSilvaType::Variance))
    );
    assert_eq!(
        ExplanationMode::try_from("driel_sum"),
        Ok(ExplanationMode::VanDriel(VanDrielType::TotalVariance))
    );
    assert_eq!(
        ExplanationMode::try_from("driel_min"),
        Ok(ExplanationMode::VanDriel(VanDrielType::MinimalVariance))
    );
    assert_eq!(ExplanationMode::try_from("none"), Ok(ExplanationMode::NoExplanation));
    assert_eq!(ExplanationMode::try_from("normal"), Ok(ExplanationMode::Normal));
    assert_eq!(
        ExplanationMode::try_from("driel_total"),
        Err("Could not create explanation mode from 'driel_total'".to_string())
    );
    assert_eq!(
        ExplanationMode::try_from(""),
        Err("Could not create explanation mode from ''".to_string())
    );
}

#[test]
fn recomputing_drops_replaced_color_maps() {
    let variance = ExplanationMode::DaSilva(DaSilvaType::Variance);
    let euclidean = ExplanationMode::DaSilva(DaSilvaType::Euclidean);
    assert!(!keeps_color_map(variance, variance));
    assert!(!keeps_color_map(ExplanationMode::DaSilva(DaSilvaType::VarianceSingle(2)), variance));
    assert!(!keeps_color_map(ExplanationMode::DaSilva(DaSilvaType::EuclideanSingle(2)), euclidean));
    assert!(keeps_color_map(ExplanationMode::DaSilva(DaSilvaType::EuclideanSingle(2)), variance));
    assert!(keeps_color_map(ExplanationMode::NoExplanation, variance));
    assert!(keeps_color_map(ExplanationMode::NoExplanation, ExplanationMode::NoExplanation));
    assert!(keeps_color_map(
        ExplanationMode::DaSilva(DaSilvaType::VarianceSingle(1)),
        ExplanationMode::DaSilva(DaSilvaType::VarianceSingle(2))
    ));
}
