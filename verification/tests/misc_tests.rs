use pointctl::commands::{parse_shape, plan_explanation, ExplanationRun, Shapes};
use pointctl::filesystem::{get_file_extension, SupportedFileFormat};
use pointctl::modes::{DaSilvaType, ExplanationMode, VanDrielType};
use pointctl::search::{without_point, Indexed, IndexedPoint, RTreeParameters2D, RTreeParameters3D};
use pointctl::texture::generate_raw_texture;

#[test]
fn file_formats_from_extensions() {
    assert_eq!(get_file_extension(Some("csv")), (SupportedFileFormat::CSV, None));
    assert_eq!(get_file_extension(Some("ply")), (SupportedFileFormat::PLY, None));
    assert_eq!(
        get_file_extension(Some("txt")),
        (
            SupportedFileFormat::CSV,
            Some("Unsupported file format `txt` passed, writing to file as CSV".to_string())
        )
    );
    assert_eq!(
        get_file_extension(None),
        (
            SupportedFileFormat::CSV,
            Some("No file format passed, writing to file as CSV".to_string())
        )
    );
}

#[test]
fn indexed_points_keep_their_index() {
    let p = IndexedPoint::new(vec![1.0f32, 2.0], 17);
    assert_eq!(p.point, vec![1.0, 2.0]);
    assert_eq!(p.index, 17);
    assert_eq!(p.get_index(), 17);
}

#[test]
fn rtree_parameters() {
    assert_eq!(
        (RTreeParameters2D::MIN_SIZE, RTreeParameters2D::MAX_SIZE, RTreeParameters2D::REINSERTION_COUNT),
        (5, 9, 3)
    );
    assert_eq!(
        (RTreeParameters3D::MIN_SIZE, RTreeParameters3D::MAX_SIZE, RTreeParameters3D::REINSERTION_COUNT),
        (10, 20, 3)
    );
}

#[test]
fn explanation_runs() {
    let var = ExplanationMode::DaSilva(DaSilvaType::Variance);
    let min = ExplanationMode::VanDriel(VanDrielType::MinimalVariance);
    assert_eq!(plan_explanation(2, var), Ok(ExplanationRun::DaSilva2D(DaSilvaType::Variance)));
    assert_eq!(plan_explanation(3, var), Ok(ExplanationRun::DaSilva3D(DaSilvaType::Variance)));
    assert_eq!(
        plan_explanation(2, min),
        Ok(ExplanationRun::VanDriel2D(VanDrielType::MinimalVariance))
    );
    assert_eq!(
        plan_explanation(3, min),
        Ok(ExplanationRun::VanDriel3D(VanDrielType::MinimalVariance))
    );
    assert_eq!(plan_explanation(4, var), Err(4));
    assert_eq!(plan_explanation(2, ExplanationMode::Normal), Err(2));
}

#[test]
fn shapes_by_name() {
    assert_eq!(parse_shape("cube"), Some(Shapes::Cube));
    assert_eq!(parse_shape("hypercube"), Some(Shapes::HyperCube));
    assert_eq!(parse_shape("sphere"), None);
}

#[test]
fn blob_texture_layout() {
    let texture = generate_raw_texture(|sq: u32| (sq % 251) as u8 + 1);
    assert_eq!(texture.len(), 256 * 256 * 4);
    let alpha = |x: usize, y: usize| texture[(x + y * 256) * 4 + 3];
    // Centre and its direct neighbours are opaque.
    assert_eq!(alpha(128, 128), 255);
    assert_eq!(alpha(129, 129), 255);
    // Distance exactly 2 is no longer opaque: the gradient gives its value.
    assert_eq!(alpha(130, 128), (4 % 251) as u8 + 1);
    // Distance exactly 126 is still in the gradient, beyond it is transparent.
    assert_eq!(alpha(128, 2), (15876 % 251) as u8 + 1);
    assert_eq!(alpha(128, 1), 0);
    assert_eq!(alpha(0, 0), 0);
    // Only the alpha channel is set.
    assert!(texture.iter().enumerate().all(|(i, &b)| i % 4 == 3 || b == 0));
}

#[test]
fn blob_texture_with_the_renderer_gradient() {
    let texture = generate_raw_texture(|sq: u32| {
        let distance = (sq as f32).sqrt();
        let normalized_distance = (126f32 - distance) / 126f32;
        (normalized_distance.powf(2.5) * 256f32) as u8
    });
    // Compare with the texture computed directly with floating point distances.
    for y in 0..256usize {
        for x in 0..256usize {
            let dx = (x as f32) - 128f32;
            let dy = (y as f32) - 128f32;
            let d = (dx * dx + dy * dy).sqrt();
            let expected = if d < 2f32 {
                255u8
            } else if d > 126f32 {
                0u8
            } else {
                (((126f32 - d) / 126f32).powf(2.5) * 256f32) as u8
            };
            assert_eq!(texture[(x + y * 256) * 4 + 3], expected, "pixel {} {}", x, y);
        }
    }
}

#[test]
fn without_point_leaves_out_the_query_point() {
    assert_eq!(without_point(&[4, 2, 7, 2], 2), vec![4, 7]);
    assert_eq!(without_point(&[3, 0, 5], 3), vec![0, 5]);
    assert_eq!(without_point(&[3, 0, 5], 9), vec![3, 0, 5]);
    assert_eq!(without_point(&[], 1), Vec::<u32>::new());
}
