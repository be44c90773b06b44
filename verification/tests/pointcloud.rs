use cumulus::layout::{arrange_point, grid_position, pcd_layout, FieldSource};
use cumulus::{CloudError, Point, PointCloud};

fn names(list: &[&str]) -> Vec<String> {
    list.iter().map(|s| s.to_string()).collect()
}

fn point(fields: &[(f32, u8)]) -> Point<f32, u8> {
    Point::new(fields.to_vec()).unwrap()
}

fn fields_of(pc: &PointCloud<f32, u8>) -> Vec<Vec<(f32, u8)>> {
    pc.points().iter().map(|p| p.fields().clone()).collect()
}

fn cloud(points: Vec<Vec<(f32, u8)>>, fields: &[&str], width: usize, height: usize) -> PointCloud<f32, u8> {
    PointCloud::new(points.iter().map(|p| point(p)).collect(), names(fields), width, height).unwrap()
}

#[test]
fn point_accessors() {
    let p = point(&[(1.0, 10), (2.0, 20), (3.0, 30), (4.0, 40)]);
    assert_eq!(p.x(), 1.0);
    assert_eq!(p.y(), 2.0);
    assert_eq!(p.z(), 3.0);
    assert_eq!(p.get_field(3), 4.0);
    assert_eq!(p.get_field_color(2), 30);
}

#[test]
fn new_accepts_valid_cloud() {
    let pc = cloud(vec![vec![(1.0, 1), (2.0, 2), (3.0, 3)]; 6], &["x", "y", "z"], 3, 2);
    assert_eq!(pc.fields_number(), 3);
    assert_eq!(pc.get_field_name(1), "y");
    assert_eq!(pc.width(), 3);
    assert_eq!(pc.height(), 2);
    assert!(pc.is_organized());
    let flat = cloud(vec![vec![(1.0, 1), (2.0, 2), (3.0, 3)]; 4], &["x", "y", "z"], 4, 1);
    assert!(!flat.is_organized());
}

#[test]
fn new_refuses_wrong_field_names() {
    let pts = || vec![point(&[(0.0, 0); 3])];
    assert!(matches!(PointCloud::new(pts(), names(&["y", "y", "z"]), 1, 1), Err(CloudError::FirstFieldNotX)));
    assert!(matches!(PointCloud::new(pts(), names(&["x", "x", "z"]), 1, 1), Err(CloudError::SecondFieldNotY)));
    assert!(matches!(PointCloud::new(pts(), names(&["x", "y", "y"]), 1, 1), Err(CloudError::ThirdFieldNotZ)));
    // The names are checked before the size.
    assert!(matches!(PointCloud::new(pts(), names(&["a", "y", "z"]), 5, 5), Err(CloudError::FirstFieldNotX)));
}

#[test]
fn new_refuses_wrong_size() {
    let pts = vec![point(&[(0.0, 0); 3]), point(&[(0.0, 0); 3])];
    match PointCloud::new(pts, names(&["x", "y", "z"]), 3, 1) {
        Err(CloudError::SizeMismatch { width, height, len }) => {
            assert_eq!((width, height, len), (3, 1, 2));
        }
        _ => panic!("expected a size mismatch"),
    }
    // A product that overflows is a mismatch too.
    let pts = vec![point(&[(0.0, 0); 3])];
    assert!(matches!(
        PointCloud::new(pts, names(&["x", "y", "z"]), usize::MAX, 2),
        Err(CloudError::SizeMismatch { .. })
    ));
}

#[test]
fn new_refuses_zero_height() {
    let pts: Vec<Point<f32, u8>> = vec![];
    assert!(matches!(PointCloud::new(pts, names(&["x", "y", "z"]), 7, 0), Err(CloudError::ZeroHeight)));
}

#[test]
fn field_color_at_reads_row_first() {
    // Two rows of three columns; the colour tells the index of the point.
    let pts: Vec<Point<f32, u8>> = (0..6u8).map(|i| point(&[(0.0, i), (0.0, i), (0.0, i), (0.0, 100 + i)])).collect();
    let pc = PointCloud::new(pts, names(&["x", "y", "z", "i"]), 3, 2).unwrap();
    assert_eq!(pc.field_color_at(1, 2, 0), 5);
    assert_eq!(pc.field_color_at(0, 1, 3), 101);
    let (row, column) = grid_position(5, 3);
    assert_eq!((row, column), (1, 2));
    assert_eq!(pc.field_color_at(row as usize, column as usize, 3), 105);
}

#[test]
fn add_field_adds_to_every_point() {
    let mut pc = cloud(vec![vec![(1.0, 1), (2.0, 2), (3.0, 3)], vec![(4.0, 4), (5.0, 5), (6.0, 6)]], &["x", "y", "z"], 2, 1);
    pc.add_field("intensity".to_string(), 9.5, 42);
    assert_eq!(pc.fields_number(), 4);
    assert_eq!(pc.get_field_name(3), "intensity");
    for p in pc.points() {
        assert_eq!(p.get_field(3), 9.5);
        assert_eq!(p.get_field_color(3), 42);
    }
}

#[test]
fn truncate_xyz_keeps_coordinates() {
    let mut pc = cloud(vec![vec![(1.0, 1), (2.0, 2), (3.0, 3), (4.0, 4), (5.0, 5)]], &["x", "y", "z", "a", "b"], 1, 1);
    pc.truncate_xyz();
    assert_eq!(pc.fields_number(), 3);
    assert_eq!(fields_of(&pc), vec![vec![(1.0, 1), (2.0, 2), (3.0, 3)]]);
    assert_eq!(pc.points()[0].fields().len(), 3);
}

#[test]
fn merge_refuses_nothing() {
    let clouds: Vec<PointCloud<f32, u8>> = vec![];
    assert!(matches!(PointCloud::merge(clouds, vec![]), Err(CloudError::NoPointClouds)));
}

#[test]
fn merge_single_cloud_is_unchanged() {
    let pc = cloud(vec![vec![(1.0, 1), (2.0, 2), (3.0, 3)]], &["x", "y", "z"], 1, 1);
    let merged = PointCloud::merge(vec![pc], vec![(0.0, 7)]).unwrap();
    assert_eq!(merged.fields_number(), 3);
    assert_eq!(fields_of(&merged), vec![vec![(1.0, 1), (2.0, 2), (3.0, 3)]]);
}

#[test]
fn merge_same_fields_tags_every_point() {
    let a = cloud(vec![vec![(1.0, 1), (1.0, 1), (1.0, 1), (10.0, 10)]], &["x", "y", "z", "i"], 1, 1);
    let b = cloud(
        vec![vec![(2.0, 2), (2.0, 2), (2.0, 2), (20.0, 20)], vec![(3.0, 3), (3.0, 3), (3.0, 3), (30.0, 30)]],
        &["x", "y", "z", "i"],
        2,
        1,
    );
    let merged = PointCloud::merge(vec![a, b], vec![(0.0, 100), (1.0, 101)]).unwrap();
    assert_eq!(merged.fields_number(), 5);
    assert_eq!(merged.get_field_name(3), "i");
    assert_eq!(merged.get_field_name(4), "filename");
    // The last cloud comes first; the merged cloud is one row of all the points.
    assert_eq!(merged.width(), 3);
    assert_eq!(merged.height(), 1);
    assert_eq!(
        fields_of(&merged),
        vec![
            vec![(2.0, 2), (2.0, 2), (2.0, 2), (20.0, 20), (1.0, 101)],
            vec![(3.0, 3), (3.0, 3), (3.0, 3), (30.0, 30), (1.0, 101)],
            vec![(1.0, 1), (1.0, 1), (1.0, 1), (10.0, 10), (0.0, 100)],
        ]
    );
}

#[test]
fn merge_different_fields_keeps_coordinates() {
    let a = cloud(vec![vec![(1.0, 1), (1.0, 1), (1.0, 1), (10.0, 10)]], &["x", "y", "z", "i"], 1, 1);
    let b = cloud(vec![vec![(2.0, 2), (2.0, 2), (2.0, 2), (20.0, 20)]], &["x", "y", "z", "j"], 1, 1);
    let c = cloud(vec![vec![(3.0, 3), (3.0, 3), (3.0, 3)]], &["x", "y", "z"], 1, 1);
    let merged = PointCloud::merge(vec![a, b, c], vec![(0.0, 0), (1.0, 1), (2.0, 2)]).unwrap();
    assert_eq!(merged.fields_number(), 4);
    assert_eq!(merged.get_field_name(3), "filename");
    assert_eq!(
        fields_of(&merged),
        vec![
            vec![(3.0, 3), (3.0, 3), (3.0, 3), (2.0, 2)],
            vec![(1.0, 1), (1.0, 1), (1.0, 1), (0.0, 0)],
            vec![(2.0, 2), (2.0, 2), (2.0, 2), (1.0, 1)],
        ]
    );
}

#[test]
fn merge_refuses_filename_field() {
    let a = cloud(vec![vec![(1.0, 1); 4]], &["x", "y", "z", "filename"], 1, 1);
    let b = cloud(vec![vec![(1.0, 1); 4]], &["x", "y", "z", "filename"], 1, 1);
    assert!(matches!(
        PointCloud::merge(vec![a, b], vec![(0.0, 0), (1.0, 1)]),
        Err(CloudError::FilenameFieldExists)
    ));
}

#[test]
fn merge_keeps_point_count() {
    let a = cloud(vec![vec![(1.0, 1); 3]; 3], &["x", "y", "z"], 3, 1);
    let b = cloud(vec![vec![(2.0, 2); 3]; 5], &["x", "y", "z"], 5, 1);
    let c = cloud(vec![vec![(3.0, 3); 3]; 2], &["x", "y", "z"], 2, 1);
    let merged = PointCloud::merge(vec![a, b, c], vec![(0.0, 0), (1.0, 1), (2.0, 2)]).unwrap();
    assert_eq!(merged.points().len(), 10);
}

#[test]
fn field_colors_lists_each_point() {
    let pc = cloud(vec![vec![(1.0, 1), (2.0, 2), (3.0, 3)], vec![(4.0, 4), (5.0, 5), (6.0, 6)]], &["x", "y", "z"], 2, 1);
    assert_eq!(pc.field_colors(2), vec![3, 6]);
    assert_eq!(pc.field_colors(0), vec![1, 4]);
}

#[test]
fn image_colors_puts_row_zero_at_the_bottom() {
    // Row 0: points 0, 1; row 1: points 2, 3.
    let pts: Vec<Point<f32, u8>> = (0..4u8).map(|i| point(&[(0.0, i); 3])).collect();
    let pc = PointCloud::new(pts, names(&["x", "y", "z"]), 2, 2).unwrap();
    assert_eq!(pc.image_colors(0), vec![2, 3, 0, 1]);
}

#[test]
fn arrange_point_converts_coordinates() {
    let field_names = names(&["x", "y", "z", "intensity"]);
    let plain = vec![1.0f32, 2.0, 3.0, 4.0];
    let mirrored = vec![-1.0f32, -2.0, -3.0, -4.0];
    assert_eq!(arrange_point(&field_names, &plain, &mirrored, 0.0), vec![-2.0, 3.0, -1.0, 4.0]);
    // Missing coordinates keep the default entry; a repeated name replaces the first.
    let field_names = names(&["a", "z", "b", "z"]);
    assert_eq!(arrange_point(&field_names, &plain, &mirrored, 9.0), vec![9.0, 4.0, 9.0, 1.0, 3.0]);
}

#[test]
fn from_field_rows_builds_points() {
    let field_names = names(&["x", "y", "z", "i"]);
    let plain = vec![vec![(1.0, 1u8), (2.0, 2), (3.0, 3), (4.0, 4)]];
    let mirrored = vec![vec![(-1.0, 1u8), (-2.0, 2), (-3.0, 3), (-4.0, 4)]];
    let pc = PointCloud::from_field_rows(field_names, plain, mirrored, (0.0, 0), 1, 1).unwrap();
    assert_eq!(fields_of(&pc), vec![vec![(-2.0, 2), (3.0, 3), (-1.0, 1), (4.0, 4)]]);
    let bad = PointCloud::<f32, u8>::from_field_rows(names(&["x", "y", "z"]), vec![], vec![], (0.0, 0), 1, 1);
    assert!(matches!(bad, Err(CloudError::SizeMismatch { width: 1, height: 1, len: 0 })));
}

#[test]
fn pcd_layout_places_fields() {
    let file = names(&["intensity", "z", "row", "y", "x", "rgb"]);
    let flat = pcd_layout(&file, false);
    assert_eq!(flat.field_names, names(&["x", "y", "z", "intensity", "rgb"]));
    assert_eq!(
        flat.sources,
        vec![
            FieldSource::Record(4),
            FieldSource::Record(3),
            FieldSource::Record(1),
            FieldSource::Record(0),
            FieldSource::Record(5)
        ]
    );
    let organized = pcd_layout(&file, true);
    assert_eq!(organized.field_names, names(&["x", "y", "z", "row", "column", "intensity", "rgb"]));
    assert_eq!(organized.sources[3], FieldSource::Row);
    assert_eq!(organized.sources[4], FieldSource::Column);
    // Without coordinates in the file, they are read from the first field.
    let bare = pcd_layout(&names(&["a"]), false);
    assert_eq!(bare.sources, vec![FieldSource::Record(0); 4]);
}

#[test]
fn grid_position_inverts_row_first_storage() {
    for index in 0..20u64 {
        let (row, column) = grid_position(index, 6);
        assert!(column < 6);
        assert_eq!(row * 6 + column, index);
    }
}

#[test]
fn pcd_layout_points_have_one_entry_per_field() {
    let file = names(&["rgb", "x", "y", "z", "row", "intensity"]);
    for organized in [false, true] {
        let layout = pcd_layout(&file, organized);
        let n = layout.field_names.len();
        let plain = vec![vec![(1.0f32, 1u8); n]; 4];
        let mirrored = vec![vec![(-1.0f32, 1u8); n]; 4];
        let (width, height) = if organized { (2, 2) } else { (4, 1) };
        let pc = PointCloud::from_field_rows(layout.field_names, plain, mirrored, (0.0, 0), width, height).unwrap();
        for p in pc.points() {
            assert_eq!(p.fields().len(), pc.fields_number());
        }
    }
}

#[test]
fn merge_then_add_field_keeps_entries_per_field() {
    let a = cloud(vec![vec![(1.0, 1); 4]; 2], &["x", "y", "z", "i"], 2, 1);
    let b = cloud(vec![vec![(2.0, 2); 5]; 3], &["x", "y", "z", "i", "j"], 3, 1);
    let mut merged = PointCloud::merge(vec![a, b], vec![(0.0, 0), (1.0, 1)]).unwrap();
    merged.add_field("k".to_string(), 5.0, 5);
    for p in merged.points() {
        assert_eq!(p.fields().len(), merged.fields_number());
    }
    assert_eq!(merged.fields_number(), 5);
}

#[test]
fn merge_is_not_organized() {
    let a = cloud(vec![vec![(1.0, 1); 3]], &["x", "y", "z"], 1, 1);
    let b = cloud(vec![vec![(2.0, 2); 3]], &["x", "y", "z"], 1, 1);
    let merged = PointCloud::merge(vec![a, b], vec![(0.0, 0), (1.0, 1)]).unwrap();
    assert_eq!((merged.width(), merged.height()), (2, 1));
    let c = cloud(vec![vec![(1.0, 1); 3]; 4], &["x", "y", "z"], 2, 2);
    let d = cloud(vec![vec![(2.0, 2); 3]; 6], &["x", "y", "z"], 3, 2);
    let merged = PointCloud::merge(vec![c, d], vec![(0.0, 0), (1.0, 1)]).unwrap();
    assert_eq!((merged.width(), merged.height()), (10, 1));
    assert!(!merged.is_organized());
}

#[test]
fn from_unorganized_rows_uses_one_row() {
    let field_names = names(&["x", "y", "z"]);
    let plain = vec![vec![(1.0, 1u8), (2.0, 2), (3.0, 3)], vec![(4.0, 4u8), (5.0, 5), (6.0, 6)]];
    let mirrored = vec![vec![(-1.0, 1u8), (-2.0, 2), (-3.0, 3)], vec![(-4.0, 4u8), (-5.0, 5), (-6.0, 6)]];
    let pc = PointCloud::from_unorganized_rows(field_names, plain, mirrored, (0.0, 0)).unwrap();
    assert_eq!((pc.width(), pc.height()), (2, 1));
    assert!(!pc.is_organized());
    assert_eq!(fields_of(&pc)[1], vec![(-5.0, 5), (6.0, 6), (-4.0, 4)]);
    let bad = PointCloud::<f32, u8>::from_unorganized_rows(names(&["y", "x", "z"]), vec![], vec![], (0.0, 0));
    assert!(matches!(bad, Err(CloudError::FirstFieldNotX)));
}
