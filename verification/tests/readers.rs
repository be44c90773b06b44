use cumulus::csv_table::read_csv_table;
use cumulus::layout::{pcd_layout, FieldSource};
use cumulus::pcd_table::read_pcd_table;
use cumulus::ply_table::read_ply_table;
use cumulus::CloudError;

#[test]
fn csv_table_reads_header_and_rows() {
    let t = read_csv_table(b"x,y,z,intensity\n1,2,3,4\n5,6,7,8\n").unwrap();
    assert_eq!(t.field_names, vec!["x", "y", "z", "intensity"]);
    assert_eq!(t.records, vec![vec!["1", "2", "3", "4"], vec!["5", "6", "7", "8"]]);
}

#[test]
fn csv_table_refuses_ragged_rows() {
    assert!(matches!(read_csv_table(b"x,y,z\n1,2\n"), Err(CloudError::Csv(_))));
}

#[test]
fn csv_table_of_empty_input() {
    let t = read_csv_table(b"").unwrap();
    assert!(t.records.is_empty());
}

const PCD: &str = "# .PCD v0.7 - Point Cloud Data file format
VERSION 0.7
FIELDS x y z intensity
SIZE 4 4 4 4
TYPE F F F F
COUNT 1 1 1 1
WIDTH 2
HEIGHT 1
VIEWPOINT 0 0 0 1 0 0 0
POINTS 2
DATA ascii
1 2 3 4
5 6 7 8
";

#[test]
fn pcd_table_reads_header_and_records() {
    let t = read_pcd_table(PCD.as_bytes()).unwrap();
    assert_eq!((t.width, t.height), (2, 1));
    assert_eq!(t.field_names, vec!["x", "y", "z", "intensity"]);
    assert_eq!(t.records.len(), 2);
    assert_eq!(t.records[1].len(), 4);
    assert!(matches!(t.records[1][3], pcd_rs::Field::F32(ref v) if v[0] == 8.0));
}

#[test]
fn pcd_table_refuses_garbage() {
    assert!(matches!(read_pcd_table(b"not a pcd file"), Err(CloudError::Pcd(_))));
}

const PLY: &str = "ply
format ascii 1.0
element vertex 2
property float x
property float y
property float z
property uchar red
end_header
1 2 3 255
4 5 6 0
";

#[test]
fn ply_table_reads_vertices() {
    let t = read_ply_table(PLY.as_bytes()).unwrap();
    assert_eq!(t.field_names, vec!["x", "y", "z", "red"]);
    assert_eq!(t.rows.len(), 2);
    assert_eq!(t.rows[0].len(), 4);
    assert_eq!(t.rows[1][2], ply_rs_bw::ply::Property::Float(6.0));
    assert_eq!(t.rows[0][3], ply_rs_bw::ply::Property::UChar(255));
}

#[test]
fn ply_table_refuses_missing_vertices() {
    let no_vertex = "ply\nformat ascii 1.0\nelement face 1\nproperty uchar a\nend_header\n1\n";
    assert!(matches!(read_ply_table(no_vertex.as_bytes()), Err(CloudError::NoVertexElement)));
    let empty = "ply\nformat ascii 1.0\nelement vertex 0\nproperty float x\nend_header\n";
    assert!(matches!(read_ply_table(empty.as_bytes()), Err(CloudError::NoPoints)));
    assert!(matches!(read_ply_table(b"garbage"), Err(CloudError::Ply(_))));
}

const COMPRESSED_HEADER: &str = "VERSION 0.7
FIELDS x
SIZE 4
TYPE F
COUNT 1
WIDTH 1
HEIGHT 1
POINTS 1
DATA binary_compressed
";

#[test]
fn pcd_table_refuses_compressed_data_too_small_for_its_points() {
    let mut bytes = COMPRESSED_HEADER.as_bytes().to_vec();
    bytes.extend_from_slice(&[2, 0, 0, 0, 1, 0, 0, 0, 0x00, 0x41]);
    assert!(matches!(read_pcd_table(&bytes), Err(CloudError::PcdUnreadable)));
}

#[test]
fn pcd_table_reads_compressed_data() {
    let mut bytes = COMPRESSED_HEADER.as_bytes().to_vec();
    bytes.extend_from_slice(&[5, 0, 0, 0, 4, 0, 0, 0, 3, 0x00, 0x00, 0x80, 0x3f]);
    let t = read_pcd_table(&bytes).unwrap();
    assert_eq!(t.field_names, vec!["x"]);
    assert_eq!(t.records.len(), 1);
    assert!(matches!(t.records[0][0], pcd_rs::Field::F32(ref v) if v[0] == 1.0));
}

#[test]
fn pcd_table_reports_truncated_compressed_data() {
    let mut bytes = COMPRESSED_HEADER.as_bytes().to_vec();
    bytes.extend_from_slice(&[5, 0, 0, 0, 4, 0, 0, 0, 3, 0x00]);
    assert!(matches!(read_pcd_table(&bytes), Err(CloudError::Pcd(_))));
}

fn pcd_with_fields(fields: &str, record: &str) -> String {
    format!(
        "VERSION 0.7\nFIELDS {fields}\nSIZE 4 4 4 4\nTYPE F F F F\nCOUNT 1 1 1 1\nWIDTH 1\nHEIGHT 1\nPOINTS 1\nDATA ascii\n{record}\n"
    )
}

fn first_point_of(pcd: &str) -> (Vec<String>, Vec<f32>) {
    let t = read_pcd_table(pcd.as_bytes()).unwrap();
    let layout = pcd_layout(&t.field_names, t.height > 1);
    let values = layout
        .sources
        .iter()
        .map(|s| match s {
            FieldSource::Record(i) => match &t.records[0][*i] {
                pcd_rs::Field::F32(v) => v[0],
                _ => panic!("not a float field"),
            },
            _ => panic!("not an organized cloud"),
        })
        .collect();
    (layout.field_names, values)
}

#[test]
fn pcd_coordinate_columns_can_be_exchanged() {
    let a = first_point_of(&pcd_with_fields("x y z intensity", "1 2 3 4"));
    let b = first_point_of(&pcd_with_fields("z x y intensity", "3 1 2 4"));
    assert_eq!(a, b);
    assert_eq!(a.0, vec!["x", "y", "z", "intensity"]);
    assert_eq!(a.1, vec![1.0, 2.0, 3.0, 4.0]);
}

#[test]
fn pcd_table_without_points_ignores_record_size() {
    let pcd = "VERSION 0.7\nFIELDS x\nSIZE 8\nTYPE F\nCOUNT 4611686018427387904\nWIDTH 0\nHEIGHT 1\nPOINTS 0\nDATA ascii\n";
    let t = read_pcd_table(pcd.as_bytes()).unwrap();
    assert!(t.records.is_empty());
    assert!(!t.is_organized());
}

#[test]
fn pcd_table_refuses_huge_records_with_points() {
    let pcd = "VERSION 0.7\nFIELDS x\nSIZE 8\nTYPE F\nCOUNT 4611686018427387904\nWIDTH 1\nHEIGHT 1\nPOINTS 1\nDATA ascii\n1\n";
    assert!(matches!(read_pcd_table(pcd.as_bytes()), Err(CloudError::PcdUnreadable)));
}

#[test]
fn pcd_table_reports_undecodable_records() {
    assert!(matches!(read_pcd_table(pcd_with_fields("x y z i", "1 2 three 4").as_bytes()), Err(CloudError::Pcd(_))));
}

#[test]
fn pcd_table_of_an_organized_cloud() {
    let pcd = "VERSION 0.7\nFIELDS x y z\nSIZE 4 4 4\nTYPE F F F\nWIDTH 1\nHEIGHT 2\nPOINTS 2\nDATA ascii\n1 2 3\n4 5 6\n";
    let t = read_pcd_table(pcd.as_bytes()).unwrap();
    assert!(t.is_organized());
    assert_eq!((t.width, t.height, t.records.len()), (1, 2, 2));
}
