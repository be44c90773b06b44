use cumulus::controls::{next_color_field, toggle_cursor_grab, toggle_image_view, GrabMode};
use cumulus::format::CloudFormat;
use cumulus::CloudError;

#[test]
fn color_field_cycles() {
    assert_eq!(next_color_field(0, 4, true), 1);
    assert_eq!(next_color_field(3, 4, true), 0);
    assert_eq!(next_color_field(0, 4, false), 3);
    assert_eq!(next_color_field(2, 4, false), 1);
    // A field past the end wraps as the modulo does.
    assert_eq!(next_color_field(9, 4, true), 2);
    assert_eq!(next_color_field(usize::MAX, 3, true), 1);
}

#[test]
fn color_field_round_trip() {
    for n in 1..6usize {
        for c in 0..n {
            assert_eq!(next_color_field(next_color_field(c, n, true), n, false), c);
            assert_eq!(next_color_field(next_color_field(c, n, false), n, true), c);
            let mut f = c;
            for _ in 0..n {
                f = next_color_field(f, n, true);
            }
            assert_eq!(f, c);
        }
    }
}

#[test]
fn cursor_grab_toggles() {
    assert_eq!(toggle_cursor_grab(GrabMode::Free), (GrabMode::Confined, false));
    assert_eq!(toggle_cursor_grab(GrabMode::Confined), (GrabMode::Free, true));
    assert_eq!(toggle_cursor_grab(GrabMode::Locked), (GrabMode::Free, true));
    let (mode, _) = toggle_cursor_grab(GrabMode::Free);
    assert_eq!(toggle_cursor_grab(mode), (GrabMode::Free, true));
}

#[test]
fn image_view_toggles() {
    assert_eq!(toggle_image_view(true, false), (false, true, true));
    assert_eq!(toggle_image_view(false, true), (true, false, false));
    let (f, i, _) = toggle_image_view(true, false);
    assert_eq!(toggle_image_view(f, i), (true, false, false));
}

#[test]
fn formats_by_extension() {
    assert_eq!(CloudFormat::from_extension("pcd").unwrap(), CloudFormat::Pcd);
    assert_eq!(CloudFormat::from_extension("ply").unwrap(), CloudFormat::Ply);
    assert_eq!(CloudFormat::from_extension("csv").unwrap(), CloudFormat::Csv);
    match CloudFormat::from_extension("las") {
        Err(CloudError::UnsupportedFormat(e)) => assert_eq!(e, "las"),
        _ => panic!("expected an unsupported format"),
    }
    assert!(matches!(CloudFormat::from_extension("PCD"), Err(CloudError::UnsupportedFormat(_))));
}
