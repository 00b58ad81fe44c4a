use image_ffi::mirror::{
    apply_mirror, horizontal_mirror, process_parsed, vertical_mirror, MirrorParams,
};
use image_ffi::validation::{STATUS_INVALID_PARAMS, STATUS_OK};

// Each pixel is four bytes (RGBA)
// Row 0: [Pixel A, Pixel B]
// Row 1: [Pixel C, Pixel D]
fn create_test_image() -> Vec<u8> {
    vec![
        1, 2, 3, 4,       5, 6, 7, 8,
        9, 10, 11, 12,    13, 14, 15, 16,
    ]
}

#[test]
fn test_horizontal_mirror_logic() {
    let mut img = create_test_image();
    horizontal_mirror(&mut img, 2);

    let expected = vec![
        5, 6, 7, 8,       1, 2, 3, 4,
        13, 14, 15, 16,   9, 10, 11, 12,
    ];
    assert_eq!(img, expected);
}

#[test]
fn test_vertical_mirror_logic() {
    let mut img = create_test_image();
    vertical_mirror(&mut img, 2, 2);

    let expected = vec![
        9, 10, 11, 12,    13, 14, 15, 16,
        1, 2, 3, 4,       5, 6, 7, 8,
    ];
    assert_eq!(img, expected);
}

#[test]
fn both_mirrors_turn_the_image_half_way() {
    let mut img = create_test_image();
    let code = process_parsed(&mut img, 2, 2, Some(MirrorParams { horizontal: true, vertical: true }));
    assert_eq!(code, STATUS_OK);
    let expected = vec![
        13, 14, 15, 16,   9, 10, 11, 12,
        5, 6, 7, 8,       1, 2, 3, 4,
    ];
    assert_eq!(img, expected);
}

#[test]
fn unreadable_params_leave_the_image_alone() {
    let mut img = create_test_image();
    let code = process_parsed(&mut img, 2, 2, None);
    assert_eq!(code, STATUS_INVALID_PARAMS);
    assert_eq!(img, create_test_image());
}

#[test]
fn no_mirror_requested_changes_nothing() {
    let mut img = create_test_image();
    let code = process_parsed(&mut img, 2, 2, Some(MirrorParams { horizontal: false, vertical: false }));
    assert_eq!(code, STATUS_OK);
    assert_eq!(img, create_test_image());
}

#[test]
fn horizontal_mirror_twice_is_identity() {
    let start: Vec<u8> = (0..36).collect();
    let mut img = start.clone();
    horizontal_mirror(&mut img, 3);
    assert_ne!(img, start);
    horizontal_mirror(&mut img, 3);
    assert_eq!(img, start);
}

#[test]
fn horizontal_mirror_keeps_middle_pixel_and_trailing_bytes() {
    // One row of three pixels followed by two bytes of an incomplete row.
    let mut img: Vec<u8> = (0..14).collect();
    horizontal_mirror(&mut img, 3);
    assert_eq!(img, vec![8, 9, 10, 11, 4, 5, 6, 7, 0, 1, 2, 3, 12, 13]);
}

#[test]
fn vertical_mirror_keeps_middle_row_of_odd_height() {
    let mut img: Vec<u8> = (0..12).collect();
    vertical_mirror(&mut img, 1, 3);
    assert_eq!(img, vec![8, 9, 10, 11, 4, 5, 6, 7, 0, 1, 2, 3]);
}

#[test]
fn vertical_mirror_with_one_row_changes_nothing() {
    let mut img: Vec<u8> = (0..8).collect();
    vertical_mirror(&mut img, 2, 1);
    assert_eq!(img, (0..8).collect::<Vec<u8>>());
}

#[test]
fn vertical_mirror_leaves_bytes_past_the_image() {
    let mut img: Vec<u8> = (0..10).collect();
    vertical_mirror(&mut img, 1, 2);
    assert_eq!(img, vec![4, 5, 6, 7, 0, 1, 2, 3, 8, 9]);
}

#[test]
fn mirrors_commute() {
    let start: Vec<u8> = (0..24).collect();
    let mut a = start.clone();
    horizontal_mirror(&mut a, 3);
    vertical_mirror(&mut a, 3, 2);
    let mut b = start.clone();
    vertical_mirror(&mut b, 3, 2);
    horizontal_mirror(&mut b, 3);
    assert_eq!(a, b);
}

#[test]
fn apply_mirror_vertical_only() {
    let mut img = create_test_image();
    apply_mirror(&mut img, 2, 2, MirrorParams { horizontal: false, vertical: true });
    assert_eq!(img, vec![9, 10, 11, 12, 13, 14, 15, 16, 1, 2, 3, 4, 5, 6, 7, 8]);
}

#[test]
fn vertical_mirror_twice_is_identity() {
    let start: Vec<u8> = (0..48).collect();
    let mut img = start.clone();
    vertical_mirror(&mut img, 3, 4);
    assert_ne!(img, start);
    vertical_mirror(&mut img, 3, 4);
    assert_eq!(img, start);
}
