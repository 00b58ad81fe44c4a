use image_ffi::loader::{
    c_params_len, call_status, check_image_params, plugin_library_name, prepare_call, ProcessError,
};
use image_ffi::validation::{expected_rgba_len, validate_input};

#[test]
fn validate_input_accepts_a_well_formed_call() {
    assert!(validate_input(3, 3, false, 36, false, 30));
}

#[test]
fn validate_input_rejects_zero_dimensions() {
    assert!(!validate_input(0, 3, false, 36, false, 30));
    assert!(!validate_input(3, 0, false, 36, false, 30));
    assert!(!validate_input(0, 0, false, 0, false, 30));
}

#[test]
fn validate_input_rejects_wrong_buffer_length() {
    assert!(!validate_input(3, 3, false, 35, false, 30));
    assert!(!validate_input(2, 2, false, 15, false, 30));
}

#[test]
fn validate_input_rejects_null_buffers_and_empty_params() {
    assert!(!validate_input(3, 3, true, 36, false, 30));
    assert!(!validate_input(3, 3, false, 36, true, 30));
    assert!(!validate_input(3, 3, false, 36, false, 0));
}

#[test]
fn expected_length_is_width_times_height_times_four() {
    assert_eq!(expected_rgba_len(3, 3), Some(36));
    assert_eq!(expected_rgba_len(1920, 1080), Some(1920 * 1080 * 4));
    assert_eq!(expected_rgba_len(0, 7), Some(0));
}

#[test]
fn check_image_params_reports_each_problem() {
    let buf = vec![0u8; 16];
    assert_eq!(check_image_params(2, 2, &buf), Ok(()));
    assert_eq!(
        check_image_params(0, 2, &buf),
        Err(ProcessError::Validation("width and height must be greater than 0".to_string()))
    );
    assert_eq!(
        check_image_params(2, 3, &buf),
        Err(ProcessError::Validation("invalid RGBA buffer length".to_string()))
    );
}

#[test]
fn c_params_len_counts_bytes() {
    assert_eq!(c_params_len("{\"horizontal\": true}"), Ok(20));
    assert_eq!(c_params_len("é"), Ok(2));
}

#[test]
fn c_params_len_finds_the_first_nul() {
    assert_eq!(c_params_len("ab\0c\0"), Err(ProcessError::ParamsFormatError(2)));
}

#[test]
fn call_status_maps_non_zero_codes() {
    assert_eq!(call_status(0), Ok(()));
    assert_eq!(call_status(2), Err(ProcessError::ImageProcessing(2)));
    assert_eq!(call_status(-1), Err(ProcessError::ImageProcessing(-1)));
}

#[test]
fn plugin_library_name_wraps_the_stem() {
    let name = plugin_library_name("mirror");
    assert!(name.contains("mirror_plugin"));
    assert_ne!(name, "mirror_plugin");
    let blur = plugin_library_name("blur");
    let prefix = &name[..name.find("mirror_plugin").unwrap()];
    assert!(blur.starts_with(prefix));
    assert!(blur.contains("blur_plugin"));
}

#[test]
fn oversized_images_are_refused() {
    let buf = vec![0u8; 4];
    if usize::BITS == 64 {
        assert_eq!(expected_rgba_len(u32::MAX, u32::MAX), None);
        assert!(!validate_input(u32::MAX, u32::MAX, false, 4, false, 1));
        assert_eq!(
            check_image_params(u32::MAX, u32::MAX, &buf),
            Err(ProcessError::Validation("image size overflow".to_string()))
        );
    }
}

#[test]
fn host_and_plugin_checks_agree() {
    for &(w, h, len) in &[(2u32, 2u32, 16usize), (2, 2, 15), (0, 2, 0), (3, 1, 12), (1, 3, 11)] {
        let buf = vec![0u8; len];
        assert_eq!(check_image_params(w, h, &buf).is_ok(), validate_input(w, h, false, len, false, 5));
    }
}

#[test]
fn prepare_call_checks_shape_before_params() {
    let buf = vec![0u8; 16];
    assert_eq!(prepare_call(2, 2, &buf, "{}"), Ok(2));
    assert_eq!(
        prepare_call(2, 3, &buf, "a\0"),
        Err(ProcessError::Validation("invalid RGBA buffer length".to_string()))
    );
    assert_eq!(prepare_call(2, 2, &buf, "a\0"), Err(ProcessError::ParamsFormatError(1)));
}
