use image_ffi::blur::{
    blur_kernel, blur_settings, check_blur_args, pixel_taps, progress_percent, BlurError,
    BlurParams, BlurSettings, KernelTap, SourceTap,
};

#[test]
fn settings_follow_the_parameters() {
    assert_eq!(
        blur_settings(Some(BlurParams { radius: 2, iterations: 3 })),
        Ok(BlurSettings { radius: 2, iterations: 3 })
    );
    assert_eq!(blur_settings(None), Err(2));
    assert_eq!(
        blur_settings(Some(BlurParams { radius: u32::MAX, iterations: 1 })),
        Ok(BlurSettings { radius: u32::MAX as isize, iterations: 1 })
    );
}

#[test]
fn zero_radius_or_iterations_is_refused() {
    assert_eq!(check_blur_args(0, 1), Err(BlurError::ZeroRadiusOrIterations));
    assert_eq!(check_blur_args(1, 0), Err(BlurError::ZeroRadiusOrIterations));
    assert_eq!(check_blur_args(1, 1), Ok(()));
    assert_eq!(
        BlurError::ZeroRadiusOrIterations.message(),
        "radius and iterations must be greater than 0"
    );
}

#[test]
fn kernel_of_radius_one_is_a_cross() {
    let k = blur_kernel(1);
    let offsets: Vec<(isize, isize, isize)> = k.iter().map(|t| (t.dx, t.dy, t.dist_sq)).collect();
    assert_eq!(offsets, vec![(0, -1, 1), (-1, 0, 1), (0, 0, 0), (1, 0, 1), (0, 1, 1)]);
}

#[test]
fn kernel_of_radius_two_has_thirteen_taps() {
    let k = blur_kernel(2);
    assert_eq!(k.len(), 13);
    assert_eq!(k[0], KernelTap { dx: 0, dy: -2, dist_sq: 4 });
    assert!(k.iter().all(|t| t.dx * t.dx + t.dy * t.dy <= 4));
}

#[test]
fn kernel_of_radius_zero_is_the_centre() {
    assert_eq!(blur_kernel(0), vec![KernelTap { dx: 0, dy: 0, dist_sq: 0 }]);
    assert_eq!(blur_kernel(-1), vec![]);
}

#[test]
fn corner_pixel_reads_only_inside_pixels() {
    let k = blur_kernel(1);
    let taps = pixel_taps(&k, 0, 0, 3, 3);
    assert_eq!(
        taps,
        vec![
            SourceTap { index: 0, dist_sq: 0 },
            SourceTap { index: 4, dist_sq: 1 },
            SourceTap { index: 12, dist_sq: 1 },
        ]
    );
}

#[test]
fn centre_pixel_reads_all_taps() {
    let k = blur_kernel(1);
    let taps = pixel_taps(&k, 1, 1, 3, 3);
    let indices: Vec<usize> = taps.iter().map(|t| t.index).collect();
    assert_eq!(indices, vec![4, 12, 16, 20, 28]);
}

#[test]
fn progress_is_rounded_down() {
    assert_eq!(progress_percent(0, 3), 33);
    assert_eq!(progress_percent(1, 3), 66);
    assert_eq!(progress_percent(2, 3), 100);
    assert_eq!(progress_percent(0, 1), 100);
}
