use pixel_pipeline::color::{blend_edges, final_blend_with_base, grayscale};
use pixel_pipeline::convolve::{box_blur, gaussian_blur};
use pixel_pipeline::edges::{isqrt, nonlinear_edges, sobel_edges};
use pixel_pipeline::geometry::{resize_nearest, wave_distortion, wave_offset};
use pixel_pipeline::grid::{get_pixel, luma_byte};
use pixel_pipeline::tone::{intensity_hash_pass, pixel_hash_mix};

fn uniform(w: usize, h: usize, px: [u8; 4]) -> Vec<u8> {
    let mut v = Vec::new();
    for _ in 0..w * h {
        v.extend_from_slice(&px);
    }
    v
}

#[test]
fn grayscale_truncates_the_luma() {
    // 0.299 * 200 + 0.587 * 100 + 0.114 * 50 = 124.2, truncated to 124.
    let out = grayscale(&vec![200, 100, 50, 7]);
    assert_eq!(out, vec![124, 124, 124, 7]);
}

#[test]
fn grayscale_fixes_gray_pixels() {
    for c in [0u8, 1, 37, 61, 122, 186, 254, 255] {
        let out = grayscale(&vec![c, c, c, 9]);
        assert_eq!(out, vec![c, c, c, 9]);
    }
}

#[test]
fn luma_byte_matches_formula() {
    assert_eq!(luma_byte(200, 100, 50), 124);
    assert_eq!(luma_byte(255, 255, 255), 255);
    assert_eq!(luma_byte(0, 0, 0), 0);
}

#[test]
fn box_blur_uniform_image_unchanged() {
    let img = uniform(3, 3, [13, 77, 200, 255]);
    let out = box_blur(&img, 3, 3);
    assert_eq!(out, img);
}

#[test]
fn gaussian_blur_uniform_image_unchanged() {
    let img = uniform(4, 2, [90, 1, 255, 8]);
    let out = gaussian_blur(&img, 4, 2);
    assert_eq!(out, img);
}

#[test]
fn box_blur_averages_the_neighborhood() {
    // A lone white pixel in a 3x3 black image: the center output is the
    // mean of the nine clamped samples.
    let mut img = uniform(3, 3, [0, 0, 0, 0]);
    img[4 * 4] = 90; // red channel of the center pixel
    let out = box_blur(&img, 3, 3);
    // center: sum 90, / 9 = 10
    assert_eq!(out[4 * 4], 10);
    // corner (0,0): clamped neighborhood holds the center once: 90 / 9 = 10
    assert_eq!(out[0], 10);
}

#[test]
fn resize_round_trip_stays_in_downsampled_palette() {
    let input: Vec<u8> = (0..64).map(|i| (i * 4) as u8).collect();
    let down = resize_nearest(&input, 4, 4, 2, 2);
    let up = resize_nearest(&down, 2, 2, 4, 4);
    assert_eq!(up.len(), 64);
    let palette: Vec<&[u8]> = down.chunks(4).collect();
    for px in up.chunks(4) {
        assert!(palette.iter().any(|p| *p == px));
    }
    // and the downsampled pixels are themselves source pixels
    let source: Vec<&[u8]> = input.chunks(4).collect();
    for px in down.chunks(4) {
        assert!(source.iter().any(|p| *p == px));
    }
}

#[test]
fn resize_same_size_is_identity() {
    let input: Vec<u8> = (0..16).collect();
    let out = resize_nearest(&input, 2, 2, 2, 2);
    assert_eq!(out, input);
}

#[test]
fn resize_picks_floor_coordinates() {
    // 2x1 -> 4x1: output x maps to source x * 2 / 4 = x / 2.
    let input = vec![1, 2, 3, 4, 5, 6, 7, 8];
    let out = resize_nearest(&input, 2, 1, 4, 1);
    assert_eq!(out, vec![1, 2, 3, 4, 1, 2, 3, 4, 5, 6, 7, 8, 5, 6, 7, 8]);
}

#[test]
fn wave_offsets_follow_the_sine_table() {
    assert_eq!(wave_offset(0), 0);
    assert_eq!(wave_offset(2), 1);
    assert_eq!(wave_offset(20), 10);
    assert_eq!(wave_offset(40), 0);
    assert_eq!(wave_offset(60), -10);
    assert_eq!(wave_offset(79), 0);
    // exact periodicity
    assert_eq!(wave_offset(100), wave_offset(20));
    assert_eq!(wave_offset(803), wave_offset(3));
}

#[test]
fn wave_on_uniform_image_unchanged() {
    let img = uniform(3, 3, [5, 6, 7, 8]);
    let out = wave_distortion(&img, 3, 3);
    assert_eq!(out, img);
}

#[test]
fn wave_shifts_rows_with_clamping() {
    // 2 wide, 3 tall; rows 0..2 have offsets 0, 0, 1.
    let img = vec![
        1, 0, 0, 0, 2, 0, 0, 0, //
        3, 0, 0, 0, 4, 0, 0, 0, //
        5, 0, 0, 0, 6, 0, 0, 0,
    ];
    let out = wave_distortion(&img, 2, 3);
    // row 2 shifts right by 1: x=0 reads source x=1, x=1 clamps to x=1.
    assert_eq!(out[2 * 2 * 4], 6);
    assert_eq!(out[2 * 2 * 4 + 4], 6);
    // rows 0 and 1 are unchanged
    assert_eq!(&out[..16], &img[..16]);
}

#[test]
fn sobel_uniform_image_is_flat_zero_with_opaque_alpha() {
    let img = uniform(3, 3, [200, 13, 77, 4]);
    let out = sobel_edges(&img, 3, 3);
    for px in out.chunks(4) {
        assert_eq!(px, &[0, 0, 0, 255]);
    }
}

#[test]
fn sobel_vertical_step_has_horizontal_gradient() {
    // 4 wide, 1 tall: black then white; luma jumps 0 -> 255.
    let img = vec![
        0, 0, 0, 255, 0, 0, 0, 255, //
        255, 255, 255, 255, 255, 255, 255, 255,
    ];
    let out = sobel_edges(&img, 4, 1);
    // gradient row: pixels adjacent to the step saturate at 255
    assert_eq!(out[4 * 1], 255);
    assert_eq!(out[4 * 2], 255);
    // far ends see a uniform clamped neighborhood
    assert_eq!(out[0], 0);
    assert_eq!(out[4 * 3], 0);
    for px in out.chunks(4) {
        assert_eq!(px[3], 255);
    }
}

#[test]
fn isqrt_floors_the_square_root() {
    assert_eq!(isqrt(0), 0);
    assert_eq!(isqrt(1), 1);
    assert_eq!(isqrt(2), 1);
    assert_eq!(isqrt(3), 1);
    assert_eq!(isqrt(4), 2);
    assert_eq!(isqrt(65025), 255);
    assert_eq!(isqrt(65026), 255);
    assert_eq!(isqrt(2080800), 1442);
}

#[test]
fn nonlinear_edges_saturate_every_nonzero_red() {
    let img = vec![
        0, 5, 9, 7, //
        1, 2, 3, 4, //
        255, 0, 0, 200,
    ];
    let out = nonlinear_edges(&img);
    let expected = vec![
        0, 0, 0, 7, //
        255, 255, 255, 4, //
        255, 255, 255, 200,
    ];
    assert_eq!(out, expected);
}

#[test]
fn blend_edges_uses_seven_and_eight_tenths() {
    let base = vec![10, 20, 30, 40];
    let edges = vec![100, 0, 200, 9];
    let out = blend_edges(&base, &edges);
    // (7*10 + 8*100)/10 = 87, (7*20)/10 = 14, (7*30 + 8*200)/10 = 181
    assert_eq!(out, vec![87, 14, 181, 40]);
}

#[test]
fn blend_edges_saturates_at_255() {
    let base = vec![255, 255, 255, 1];
    let edges = vec![255, 255, 255, 2];
    let out = blend_edges(&base, &edges);
    assert_eq!(out, vec![255, 255, 255, 1]);
}

#[test]
fn final_blend_uses_six_and_four_tenths() {
    let img = vec![100, 100, 100, 50];
    let base = vec![200, 0, 50, 99];
    let out = final_blend_with_base(&img, &base);
    // (6*200 + 4*100)/10 = 160, (0 + 400)/10 = 40, (300 + 400)/10 = 70
    assert_eq!(out, vec![160, 40, 70, 50]);
}

#[test]
fn get_pixel_clamps_to_the_edges() {
    let img = vec![
        1, 2, 3, 4, 5, 6, 7, 8, //
        9, 10, 11, 12, 13, 14, 15, 16,
    ];
    assert_eq!(get_pixel(&img, 2, 2, -5, -9), (1, 2, 3, 4));
    assert_eq!(get_pixel(&img, 2, 2, 10, 0), (5, 6, 7, 8));
    assert_eq!(get_pixel(&img, 2, 2, 0, 10), (9, 10, 11, 12));
    assert_eq!(get_pixel(&img, 2, 2, 7, 7), (13, 14, 15, 16));
    assert_eq!(get_pixel(&img, 2, 2, 1, 0), (5, 6, 7, 8));
}

#[test]
fn hash_mix_is_deterministic() {
    assert_eq!(pixel_hash_mix(0), pixel_hash_mix(0));
    assert_eq!(pixel_hash_mix(0), 114);
    assert_eq!(pixel_hash_mix(1), 166);
    assert_eq!(pixel_hash_mix(999), 239);
    assert_eq!(pixel_hash_mix(999), pixel_hash_mix(999));
}

#[test]
fn tone_remap_scales_by_the_hash_gain() {
    // bucket of (10, 20, 30) is 210, mix 218, gain 346
    let out = intensity_hash_pass(&vec![10, 20, 30, 40]);
    assert_eq!(out, vec![13, 27, 40, 40]);
    // bucket of (200, 100, 50) is 600, mix 193, gain 321
    let out = intensity_hash_pass(&vec![200, 100, 50, 0]);
    assert_eq!(out, vec![251, 125, 62, 0]);
}

#[test]
fn tone_remap_fixes_black() {
    let out = intensity_hash_pass(&uniform(2, 2, [0, 0, 0, 255]));
    assert_eq!(out, uniform(2, 2, [0, 0, 0, 255]));
}
