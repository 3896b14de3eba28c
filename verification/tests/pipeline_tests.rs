use pixel_pipeline::pipeline::process;

fn black_2x2() -> Vec<u8> {
    vec![
        0, 0, 0, 255, //
        0, 0, 0, 255, //
        0, 0, 0, 255, //
        0, 0, 0, 255,
    ]
}

#[test]
fn mismatched_length_returns_input_unchanged() {
    let out = process(2, 2, vec![1, 2, 3]);
    assert_eq!(out, vec![1, 2, 3]);
    let out = process(3, 3, vec![9; 16]);
    assert_eq!(out, vec![9; 16]);
    let out = process(0, 7, vec![1, 2, 3, 4]);
    assert_eq!(out, vec![1, 2, 3, 4]);
}

#[test]
fn valid_input_output_length_matches() {
    let input: Vec<u8> = (0u8..16).collect();
    let out = process(2, 2, input.clone());
    assert_eq!(out.len(), input.len());
}

#[test]
fn all_black_2x2_is_a_fixed_point() {
    let out = process(2, 2, black_2x2());
    assert_eq!(out, black_2x2());
    for chunk in out.chunks(4) {
        assert_eq!(chunk[0], 0);
        assert_eq!(chunk[1], 0);
        assert_eq!(chunk[2], 0);
        assert_eq!(chunk[3], 255);
    }
}

#[test]
fn golden_2x2() {
    let input = vec![
        10, 20, 30, 40, //
        50, 60, 70, 80, //
        90, 100, 110, 120, //
        200, 210, 220, 230,
    ];
    let out = process(2, 2, input);
    let expected = vec![
        56, 56, 56, 101, //
        56, 56, 56, 101, //
        56, 56, 56, 101, //
        56, 56, 56, 101,
    ];
    assert_eq!(out, expected);
}

#[test]
fn golden_1x1() {
    let out = process(1, 1, vec![10, 20, 30, 40]);
    assert_eq!(out, vec![11, 11, 11, 40]);
}

#[test]
fn golden_3x1() {
    let input = vec![
        10, 20, 30, 40, //
        50, 60, 70, 80, //
        90, 100, 110, 120,
    ];
    let out = process(3, 1, input);
    let expected = vec![
        25, 25, 25, 59, //
        25, 25, 25, 59, //
        25, 25, 25, 59,
    ];
    assert_eq!(out, expected);
}

#[test]
fn golden_4x4() {
    let input: Vec<u8> = (0..64).map(|i| ((7 * i + 13) % 256) as u8).collect();
    let out = process(4, 4, input);
    let expected = vec![
        106, 106, 106, 82, 138, 138, 138, 82, 155, 155, 155, 122, 125, 125, 125, 122, //
        106, 106, 106, 82, 138, 138, 138, 82, 155, 155, 155, 122, 125, 125, 125, 122, //
        135, 135, 135, 91, 164, 164, 164, 131, 164, 164, 164, 131, 134, 134, 134, 131, //
        133, 133, 133, 131, 164, 164, 164, 131, 164, 164, 164, 131, 134, 134, 134, 131,
    ];
    assert_eq!(out, expected);
}

#[test]
fn output_channels_always_in_range() {
    // u8 makes this structural; the golden runs above pin the exact values,
    // this run just exercises a larger buffer end to end.
    let input: Vec<u8> = (0..5 * 7 * 4).map(|i| (i * 31 % 256) as u8).collect();
    let out = process(5, 7, input.clone());
    assert_eq!(out.len(), input.len());
}
