use pixel_pipeline::numeric::{factorial_mod, matmul_sum};

#[test]
fn factorial_mod_small_values() {
    assert_eq!(factorial_mod(0), 1);
    assert_eq!(factorial_mod(1), 1);
    assert_eq!(factorial_mod(5), 120);
    assert_eq!(factorial_mod(10), 3628800);
}

#[test]
fn factorial_mod_wraps_at_the_prime() {
    assert_eq!(factorial_mod(20), 146326063);
}

#[test]
fn matmul_sum_small_values() {
    assert_eq!(matmul_sum(0), 0);
    assert_eq!(matmul_sum(1), 0);
    assert_eq!(matmul_sum(2), 10);
    assert_eq!(matmul_sum(3), 126);
    assert_eq!(matmul_sum(5), 2250);
}
