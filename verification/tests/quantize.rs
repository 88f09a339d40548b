use image_match::quantize::{collapse, compute_diff, compute_signature, get_median, get_thresholds};

#[test]
fn small_differences_count_as_same() {
    assert_eq!(compute_diff(10, 10), 0);
    assert_eq!(compute_diff(10, 12), 0);
    assert_eq!(compute_diff(12, 10), 0);
    assert_eq!(compute_diff(10, 13), -3);
    assert_eq!(compute_diff(13, 10), 3);
    assert_eq!(compute_diff(255, 0), 255);
    assert_eq!(compute_diff(0, 255), -255);
    assert_eq!(compute_diff(0, 2), 0);
    assert_eq!(compute_diff(0, 3), -3);
}

#[test]
fn collapse_splits_each_side_at_its_threshold() {
    assert_eq!(collapse(5, 5), 2);
    assert_eq!(collapse(4, 5), 1);
    assert_eq!(collapse(6, 5), 2);
    assert_eq!(collapse(-5, -5), -2);
    assert_eq!(collapse(-4, -5), -1);
    assert_eq!(collapse(-6, -5), -2);
    // only magnitudes are compared
    assert_eq!(collapse(-6, 5), -2);
    assert_eq!(collapse(4, -5), 1);
    // a threshold of zero is reached by everything
    assert_eq!(collapse(3, 0), 2);
    assert_eq!(collapse(-3, 0), -2);
    assert_eq!(collapse(0, 0), 0);
    assert_eq!(collapse(0, 4), 0);
    // the ends of the range
    assert_eq!(collapse(i16::MIN, i16::MAX), -2);
    assert_eq!(collapse(i16::MAX, i16::MIN), 1);
    assert_eq!(collapse(i16::MIN, i16::MIN), -2);
}

#[test]
fn median_of_nothing_is_zero() {
    assert_eq!(get_median(Vec::new()), 0);
}

#[test]
fn median_of_an_odd_count_is_the_middle() {
    assert_eq!(get_median(vec![5]), 5);
    assert_eq!(get_median(vec![9, 1, 5]), 5);
    assert_eq!(get_median(vec![3, 3, 1, 200, -7]), 3);
}

#[test]
fn median_of_an_even_count_rounds_the_mean_towards_zero() {
    assert_eq!(get_median(vec![1, 2]), 1);
    assert_eq!(get_median(vec![-1, -2]), -1);
    assert_eq!(get_median(vec![3, 4]), 3);
    assert_eq!(get_median(vec![-3, -4]), -3);
    assert_eq!(get_median(vec![-10, -3, -7, -4]), -5);
    assert_eq!(get_median(vec![4, 4, 4, 100]), 4);
    assert_eq!(get_median(vec![-255, 255]), 0);
    assert_eq!(get_median(vec![-1, 2]), 0);
    assert_eq!(get_median(vec![-2, 1]), 0);
}

#[test]
fn median_at_the_ends_of_the_range() {
    assert_eq!(get_median(vec![i16::MAX, i16::MAX]), i16::MAX);
    assert_eq!(get_median(vec![i16::MIN, i16::MIN]), i16::MIN);
    assert_eq!(get_median(vec![i16::MAX, i16::MIN]), 0);
}

#[test]
fn median_sorts_a_long_shuffled_input() {
    // 0, 37, 74, .. modulo 1001 visits every residue once
    let values: Vec<i16> = (0..1001i32).map(|i| ((i * 37) % 1001 - 500) as i16).collect();
    assert_eq!(get_median(values), 0);
    let values: Vec<i16> = (0..1000i32).map(|i| ((i * 37) % 1000) as i16).collect();
    assert_eq!(get_median(values), 499);
}

#[test]
fn thresholds_are_the_medians_of_each_side() {
    let raw = vec![vec![0, -3, 0], vec![0, -38, 0, 0, 3], vec![38, 40, 41], vec![], vec![-9, 0]];
    // dark: -38, -9, -3; light: 3, 38, 40, 41
    assert_eq!(get_thresholds(&raw), (-9, 39));
    let none: Vec<Vec<i16>> = vec![vec![0, 0], vec![0]];
    assert_eq!(get_thresholds(&none), (0, 0));
    let empty: Vec<Vec<i16>> = Vec::new();
    assert_eq!(get_thresholds(&empty), (0, 0));
    let one_side = vec![vec![5, 1, 9]];
    assert_eq!(get_thresholds(&one_side), (0, 5));
}

#[test]
fn signature_of_a_two_by_two_lattice() {
    let averages = vec![vec![10u8, 20], vec![30, 60]];
    assert_eq!(
        compute_signature(&averages, 3),
        vec![-1i8, -1, -2, 1, -1, -2, 1, 1, -2, 2, 2, 2]
    );
}

#[test]
fn signature_of_a_three_by_three_lattice() {
    let averages = vec![vec![10u8, 12, 50], vec![13, 10, 9], vec![200, 0, 10]];
    let expected: Vec<i8> = vec![
        0, -1, 0, 0, -2, 0, 0, 1, 2, 2, 2, 1, 0, 1, -2, 2, 0, 0, -2, -1, 0, -2, 1, 0, -1, -2,
        0, 1, 0, 2, 2, 2, -2, -1, -1, -2, -1, 0, 0, 1,
    ];
    assert_eq!(compute_signature(&averages, 4), expected);
}

#[test]
fn single_point_has_no_neighbours() {
    let averages = vec![vec![77u8]];
    assert_eq!(compute_signature(&averages, 2), Vec::<i8>::new());
}

#[test]
fn flat_lattice_has_an_all_zero_signature() {
    let averages = vec![vec![7u8; 4]; 4];
    assert_eq!(compute_signature(&averages, 5), vec![0i8; 84]);
}

#[test]
fn signature_length_follows_the_grid_size() {
    for grid_size in 2..=13usize {
        let n = grid_size - 1;
        let averages: Vec<Vec<u8>> = (0..n)
            .map(|j| (0..n).map(|i| ((i * 31 + j * 17) % 256) as u8).collect())
            .collect();
        let signature = compute_signature(&averages, grid_size);
        let expected = 8 * (n * n) as i64 - 12 * (grid_size as i64 - 3) - 20;
        assert_eq!(signature.len() as i64, expected);
        for label in signature.iter() {
            assert!(-2 <= *label && *label <= 2);
        }
    }
}

#[test]
fn missing_neighbours_are_left_out_not_padded() {
    // the four corners of a 3 x 3 lattice have three neighbours each, the
    // four other rim points five, the centre eight
    let averages = vec![vec![0u8, 100, 0], vec![100, 0, 100], vec![0, 100, 0]];
    let signature = compute_signature(&averages, 4);
    assert_eq!(signature.len(), 4 * 3 + 4 * 5 + 8);
    // first corner: neighbours right, below, below right
    assert_eq!(&signature[0..3], &[-2i8, -2, 0]);
}
