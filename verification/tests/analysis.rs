use color_analysis::base::{calculate_aspect_ratio, calculate_average_luminance, format_file_size};
use color_analysis::color::{analyze_image_colors, Color};
use color_analysis::kmeans::{dominant_colors_from_indices, find_dominant_colors};
use color_analysis::saturation::calc_saturation;
use color_analysis::{AnalysisError, Ratio};
use rand::rngs::StdRng;
use rand::SeedableRng;

fn as_f64(r: Ratio) -> f64 {
    r.num as f64 / r.den as f64
}

fn red_image() -> Vec<u8> {
    // a 2x2 image of four pixels, each (255, 0, 0, 255)
    vec![
        255, 0, 0, 255, //
        255, 0, 0, 255, //
        255, 0, 0, 255, //
        255, 0, 0, 255,
    ]
}

#[test]
fn red_image_histograms() {
    let a = analyze_image_colors(&red_image()).unwrap();
    let h = a.histograms();
    assert_eq!(h.red.len(), 256);
    assert_eq!(h.red[255], 4);
    for v in 0..255 {
        assert_eq!(h.red[v], 0);
    }
    assert_eq!(h.green[0], 4);
    for v in 1..256 {
        assert_eq!(h.green[v], 0);
    }
    assert_eq!(h.blue[0], 4);
    for v in 1..256 {
        assert_eq!(h.blue[v], 0);
    }
}

#[test]
fn red_image_balance_and_grayscale() {
    let a = analyze_image_colors(&red_image()).unwrap();
    let b = a.balance();
    assert_eq!(as_f64(b.red_percentage), 100.0);
    assert_eq!(as_f64(b.green_percentage), 0.0);
    assert_eq!(as_f64(b.blue_percentage), 0.0);
    // 0.299 * 255 = 76.245 on the 0-255 scale, exactly
    let g = a.grayscale_average();
    assert_eq!(g.num, 4 * 299 * 255);
    assert_eq!(g.den, 4 * 1000);
    assert!((as_f64(g) - 76.245).abs() < 1e-12);
}

#[test]
fn red_image_saturation_is_one() {
    let s = calc_saturation(&red_image()).unwrap();
    assert_eq!(s.num, s.den);
    assert_eq!(as_f64(s), 1.0);
}

#[test]
fn red_image_dominant_color() {
    let cols = dominant_colors_from_indices(&red_image(), &vec![0], 10).unwrap();
    assert_eq!(cols.len(), 1);
    assert_eq!(cols[0], Color { r: 255, g: 0, b: 0 });
    let mut rng = StdRng::seed_from_u64(7);
    let cols = find_dominant_colors(&red_image(), 1, 10, &mut rng).unwrap();
    assert_eq!(cols, vec![Color { r: 255, g: 0, b: 0 }]);
}

#[test]
fn histogram_buckets_sum_to_pixel_count() {
    let buf: Vec<u8> = vec![
        1, 2, 3, 0, //
        200, 150, 100, 9, //
        200, 2, 3, 0, //
        17, 17, 17, 255, //
        255, 255, 255, 1,
    ];
    let a = analyze_image_colors(&buf).unwrap();
    let h = a.histograms();
    assert_eq!(h.red.iter().map(|&c| c as u64).sum::<u64>(), 5);
    assert_eq!(h.green.iter().map(|&c| c as u64).sum::<u64>(), 5);
    assert_eq!(h.blue.iter().map(|&c| c as u64).sum::<u64>(), 5);
    assert_eq!(h.red[1], 1);
    assert_eq!(h.red[200], 2);
    assert_eq!(h.green[2], 2);
    assert_eq!(h.blue[3], 2);
}

#[test]
fn balance_percentages_sum_to_hundred() {
    let buf: Vec<u8> = vec![
        13, 77, 200, 0, //
        1, 2, 3, 4, //
        250, 0, 9, 8,
    ];
    let a = analyze_image_colors(&buf).unwrap();
    let b = a.balance();
    // exact: the numerators over the shared denominator add up to 100
    assert_eq!(b.red_percentage.den, b.green_percentage.den);
    assert_eq!(b.red_percentage.den, b.blue_percentage.den);
    assert_eq!(
        b.red_percentage.num + b.green_percentage.num + b.blue_percentage.num,
        100 * b.red_percentage.den
    );
    let sum = as_f64(b.red_percentage) + as_f64(b.green_percentage) + as_f64(b.blue_percentage);
    assert!((sum - 100.0).abs() < 1e-6);
}

#[test]
fn saturation_within_unit_interval() {
    let buf: Vec<u8> = vec![
        13, 77, 200, 0, //
        0, 0, 0, 4, //
        255, 255, 255, 8, //
        250, 0, 9, 8,
    ];
    let s = calc_saturation(&buf).unwrap();
    assert!(s.num <= s.den);
    let v = as_f64(s);
    assert!((0.0..=1.0).contains(&v));
}

#[test]
fn gray_image_saturation_is_zero() {
    let buf: Vec<u8> = vec![
        0, 0, 0, 1, //
        17, 17, 17, 200, //
        255, 255, 255, 0,
    ];
    let s = calc_saturation(&buf).unwrap();
    assert_eq!(s.num, 0);
    assert_eq!(as_f64(s), 0.0);
}

#[test]
fn luminance_is_grayscale_over_255() {
    let buf: Vec<u8> = vec![
        13, 77, 200, 0, //
        1, 2, 3, 4, //
        250, 0, 9, 8, //
        255, 255, 255, 255,
    ];
    let lum = calculate_average_luminance(&buf, 2, 2).unwrap();
    let gray = analyze_image_colors(&buf).unwrap().grayscale_average();
    // 255 * luminance == grayscale, as exact rationals (cross-multiplied)
    assert_eq!(255 * lum.num * gray.den, gray.num * lum.den);
    let f = 255.0 * as_f64(lum);
    assert!((f - as_f64(gray)).abs() < 1e-9);
}

#[test]
fn luminance_of_red_image() {
    let lum = calculate_average_luminance(&red_image(), 2, 2).unwrap();
    assert!((as_f64(lum) - 0.299).abs() < 1e-12);
}

#[test]
fn luminance_rejects_wrong_dimensions() {
    let r = calculate_average_luminance(&red_image(), 3, 2);
    assert_eq!(r.unwrap_err(), AnalysisError::InvalidBufferLength);
}

#[test]
fn single_cluster_returns_rounded_mean() {
    // means: r = 280/3 -> 93, g = 50/3 -> 17, b = 75/3 -> 25
    let buf: Vec<u8> = vec![
        10, 20, 30, 0, //
        20, 30, 40, 0, //
        250, 0, 5, 0,
    ];
    let want = Color { r: 93, g: 17, b: 25 };
    for max_iter in [1, 2, 7] {
        for start in [0usize, 1, 2] {
            let cols = dominant_colors_from_indices(&buf, &vec![start], max_iter).unwrap();
            assert_eq!(cols, vec![want]);
        }
    }
}

#[test]
fn clustering_is_deterministic_with_seeded_source() {
    let buf: Vec<u8> = vec![
        10, 20, 30, 0, //
        20, 30, 40, 0, //
        250, 0, 5, 0, //
        0, 200, 200, 0, //
        3, 199, 210, 0, //
        255, 10, 0, 0,
    ];
    let mut rng1 = StdRng::seed_from_u64(12345);
    let mut rng2 = StdRng::seed_from_u64(12345);
    let a = find_dominant_colors(&buf, 3, 10, &mut rng1).unwrap();
    let b = find_dominant_colors(&buf, 3, 10, &mut rng2).unwrap();
    assert_eq!(a, b);
    assert_eq!(a.len(), 3);
}

#[test]
fn two_well_separated_clusters() {
    let mut buf: Vec<u8> = Vec::new();
    for _ in 0..4 {
        buf.extend_from_slice(&[0, 0, 0, 255]);
    }
    for _ in 0..4 {
        buf.extend_from_slice(&[255, 255, 255, 255]);
    }
    let cols = dominant_colors_from_indices(&buf, &vec![0, 4], 20).unwrap();
    assert_eq!(cols, vec![Color { r: 0, g: 0, b: 0 }, Color { r: 255, g: 255, b: 255 }]);
    // duplicated start: the empty-cluster fallback copies centroid 0, and the
    // clusters still separate after a few rounds
    let cols = dominant_colors_from_indices(&buf, &vec![0, 0], 20).unwrap();
    assert_eq!(cols, vec![Color { r: 255, g: 255, b: 255 }, Color { r: 0, g: 0, b: 0 }]);
}

#[test]
fn invalid_buffer_length_is_rejected() {
    let buf: Vec<u8> = vec![1, 2, 3, 4, 5];
    assert_eq!(analyze_image_colors(&buf).unwrap_err(), AnalysisError::InvalidBufferLength);
    assert_eq!(calc_saturation(&buf).unwrap_err(), AnalysisError::InvalidBufferLength);
    assert_eq!(
        calculate_average_luminance(&buf, 1, 1).unwrap_err(),
        AnalysisError::InvalidBufferLength
    );
    let mut rng = StdRng::seed_from_u64(0);
    assert_eq!(
        find_dominant_colors(&buf, 1, 5, &mut rng).unwrap_err(),
        AnalysisError::InvalidBufferLength
    );
}

#[test]
fn empty_buffer_is_rejected() {
    let buf: Vec<u8> = Vec::new();
    assert_eq!(analyze_image_colors(&buf).unwrap_err(), AnalysisError::EmptyImage);
    assert_eq!(calc_saturation(&buf).unwrap_err(), AnalysisError::EmptyImage);
    let mut rng = StdRng::seed_from_u64(0);
    assert_eq!(find_dominant_colors(&buf, 1, 5, &mut rng).unwrap_err(), AnalysisError::InvalidK);
    assert_eq!(find_dominant_colors(&buf, 4, 5, &mut rng).unwrap_err(), AnalysisError::InvalidK);
}

#[test]
fn invalid_k_is_rejected() {
    let buf = red_image();
    let mut rng = StdRng::seed_from_u64(0);
    assert_eq!(find_dominant_colors(&buf, 0, 5, &mut rng).unwrap_err(), AnalysisError::InvalidK);
    assert_eq!(find_dominant_colors(&buf, 5, 5, &mut rng).unwrap_err(), AnalysisError::InvalidK);
    assert!(find_dominant_colors(&buf, 4, 5, &mut rng).is_ok());
}

#[test]
fn black_image_balance_is_degenerate() {
    let buf: Vec<u8> = vec![0, 0, 0, 255, 0, 0, 0, 255];
    assert_eq!(analyze_image_colors(&buf).unwrap_err(), AnalysisError::DegenerateBalance);
}

#[test]
fn aspect_ratio_already_reduced() {
    let d = calculate_aspect_ratio(16, 9);
    assert_eq!(d.width, 16);
    assert_eq!(d.height, 9);
}

#[test]
fn aspect_ratio_full_hd() {
    let d = calculate_aspect_ratio(1920, 1080);
    assert_eq!(d.width, 16);
    assert_eq!(d.height, 9);
}

#[test]
fn format_byte_sizes() {
    assert_eq!(format_file_size(2048), "2.00 KB");
    assert_eq!(format_file_size(500), "500.00 B");
    assert_eq!(format_file_size(0), "0.00 B");
    assert_eq!(format_file_size(1536), "1.50 KB");
    assert_eq!(format_file_size(1048575), "1024.00 KB");
    assert_eq!(format_file_size(5242880), "5.00 MB");
    // megabytes are the largest unit
    assert_eq!(format_file_size(3 * 1024 * 1024 * 1024), "3072.00 MB");
}

#[test]
fn format_byte_size_ties_go_to_even() {
    // 1152 / 1024 = 1.125 exactly: the tie rounds down to the even hundredth
    assert_eq!(format_file_size(1152), "1.12 KB");
    // 1408 / 1024 = 1.375 exactly: the tie rounds up to the even hundredth
    assert_eq!(format_file_size(1408), "1.38 KB");
    // 1179648 / 1048576 = 1.125 exactly, in megabytes
    assert_eq!(format_file_size(1179648), "1.12 MB");
    // two-decimal float formatting agrees on these exactly representable values
    assert_eq!(format_file_size(1152), format!("{:.2} KB", 1152.0f64 / 1024.0));
    assert_eq!(format_file_size(1408), format!("{:.2} KB", 1408.0f64 / 1024.0));
}
