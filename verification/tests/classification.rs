use tinte::classify::{classify, has_low_diversity, hue_distance, is_monochrome, Classification};
use tinte::color::{Hsl, Rgb};

fn hsls_of(colors: &[Rgb]) -> Vec<Hsl> {
    colors.iter().map(|c| c.to_hsl()).collect()
}

#[test]
fn hue_distance_shorter_arc() {
    assert_eq!(hue_distance(100000, 3500000), 200000);
    assert_eq!(hue_distance(3500000, 100000), 200000);
    assert_eq!(hue_distance(0, 1800000), 1800000);
    assert_eq!(hue_distance(500000, 500000), 0);
}

#[test]
fn near_gray_samples_classify_monochrome() {
    // Twenty-four near-gray swatches, saturation below 10%.
    let mut samples: Vec<Rgb> = Vec::new();
    for k in 0..24u16 {
        let v = (26 + 7 * k) as u8;
        samples.push(Rgb::new(v, v, v));
    }
    let hsls = hsls_of(&samples);
    for h in &hsls {
        assert!(h.s < 1000);
    }
    assert!(is_monochrome(&hsls));
    assert_eq!(classify(&hsls), Classification::Monochrome);
}

#[test]
fn clustered_hues_classify_low_diversity() {
    // Single-hue swatches clustered around 210 degrees, lightness 45-55%.
    let degrees = [2000000u32, 2050000, 2100000, 2120000, 2180000, 2150000];
    let lightness = [4500u32, 4800, 5000, 5200, 5500, 4700];
    let samples: Vec<Rgb> = degrees
        .iter()
        .zip(lightness.iter())
        .map(|(&h, &l)| Hsl::new(h, 5000, l).to_rgb())
        .collect();
    let hsls = hsls_of(&samples);
    assert!(!is_monochrome(&hsls));
    assert!(has_low_diversity(&hsls));
    assert_eq!(classify(&hsls), Classification::LowDiversity);
}

#[test]
fn spread_hues_classify_chromatic() {
    let mut samples: Vec<Rgb> = vec![
        Hsl::new(0, 8000, 5000).to_rgb(),
        Hsl::new(1200000, 8000, 5000).to_rgb(),
        Hsl::new(600000, 8000, 5000).to_rgb(),
        Hsl::new(2400000, 8000, 5000).to_rgb(),
        Hsl::new(3000000, 8000, 5000).to_rgb(),
        Hsl::new(1800000, 8000, 5000).to_rgb(),
    ];
    samples.push(Rgb::new(20, 20, 25));
    samples.push(Rgb::new(235, 235, 240));
    let hsls = hsls_of(&samples);
    assert_eq!(classify(&hsls), Classification::Chromatic);
}

#[test]
fn classification_is_exactly_one_label() {
    let lists: Vec<Vec<Rgb>> = vec![
        vec![Rgb::new(10, 10, 10)],
        vec![Rgb::new(255, 0, 0), Rgb::new(254, 1, 0)],
        vec![Rgb::new(255, 0, 0), Rgb::new(0, 255, 0), Rgb::new(0, 0, 255)],
    ];
    for samples in &lists {
        let hsls = hsls_of(samples);
        let label = classify(&hsls);
        let mono = label == Classification::Monochrome;
        let low = label == Classification::LowDiversity;
        let chrom = label == Classification::Chromatic;
        assert_eq!(
            (mono as u8) + (low as u8) + (chrom as u8),
            1,
            "exactly one label for {:?}",
            samples
        );
    }
}

#[test]
fn monochrome_threshold_is_strict() {
    // Exactly 70% grayscale-like is not enough: 7 gray out of 10.
    let mut samples: Vec<Rgb> = Vec::new();
    for k in 0..7u16 {
        let v = (40 + 20 * k) as u8;
        samples.push(Rgb::new(v, v, v));
    }
    samples.push(Hsl::new(0, 8000, 5000).to_rgb());
    samples.push(Hsl::new(1200000, 8000, 5000).to_rgb());
    samples.push(Hsl::new(2400000, 8000, 5000).to_rgb());
    let hsls = hsls_of(&samples);
    assert!(!is_monochrome(&hsls));
    // One more gray tips the fraction above 70%.
    let mut more = samples.clone();
    more.push(Rgb::new(90, 90, 90));
    let hsls11 = hsls_of(&more);
    assert!(is_monochrome(&hsls11));
}

#[test]
fn fewer_than_two_chromatic_samples_is_low_diversity() {
    let samples = vec![Rgb::new(30, 30, 30), Hsl::new(1000000, 8000, 5000).to_rgb()];
    let hsls = hsls_of(&samples);
    assert!(has_low_diversity(&hsls));
}
