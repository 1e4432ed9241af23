use tinte::color::{Hsl, Rgb};
use tinte::seed::generate_from_color;
use tinte::synth::{extract_palette, make_bright, normalize_brightness};

#[test]
fn empty_samples_yield_default_palette() {
    let p = extract_palette(&Vec::new(), false);
    assert_eq!(p.colors.len(), 16);
    assert_eq!(p.background(), Rgb::new(0x1a, 0x1b, 0x26));
    assert_eq!(p.colors[4], Rgb::new(0x7a, 0xa2, 0xf7));
    assert_eq!(p.foreground(), Rgb::new(0xc0, 0xca, 0xf5));
}

#[test]
fn synthesis_is_deterministic() {
    let samples = vec![
        Hsl::new(0, 8000, 5000).to_rgb(),
        Hsl::new(1200000, 8000, 5000).to_rgb(),
        Hsl::new(2400000, 8000, 5000).to_rgb(),
        Rgb::new(20, 20, 25),
        Rgb::new(235, 235, 240),
    ];
    let p1 = extract_palette(&samples, false);
    let p2 = extract_palette(&samples, false);
    assert_eq!(p1, p2);
    let q1 = extract_palette(&samples, true);
    let q2 = extract_palette(&samples, true);
    assert_eq!(q1, q2);
}

#[test]
fn every_strategy_fills_sixteen_slots() {
    let gray: Vec<Rgb> = (0..24u16).map(|k| {
        let v = (20 + 9 * k) as u8;
        Rgb::new(v, v, v)
    }).collect();
    let clustered: Vec<Rgb> = (0..6u32)
        .map(|k| Hsl::new(2000000 + 30000 * k, 5000, 4800 + 40 * k).to_rgb())
        .collect();
    let spread = vec![
        Hsl::new(0, 8000, 5000).to_rgb(),
        Hsl::new(1200000, 8000, 5000).to_rgb(),
        Hsl::new(600000, 8000, 5000).to_rgb(),
        Hsl::new(2400000, 8000, 5000).to_rgb(),
        Hsl::new(3000000, 8000, 5000).to_rgb(),
        Hsl::new(1800000, 8000, 5000).to_rgb(),
        Rgb::new(20, 20, 25),
        Rgb::new(235, 235, 240),
    ];
    for samples in [&gray, &clustered, &spread] {
        for light in [false, true] {
            let p = extract_palette(samples, light);
            assert_eq!(p.colors.len(), 16);
        }
    }
}

#[test]
fn chromatic_output_keeps_minimum_contrast() {
    let samples = vec![
        Hsl::new(0, 8000, 5000).to_rgb(),
        Hsl::new(1200000, 8000, 5000).to_rgb(),
        Hsl::new(600000, 8000, 5000).to_rgb(),
        Hsl::new(2400000, 8000, 5000).to_rgb(),
        Hsl::new(3000000, 8000, 5000).to_rgb(),
        Hsl::new(1800000, 8000, 5000).to_rgb(),
        Rgb::new(20, 20, 25),
        Rgb::new(235, 235, 240),
    ];
    for light in [false, true] {
        let p = extract_palette(&samples, light);
        let bg_l = p.background().to_hsl().l as i64;
        let fg_l = p.colors[7].to_hsl().l as i64;
        assert!(
            (fg_l - bg_l).abs() >= 4000,
            "contrast {} in light={}",
            (fg_l - bg_l).abs(),
            light
        );
    }
}

#[test]
fn chromatic_dark_background_is_near_black() {
    let samples = vec![
        Hsl::new(0, 8000, 5000).to_rgb(),
        Hsl::new(1200000, 8000, 5000).to_rgb(),
        Hsl::new(2400000, 8000, 5000).to_rgb(),
        Hsl::new(3000000, 8000, 5000).to_rgb(),
        Rgb::new(20, 20, 25),
        Rgb::new(235, 235, 240),
    ];
    let p = extract_palette(&samples, false);
    let bg_l = p.background().to_hsl().l;
    assert!(bg_l <= 1500, "background lightness {}", bg_l);
}

#[test]
fn monochrome_dark_palette_background_and_contrast() {
    // Near-gray swatches whose darkest sits in the 8-14% band.
    let mut samples: Vec<Rgb> = Vec::new();
    for k in 0..24u16 {
        let v = (26 + 7 * k) as u8;
        samples.push(Rgb::new(v, v, v));
    }
    let p = extract_palette(&samples, false);
    assert_eq!(p.background(), Rgb::new(26, 26, 26));
    let bg_l = p.background().to_hsl().l;
    assert!(800 <= bg_l && bg_l <= 1400, "background lightness {}", bg_l);
    let fg_l = p.colors[7].to_hsl().l;
    assert!(fg_l >= bg_l + 1500, "foreground {} vs background {}", fg_l, bg_l);
}

#[test]
fn subtle_palette_uses_canonical_hues() {
    let degrees = [2000000u32, 2050000, 2100000, 2120000, 2180000, 2150000];
    let lightness = [4500u32, 4800, 5000, 5200, 5500, 4700];
    let samples: Vec<Rgb> = degrees
        .iter()
        .zip(lightness.iter())
        .map(|(&h, &l)| Hsl::new(h, 5000, l).to_rgb())
        .collect();
    let p = extract_palette(&samples, false);
    // The six base slots sit on the canonical hues at 28% saturation, not
    // on the sampled hue near 210 degrees.
    let expected = [
        Hsl::new(0, 2800, 4000).to_rgb(),
        Hsl::new(1200000, 2800, 4400).to_rgb(),
        Hsl::new(600000, 2800, 4800).to_rgb(),
        Hsl::new(2400000, 2800, 5200).to_rgb(),
        Hsl::new(3000000, 2800, 5600).to_rgb(),
        Hsl::new(1800000, 2800, 6000).to_rgb(),
    ];
    for k in 0..6 {
        assert_eq!(p.colors[1 + k], expected[k], "slot {}", 1 + k);
    }
}

#[test]
fn make_bright_raises_lightness_in_dark_mode() {
    let base = vec![Hsl::new(1200000, 4000, 5000).to_rgb()];
    let bright = make_bright(&base, false);
    assert_eq!(bright.len(), 1);
    let base_l = base[0].to_hsl().l;
    let bright_l = bright[0].to_hsl().l;
    assert!(bright_l > base_l, "bright {} vs base {}", bright_l, base_l);
}

#[test]
fn normalize_raises_dim_accents_on_dark_background() {
    let mut slots = vec![Hsl::new(1200000, 5000, 3000).to_rgb()];
    let bg = Hsl::new(0, 500, 1000).to_rgb();
    normalize_brightness(&mut slots, &bg, false);
    let l = slots[0].to_hsl().l;
    assert!((5400..=5600).contains(&l), "normalized lightness {}", l);
}

#[test]
fn normalize_leaves_bright_accents_alone() {
    let original = Hsl::new(1200000, 5000, 6000).to_rgb();
    let mut slots = vec![original];
    let bg = Hsl::new(0, 500, 1000).to_rgb();
    normalize_brightness(&mut slots, &bg, false);
    assert_eq!(slots[0], original);
}

#[test]
fn seed_palette_dark_mode_layout() {
    let seed = Rgb::from_hex("#7aa2f7").unwrap();
    let p = generate_from_color(seed, false);
    let hsl = seed.to_hsl();
    assert_eq!(hsl.h, 2208000);
    // Background at 8% lightness, low saturation.
    assert_eq!(p.palette.colors[0], Hsl::new(2208000, 1500, 800).to_rgb());
    let bg_l = p.palette.background().to_hsl().l;
    assert!((700..=900).contains(&bg_l), "background lightness {}", bg_l);
    // Foreground at 85% lightness, slots 7 and 15.
    assert_eq!(p.palette.colors[7], Hsl::new(2208000, 1000, 8500).to_rgb());
    assert_eq!(p.palette.colors[15], p.palette.colors[7]);
    // Slot 1 keeps the seed hue; slot 2 is turned by 120 degrees.
    assert_eq!(p.palette.colors[1], Hsl::new(2208000, 6000, 5500).to_rgb());
    assert_eq!(p.palette.colors[2], Hsl::new(3408000, 6000, 5500).to_rgb());
    // Exactly seven named semantic colors come with the palette.
    let semantics = [
        p.accent,
        p.accent_dim,
        p.accent_bright,
        p.secondary,
        p.surface,
        p.on_accent,
        p.on_surface,
    ];
    assert_eq!(semantics.len(), 7);
    assert_eq!(p.on_surface, p.palette.colors[7]);
    assert_eq!(p.accent, Hsl::new(2208000, 8865, 5500).to_rgb());
    assert_eq!(p.secondary, Hsl::new(408000, 4000, 5500).to_rgb());
}

#[test]
fn seed_palette_is_deterministic() {
    let seed = Rgb::new(200, 30, 90);
    for light in [false, true] {
        let p1 = generate_from_color(seed, light);
        let p2 = generate_from_color(seed, light);
        assert_eq!(p1, p2);
        assert_eq!(p1.palette.colors.len(), 16);
    }
}
