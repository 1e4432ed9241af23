use tinte::color::{Hsl, Rgb};
use tinte::text::ParseError;

#[test]
fn hex_parse_valid_uppercase() {
    assert_eq!(Rgb::from_hex("#ABCDEF"), Ok(Rgb::new(171, 205, 239)));
}

#[test]
fn hex_parse_rejects_non_hex() {
    assert_eq!(Rgb::from_hex("zzzzzz"), Err(ParseError));
}

#[test]
fn hex_parse_without_hash() {
    assert_eq!(Rgb::from_hex("7aa2f7"), Ok(Rgb::new(0x7a, 0xa2, 0xf7)));
}

#[test]
fn hex_parse_rejects_short_input() {
    assert_eq!(Rgb::from_hex("#abc"), Err(ParseError));
    assert_eq!(Rgb::from_hex(""), Err(ParseError));
    assert_eq!(Rgb::from_hex("#"), Err(ParseError));
}

#[test]
fn hex_parse_rejects_double_hash() {
    assert_eq!(Rgb::from_hex("##abcdef"), Err(ParseError));
}

#[test]
fn hex_parse_mixed_case() {
    assert_eq!(Rgb::from_hex("1A2b3C"), Ok(Rgb::new(0x1a, 0x2b, 0x3c)));
}

#[test]
fn hex_format_basic() {
    assert_eq!(Rgb::new(26, 27, 38).to_hex(), "#1a1b26");
    assert_eq!(Rgb::new(26, 27, 38).to_hex_strip(), "1a1b26");
    assert_eq!(Rgb::new(0, 255, 16).to_hex(), "#00ff10");
}

#[test]
fn rgb_string_format() {
    assert_eq!(Rgb::new(26, 27, 38).to_rgb_string(), "26, 27, 38");
    assert_eq!(Rgb::new(0, 7, 255).to_rgb_string(), "0, 7, 255");
}

#[test]
fn hex_round_trip_all_sampled() {
    let mut r: u16 = 0;
    while r < 256 {
        let mut g: u16 = 0;
        while g < 256 {
            let c = Rgb::new(r as u8, g as u8, ((r * 7 + g * 13) % 256) as u8);
            assert_eq!(Rgb::from_hex(&c.to_hex()), Ok(c));
            assert_eq!(Rgb::from_hex(&c.to_hex_strip()), Ok(c));
            g += 7;
        }
        r += 3;
    }
}

#[test]
fn hsl_round_trip_within_one_per_channel() {
    // The fixed-point grid keeps the round trip exact, well within the
    // one-step-per-channel tolerance the conversion promises.
    let mut r: u16 = 0;
    while r < 256 {
        let mut g: u16 = 0;
        while g < 256 {
            let mut b: u16 = 0;
            while b < 256 {
                let c = Rgb::new(r as u8, g as u8, b as u8);
                let back = c.to_hsl().to_rgb();
                assert!((back.r as i32 - c.r as i32).abs() <= 1, "{:?} -> {:?}", c, back);
                assert!((back.g as i32 - c.g as i32).abs() <= 1, "{:?} -> {:?}", c, back);
                assert!((back.b as i32 - c.b as i32).abs() <= 1, "{:?} -> {:?}", c, back);
                assert_eq!(back, c);
                b += 15;
            }
            g += 15;
        }
        r += 15;
    }
}

#[test]
fn hsl_round_trip_gray_exact() {
    let mut v: u16 = 0;
    while v < 256 {
        let c = Rgb::new(v as u8, v as u8, v as u8);
        assert_eq!(c.to_hsl().to_rgb(), c);
        v += 1;
    }
}

#[test]
fn hsl_of_gray_is_achromatic() {
    let hsl = Rgb::new(128, 128, 128).to_hsl();
    assert_eq!(hsl.h, 0);
    assert_eq!(hsl.s, 0);
}

#[test]
fn hsl_of_pure_red() {
    let hsl = Rgb::new(255, 0, 0).to_hsl();
    assert_eq!(hsl.h, 0);
    assert_eq!(hsl.s, 10000);
    assert_eq!(hsl.l, 5000);
}

#[test]
fn hsl_of_seed_blue() {
    let hsl = Rgb::new(0x7a, 0xa2, 0xf7).to_hsl();
    assert_eq!(hsl.h, 2208000);
    assert_eq!(hsl.s, 8865);
    assert_eq!(hsl.l, 7235);
}

#[test]
fn hsl_to_rgb_primary_sectors() {
    assert_eq!(Hsl::new(0, 10000, 5000).to_rgb(), Rgb::new(255, 0, 0));
    assert_eq!(Hsl::new(1200000, 10000, 5000).to_rgb(), Rgb::new(0, 255, 0));
    assert_eq!(Hsl::new(2400000, 10000, 5000).to_rgb(), Rgb::new(0, 0, 255));
    assert_eq!(Hsl::new(600000, 10000, 5000).to_rgb(), Rgb::new(255, 255, 0));
}

#[test]
fn histogram_line_parses_first_hash() {
    assert_eq!(
        tinte::text::parse_histogram_line("  1234: (26,27,38) #1A1B26 srgb(26,27,38)"),
        Some(Rgb::new(0x1a, 0x1b, 0x26))
    );
    assert_eq!(tinte::text::parse_histogram_line("no color here"), None);
    assert_eq!(tinte::text::parse_histogram_line("#abc"), None);
    assert_eq!(tinte::text::parse_histogram_line("trailing #zzzzzz"), None);
}
