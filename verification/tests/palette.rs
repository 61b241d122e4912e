use tga_report::palette::{default_class, ramp, token, tokens};

fn rgb(hex: &str) -> (f64, f64, f64) {
    let n = u32::from_str_radix(hex.trim_start_matches('#'), 16).expect("hex");
    (
        ((n >> 16) & 0xff) as f64 / 255.0,
        ((n >> 8) & 0xff) as f64 / 255.0,
        (n & 0xff) as f64 / 255.0,
    )
}

fn linear(c: f64) -> f64 {
    if c <= 0.04045 {
        c / 12.92
    } else {
        ((c + 0.055) / 1.055).powf(2.4)
    }
}

/// sRGB -> OKLab, Björn Ottosson's matrices.
fn oklab(hex: &str) -> (f64, f64, f64) {
    let (r, g, b) = rgb(hex);
    let (r, g, b) = (linear(r), linear(g), linear(b));
    let l = (0.4122214708 * r + 0.5363325363 * g + 0.0514459929 * b).cbrt();
    let m = (0.2119034982 * r + 0.6806995451 * g + 0.1073969566 * b).cbrt();
    let s = (0.0883024619 * r + 0.2817188376 * g + 0.6299787005 * b).cbrt();
    (
        0.2104542553 * l + 0.7936177850 * m - 0.0040720468 * s,
        1.9779984951 * l - 2.4285922050 * m + 0.4505937099 * s,
        0.0259040371 * l + 0.7827717662 * m - 0.8086757660 * s,
    )
}

fn hue_degrees(hex: &str) -> f64 {
    let (_, a, b) = oklab(hex);
    b.atan2(a).to_degrees().rem_euclid(360.0)
}

fn relative_luminance(hex: &str) -> f64 {
    let (r, g, b) = rgb(hex);
    0.2126 * linear(r) + 0.7152 * linear(g) + 0.0722 * linear(b)
}

fn contrast(a: &str, b: &str) -> f64 {
    let (x, y) = (relative_luminance(a), relative_luminance(b));
    let (hi, lo) = if x > y { (x, y) } else { (y, x) };
    (hi + 0.05) / (lo + 0.05)
}

#[test]
fn the_ramp_passes_all_four_ordinal_checks() {
    let ramp = ramp();
    let surface = token("bg");

    let lightness: Vec<f64> = ramp.iter().map(|c| oklab(c).0).collect();

    let descending = lightness[0] > lightness[lightness.len() - 1];
    for pair in lightness.windows(2) {
        if descending {
            assert!(pair[0] > pair[1], "L is not monotone: {lightness:?}");
        } else {
            assert!(pair[0] < pair[1], "L is not monotone: {lightness:?}");
        }
    }

    for pair in lightness.windows(2) {
        let delta = (pair[0] - pair[1]).abs();
        assert!(delta >= 0.06, "adjacent dL {delta:.3} is under 0.06");
    }

    let end = contrast(ramp[ramp.len() - 1], surface);
    assert!(end >= 2.0, "end vs surface is {end:.2}:1, under 2:1");
    let start = contrast(ramp[0], surface);
    assert!(
        start >= 2.0,
        "first step vs surface is {start:.2}:1, under 2:1"
    );

    let hues: Vec<f64> = ramp.iter().map(|c| hue_degrees(c)).collect();
    let spread = hues.iter().cloned().fold(f64::MIN, f64::max)
        - hues.iter().cloned().fold(f64::MAX, f64::min);
    assert!(spread <= 12.0, "hue spreads {spread:.1} degrees");
}

#[test]
fn a_token_nobody_defined_is_black_rather_than_a_panic() {
    assert_eq!(token("nosuchtoken"), "#000000");
    assert_eq!(token("accent"), "#ff3347");
}

#[test]
fn every_defined_token_reads_back_its_own_value() {
    for (name, value) in tokens() {
        assert_eq!(token(name), value);
    }
    assert_eq!(tokens().len(), 10);
    assert_eq!(tokens()[0], ("bg", "#0a0a0a"));
    assert_eq!(default_class(), "dark");
}
