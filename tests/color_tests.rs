use bevy_turborand::prelude::GlobalRng;
use color_combine::color::{color_from_draws, random_color, CircleGroup, Hsla, ALPHA};

#[test]
fn dark_halves_lightness_only() {
    let c = Hsla::hsla(1200, 5000, 7000, 7000);
    assert_eq!(c.dark(), Hsla::hsla(1200, 5000, 3500, 7000));
}

#[test]
fn combine_red_and_blue_exact() {
    let red = Hsla::hsla(0, 10000, 7000, 7000);
    let blue = Hsla::hsla(2400, 10000, 7000, 7000);
    let g = CircleGroup::from_colors(red, blue);
    assert_eq!(g.combined_color, Hsla::hsla(2400, 20000, 7000, 14000));
    assert_eq!(g.individual_colors, (red, blue));
}

#[test]
fn combine_is_deterministic() {
    let red = Hsla::hsla(0, 10000, 7000, 7000);
    let blue = Hsla::hsla(2400, 10000, 7000, 7000);
    let first = CircleGroup::from_colors(red, blue);
    let second = CircleGroup::from_colors(red, blue);
    assert_eq!(first.combined_color, second.combined_color);
}

#[test]
fn combine_keeps_order_of_members() {
    let a = Hsla::hsla(100, 2000, 6000, 7000);
    let b = Hsla::hsla(300, 4000, 8000, 7000);
    let ab = CircleGroup::from_colors(a, b);
    let ba = CircleGroup::from_colors(b, a);
    assert_eq!(ab.combined_color, Hsla::hsla(400, 6000, 7000, 14000));
    assert_eq!(ab.combined_color, ba.combined_color);
    assert_eq!(ba.individual_colors, (b, a));
}

#[test]
fn color_from_draws_scales_channels() {
    let c = color_from_draws(1234, 456, 789);
    assert_eq!(c, Hsla::hsla(1234, 4560, 7890, ALPHA));
}

#[test]
fn random_colors_stay_in_band() {
    let mut rng = GlobalRng::with_seed(7);
    let mut hues = Vec::new();
    for _ in 0..500 {
        let c = random_color(&mut rng);
        assert!(c.hue < 3600);
        assert!(2000 <= c.saturation && c.saturation < 9000);
        assert!(6000 <= c.lightness && c.lightness < 9000);
        assert_eq!(c.alpha, 7000);
        assert_eq!(c.lightness % 10, 0);
        assert_eq!(c.saturation % 10, 0);
        hues.push(c.hue);
    }
    hues.sort();
    hues.dedup();
    assert!(hues.len() > 1);
}
