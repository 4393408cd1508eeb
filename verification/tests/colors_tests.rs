use mrc_workout_creator::visualization::colors::color_from_hex;
use mrc_workout_creator::visualization::colors::interpolate_colors;
use mrc_workout_creator::visualization::colors::min;
use mrc_workout_creator::visualization::colors::select_color_string_from_gradients;
use mrc_workout_creator::visualization::colors::select_colors_from_gradients;
use mrc_workout_creator::visualization::colors::BlendedColor;
use mrc_workout_creator::visualization::colors::Rgb;
use mrc_workout_creator::workout_data::effort::Effort;
use mrc_workout_creator::workout_data::positive_float::PositiveFloat;

fn pf(hundredths: i64) -> PositiveFloat {
    PositiveFloat::new(hundredths).unwrap()
}

#[test]
fn red() {
    assert_eq!(color_from_hex("#ff0000"), Some(Rgb::from_rgb8(255, 0, 0)));
}

#[test]
fn blue() {
    assert_eq!(color_from_hex("#2e00ff"), Some(Rgb::from_rgb8(46, 0, 255)));
}

#[test]
fn greenish() {
    assert_eq!(color_from_hex("#0df114"), Some(Rgb::from_rgb8(13, 241, 20)));
}

#[test]
fn broken_hex_text_has_no_color() {
    assert_eq!(color_from_hex("#ff00"), None);
    assert_eq!(color_from_hex("ff00000"), None);
    assert_eq!(color_from_hex("#ff000g"), None);
}

#[test]
fn average_wattage() {
    assert_eq!(Effort::new(pf(0), pf(10000), Some(pf(6000))).average_wattage(), 8000);
}

#[test]
fn minimum() {
    assert_eq!(min(100, 200), 100);
}

#[test]
fn interpolate_between_red_and_green() {
    let red_color = Rgb { r: 255, g: 0, b: 0 };
    let green_color = Rgb { r: 0, g: 255, b: 0 };

    assert_eq!(
        interpolate_colors(red_color, green_color),
        BlendedColor { r2: 255, g2: 255, b2: 0 }
    );
}

#[test]
fn select_first_color() {
    assert_eq!(select_color_string_from_gradients(0), ("#0c0af0", "#0c0af0"));
}

#[test]
fn select_first_and_second() {
    assert_eq!(select_color_string_from_gradients(100), ("#0c0af0", "#0d12e7"));
}

#[test]
fn select_last() {
    assert_eq!(select_color_string_from_gradients(50000), ("#fe0000", "#fe0000"));
}

#[test]
fn select_middle() {
    assert_eq!(select_color_string_from_gradients(20100), ("#1d8873", "#1e906b"));
}

#[test]
fn colors_clamp_above_the_maximum() {
    assert_eq!(select_colors_from_gradients(60000), select_colors_from_gradients(50000));
    assert_eq!(
        Effort::new(pf(100), pf(60000), None).to_color(),
        Effort::new(pf(100), pf(50000), None).to_color()
    );
}

#[test]
fn effort_color_is_average_of_bracketing_entries() {
    let effort = Effort::new(pf(100), pf(100), None);
    let (lower, upper) = select_colors_from_gradients(100);
    assert_eq!(
        effort.to_color(),
        BlendedColor {
            r2: lower.r as u16 + upper.r as u16,
            g2: lower.g as u16 + upper.g as u16,
            b2: lower.b as u16 + upper.b as u16
        }
    );
}
