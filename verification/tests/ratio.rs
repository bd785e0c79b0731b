use pickpicpack::utils::{parse_custom_ratio, AspectRatio, ImageScaling, RectSize, fit_to_square};

#[test]
fn parse_single_integer() {
    assert_eq!(parse_custom_ratio("1"), (1, 1));
}

#[test]
fn parse_colon_pair() {
    assert_eq!(parse_custom_ratio("4:3"), (4, 3));
}

#[test]
fn parse_space_pair() {
    assert_eq!(parse_custom_ratio("4 3"), (4, 3));
}

#[test]
fn parse_zero_falls_back() {
    assert_eq!(parse_custom_ratio("0"), (2, 1));
}

#[test]
fn parse_unparsable_falls_back() {
    assert_eq!(parse_custom_ratio(""), (2, 1));
    assert_eq!(parse_custom_ratio("abc"), (2, 1));
    assert_eq!(parse_custom_ratio("::"), (2, 1));
}

#[test]
fn parse_zero_pair_falls_back() {
    assert_eq!(parse_custom_ratio("0:0"), (2, 1));
}

#[test]
fn parse_one_sided_zero() {
    assert_eq!(parse_custom_ratio("3:0"), (3, 1));
    assert_eq!(parse_custom_ratio("0:7"), (1, 7));
}

#[test]
fn parse_decimal() {
    assert_eq!(parse_custom_ratio("0.5"), (1, 2));
    assert_eq!(parse_custom_ratio("2.5"), (5, 2));
    assert_eq!(parse_custom_ratio("0.75"), (3, 4));
}

#[test]
fn parse_negative_decimal_uses_absolute_value() {
    assert_eq!(parse_custom_ratio("-0.5"), (1, 2));
}

#[test]
fn parse_reduces_screen_ratio() {
    assert_eq!(parse_custom_ratio("1920:1080"), (16, 9));
}

#[test]
fn parse_caps_at_one_hundred() {
    let (a, b) = parse_custom_ratio("500:1");
    assert!(a <= 100 && b <= 100);
    assert_eq!((a, b), (100, 1));
}

#[test]
fn parse_ignores_extra_numbers() {
    // Only the first two digit runs count.
    assert_eq!(parse_custom_ratio("4.5.6"), (4, 5));
}

#[test]
fn aspect_divisors() {
    assert_eq!(AspectRatio::Square.div(), (1, 1));
    assert_eq!(AspectRatio::FourThree.div(), (3, 4));
    assert_eq!(AspectRatio::ThreeFour.div(), (4, 3));
    assert_eq!(AspectRatio::ThreeTwo.div(), (2, 3));
    assert_eq!(AspectRatio::TwoThree.div(), (3, 2));
    assert_eq!(AspectRatio::SixteenNine.div(), (9, 16));
    assert_eq!(AspectRatio::NineSixteen.div(), (16, 9));
    assert_eq!(AspectRatio::Window(600, 800).div(), (600, 800));
    assert_eq!(AspectRatio::Custom(4, 3).div(), (3, 4));
}

#[test]
fn parse_accepts_ten_digit_parts() {
    // Values up to 2147483647 parse; a ratio that extreme caps at (100, 1).
    assert_eq!(parse_custom_ratio("2000000000:3"), (100, 1));
}

#[test]
fn aspect_default_is_square() {
    assert_eq!(AspectRatio::default(), AspectRatio::Square);
}

#[test]
fn fit_to_square_shrinks_landscape() {
    assert_eq!(fit_to_square(100, 50, 10), (10, 5));
}

#[test]
fn fit_to_square_shrinks_portrait() {
    assert_eq!(fit_to_square(50, 100, 10), (5, 10));
}

#[test]
fn fit_to_square_exact_square() {
    assert_eq!(fit_to_square(77, 77, 32), (32, 32));
}

#[test]
fn scale_presets() {
    let s = RectSize::by_scale_and_ratio(&ImageScaling::OneK, &AspectRatio::Square);
    assert_eq!((s.w, s.h), (1024, 1024));
    let s = RectSize::by_scale_and_ratio(&ImageScaling::OneK, &AspectRatio::FourThree);
    assert_eq!((s.w, s.h), (1024, 768));
    let s = RectSize::by_scale_and_ratio(&ImageScaling::HalfK, &AspectRatio::SixteenNine);
    assert_eq!((s.w, s.h), (512, 288));
    let s = RectSize::by_scale_and_ratio(&ImageScaling::Preview(500), &AspectRatio::SixteenNine);
    assert_eq!((s.w, s.h), (500, 281));
    let s = RectSize::by_scale_and_ratio(&ImageScaling::Actual, &AspectRatio::Square);
    assert_eq!((s.w, s.h), (0, 0));
}

#[test]
fn scale_portrait_ratio_caps_width() {
    // Divisor above one: the preset bounds the height instead.
    let s = RectSize::by_scale_and_ratio(&ImageScaling::TwoK, &AspectRatio::Custom(9, 16));
    assert_eq!((s.w, s.h), (1152, 2048));
}

#[test]
fn fit_screen_scaling() {
    let screen = RectSize::new(1600, 900);
    let s = RectSize::by_scale_and_ratio(&ImageScaling::FitScreen(screen), &AspectRatio::Square);
    assert_eq!((s.w, s.h), (900, 900));
    let s = RectSize::by_scale_and_ratio(
        &ImageScaling::FitScreen(screen),
        &AspectRatio::SixteenNine,
    );
    assert_eq!((s.w, s.h), (1600, 900));
}
