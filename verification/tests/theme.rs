use mechanix::theme::color::{ColorRole, ColorScheme, Rgb};
use mechanix::theme::{
    on_theme_changed, Elevation, FontWeight, Shape, Spacing, TextVariant, Typography,
};

#[test]
fn the_scales_hold_their_documented_values() {
    assert_eq!(Elevation::Level0.value(), 0);
    assert_eq!(Elevation::Level2.value(), 3);
    assert_eq!(Elevation::Level5.value(), 12);
    assert_eq!(Spacing::Space0.value(), 0);
    assert_eq!(Spacing::Space25.value(), 2);
    assert_eq!(Spacing::Space450.value(), 36);
    assert_eq!(Spacing::Space900.value(), 72);
    assert_eq!(FontWeight::Thin.value(), 100);
    assert_eq!(FontWeight::Regular.value(), 400);
    assert_eq!(FontWeight::ExtraBold.value(), 800);
}

#[test]
fn a_shape_has_a_fixed_radius_but_full_follows_the_height() {
    assert_eq!(Shape::default(), Shape::Square);
    assert_eq!(Shape::Square.fixed_radius_dp(), Some(0));
    assert_eq!(Shape::Medium.fixed_radius_dp(), Some(12));
    assert_eq!(Shape::ExtraExtraLarge.fixed_radius_dp(), Some(48));
    assert_eq!(Shape::Full.fixed_radius_dp(), None);
}

#[test]
fn a_role_resolves_to_its_own_field() {
    let light = ColorScheme::baseline_light();
    assert_eq!(ColorRole::Primary.resolve(&light), Rgb(0xff7230));
    assert_eq!(ColorRole::OnPrimary.resolve(&light), Rgb(0x050505));
    assert_eq!(ColorRole::Error.resolve(&light), Rgb(0xff4242));
    assert_eq!(ColorRole::SurfaceTint.resolve(&light), light.surface_tint);
    assert_eq!(ColorScheme::default(), ColorScheme::baseline_dark());
    assert_ne!(ColorScheme::baseline_dark(), light);
}

#[test]
fn a_variant_resolves_to_its_own_style() {
    let t = Typography {
        display_large: 1,
        display_medium: 2,
        display_small: 3,
        headline_large: 4,
        headline_medium: 5,
        headline_small: 6,
        title_large: 7,
        title_medium: 8,
        title_small: 9,
        body_large: 10,
        body_medium: 11,
        body_small: 12,
        label_large: 13,
        label_medium: 14,
        label_small: 15,
    };
    assert_eq!(TextVariant::DisplayLarge.resolve(&t), 1);
    assert_eq!(TextVariant::default().resolve(&t), 11);
    assert_eq!(TextVariant::LabelSmall.resolve(&t), 15);
}

#[test]
fn theme_installation_and_signals() {
    assert_eq!(on_theme_changed(1, &[4, 2, 9]), vec![1, 4, 2, 9]);
    assert_eq!(on_theme_changed(1, &[]), vec![1]);
}
