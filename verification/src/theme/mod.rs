//! Theme tokens: the colour roles and palettes, elevation, spacing,
//! shape, and the typography scale, and who hears of a theme change.
use vstd::prelude::*;

pub mod color;

verus! {

/// The elevation scale, in dp.
#[derive(Debug, Clone, Copy, PartialEq, Eq, PartialOrd, Ord, Hash)]
pub enum Elevation {
    /// 0 dp
    Level0,
    /// 1 dp
    Level1,
    /// 3 dp
    Level2,
    /// 6 dp
    Level3,
    /// 8 dp
    Level4,
    /// 12 dp
    Level5,
}

impl Elevation {
    pub open spec fn spec_value(self) -> u8 {
        match self {
            Elevation::Level0 => 0,
            Elevation::Level1 => 1,
            Elevation::Level2 => 3,
            Elevation::Level3 => 6,
            Elevation::Level4 => 8,
            Elevation::Level5 => 12,
        }
    }

    /// The level's height in dp.
    pub fn value(self) -> (r: u8)
        ensures
            r == self.spec_value(),
    {
        match self {
            Elevation::Level0 => 0,
            Elevation::Level1 => 1,
            Elevation::Level2 => 3,
            Elevation::Level3 => 6,
            Elevation::Level4 => 8,
            Elevation::Level5 => 12,
        }
    }
}


#[non_exhaustive]
#[derive(Debug, Clone, Copy, PartialEq, Eq, PartialOrd, Ord, Hash)]
pub enum Spacing {
    /// 0 dp
    Space0,
    /// 2 dp
    Space25,
    /// 4 dp
    Space50,
    /// 6 dp
    Space75,
    /// 8 dp
    Space100,
    /// 10 dp
    Space125,
    /// 12 dp
    Space150,
    /// 14 dp
    Space175,
    /// 16 dp
    Space200,
    /// 20 dp
    Space250,
    /// 24 dp
    Space300,
    /// 32 dp
    Space400,
    /// 36 dp
    Space450,
    /// 40 dp
    Space500,
    /// 48 dp
    Space600,
    /// 56 dp
    Space700,
    /// 64 dp
    Space800,
    /// 72 dp
    Space900,
}

impl Spacing {
    pub open spec fn spec_value(self) -> u8 {
        match self {
            Spacing::Space0 => 0,
            Spacing::Space25 => 2,
            Spacing::Space50 => 4,
            Spacing::Space75 => 6,
            Spacing::Space100 => 8,
            Spacing::Space125 => 10,
            Spacing::Space150 => 12,
            Spacing::Space175 => 14,
            Spacing::Space200 => 16,
            Spacing::Space250 => 20,
            Spacing::Space300 => 24,
            Spacing::Space400 => 32,
            Spacing::Space450 => 36,
            Spacing::Space500 => 40,
            Spacing::Space600 => 48,
            Spacing::Space700 => 56,
            Spacing::Space800 => 64,
            Spacing::Space900 => 72,
        }
    }

    /// The step's size in dp.
    pub fn value(self) -> (r: u8)
        ensures
            r == self.spec_value(),
    {
        match self {
            Spacing::Space0 => 0,
            Spacing::Space25 => 2,
            Spacing::Space50 => 4,
            Spacing::Space75 => 6,
            Spacing::Space100 => 8,
            Spacing::Space125 => 10,
            Spacing::Space150 => 12,
            Spacing::Space175 => 14,
            Spacing::Space200 => 16,
            Spacing::Space250 => 20,
            Spacing::Space300 => 24,
            Spacing::Space400 => 32,
            Spacing::Space450 => 36,
            Spacing::Space500 => 40,
            Spacing::Space600 => 48,
            Spacing::Space700 => 56,
            Spacing::Space800 => 64,
            Spacing::Space900 => 72,
        }
    }
}

#[non_exhaustive]
#[derive(Debug, Clone, Copy, PartialEq, Eq, PartialOrd, Ord, Hash)]
pub enum FontWeight {
    Thin,
    ExtraLight,
    Light,
    Regular,
    Medium,
    SemiBold,
    Bold,
    ExtraBold,
}

impl FontWeight {
    pub open spec fn spec_value(self) -> u16 {
        match self {
            FontWeight::Thin => 100,
            FontWeight::ExtraLight => 200,
            FontWeight::Light => 300,
            FontWeight::Regular => 400,
            FontWeight::Medium => 500,
            FontWeight::SemiBold => 600,
            FontWeight::Bold => 700,
            FontWeight::ExtraBold => 800,
        }
    }

    /// The weight on the CSS scale.
    pub fn value(self) -> (r: u16)
        ensures
            r == self.spec_value(),
    {
        match self {
            FontWeight::Thin => 100,
            FontWeight::ExtraLight => 200,
            FontWeight::Light => 300,
            FontWeight::Regular => 400,
            FontWeight::Medium => 500,
            FontWeight::SemiBold => 600,
            FontWeight::Bold => 700,
            FontWeight::ExtraBold => 800,
        }
    }
}

/// How rounded a component's corners are.
#[non_exhaustive]
#[derive(Debug, Clone, Copy, PartialEq, Eq, Hash, Default)]
pub enum Shape {
    /// No rounding: square corners.
    #[default]
    Square,
    /// 4dp
    ExtraSmall,
    /// 8dp
    Small,
    /// 12dp
    Medium,
    /// 16dp
    Large,
    /// 20dp
    LargeIncreased,
    /// 28dp
    ExtraLarge,
    /// 32dp
    ExtraLargeIncreased,
    /// 48dp
    ExtraExtraLarge,
    /// Fully rounded pill shape
    Full,
}

impl Shape {
    pub open spec fn spec_fixed_radius_dp(self) -> Option<u8> {
        match self {
            Shape::Square => Some(0),
            Shape::ExtraSmall => Some(4),
            Shape::Small => Some(8),
            Shape::Medium => Some(12),
            Shape::Large => Some(16),
            Shape::LargeIncreased => Some(20),
            Shape::ExtraLarge => Some(28),
            Shape::ExtraLargeIncreased => Some(32),
            Shape::ExtraExtraLarge => Some(48),
            Shape::Full => None,
        }
    }

    /// The corner radius in dp, for every shape but `Full`, whose radius
    /// is half the component's height.
    pub fn fixed_radius_dp(self) -> (r: Option<u8>)
        ensures
            r == self.spec_fixed_radius_dp(),
    {
        match self {
            Shape::Square => Some(0),
            Shape::ExtraSmall => Some(4),
            Shape::Small => Some(8),
            Shape::Medium => Some(12),
            Shape::Large => Some(16),
            Shape::LargeIncreased => Some(20),
            Shape::ExtraLarge => Some(28),
            Shape::ExtraLargeIncreased => Some(32),
            Shape::ExtraExtraLarge => Some(48),
            Shape::Full => None,
        }
    }
}

/// A style for every text variant. `S` is the style of one variant: its
/// size, line height, letter spacing and weights.
#[derive(Debug)]
pub struct Typography<S> {
    pub display_large: S,
    pub display_medium: S,
    pub display_small: S,
    pub headline_large: S,
    pub headline_medium: S,
    pub headline_small: S,
    pub title_large: S,
    pub title_medium: S,
    pub title_small: S,
    pub body_large: S,
    pub body_medium: S,
    pub body_small: S,
    pub label_large: S,
    pub label_medium: S,
    pub label_small: S,
}

#[non_exhaustive]
#[derive(Debug, Clone, Copy, PartialEq, Eq, Hash, Default)]
pub enum TextVariant {
    DisplayLarge,
    DisplayMedium,
    DisplaySmall,
    HeadlineLarge,
    HeadlineMedium,
    HeadlineSmall,
    TitleLarge,
    TitleMedium,
    TitleSmall,
    BodyLarge,
    #[default]
    BodyMedium,
    BodySmall,
    LabelLarge,
    LabelMedium,
    LabelSmall,
}

impl TextVariant {
    /// The typography's style for this variant: the field of the same
    /// name.
    pub open spec fn spec_resolve<S>(self, typography: Typography<S>) -> S {
        match self {
            TextVariant::DisplayLarge => typography.display_large,
            TextVariant::DisplayMedium => typography.display_medium,
            TextVariant::DisplaySmall => typography.display_small,
            TextVariant::HeadlineLarge => typography.headline_large,
            TextVariant::HeadlineMedium => typography.headline_medium,
            TextVariant::HeadlineSmall => typography.headline_small,
            TextVariant::TitleLarge => typography.title_large,
            TextVariant::TitleMedium => typography.title_medium,
            TextVariant::TitleSmall => typography.title_small,
            TextVariant::BodyLarge => typography.body_large,
            TextVariant::BodyMedium => typography.body_medium,
            TextVariant::BodySmall => typography.body_small,
            TextVariant::LabelLarge => typography.label_large,
            TextVariant::LabelMedium => typography.label_medium,
            TextVariant::LabelSmall => typography.label_small,
        }
    }

    pub fn resolve<S: Copy>(self, typography: &Typography<S>) -> (s: S)
        ensures
            s == self.spec_resolve(*typography),
    {
        match self {
            TextVariant::DisplayLarge => typography.display_large,
            TextVariant::DisplayMedium => typography.display_medium,
            TextVariant::DisplaySmall => typography.display_small,
            TextVariant::HeadlineLarge => typography.headline_large,
            TextVariant::HeadlineMedium => typography.headline_medium,
            TextVariant::HeadlineSmall => typography.headline_small,
            TextVariant::TitleLarge => typography.title_large,
            TextVariant::TitleMedium => typography.title_medium,
            TextVariant::TitleSmall => typography.title_small,
            TextVariant::BodyLarge => typography.body_large,
            TextVariant::BodyMedium => typography.body_medium,
            TextVariant::BodySmall => typography.body_small,
            TextVariant::LabelLarge => typography.label_large,
            TextVariant::LabelMedium => typography.label_medium,
            TextVariant::LabelSmall => typography.label_small,
        }
    }
}

/// The theme was set or changed.
#[derive(Debug, Clone, Copy, PartialEq, Eq, Hash, Default)]
pub struct ThemeChanged;

/// Sent to every node when the theme changes.
#[derive(Debug, Clone, Copy, PartialEq, Eq, Hash, Default)]
pub struct ApplyTheme;

/// Who hears [`ApplyTheme`] when the theme changes: the root, then every
/// descendant of it, in the order the tree gives them.
pub fn on_theme_changed(root: u64, descendants: &[u64]) -> (targets: Vec<u64>)
    ensures
        targets@ == seq![root] + descendants@,
{
    let mut targets: Vec<u64> = Vec::new();
    targets.push(root);
    let mut i: usize = 0;
    while i < descendants.len()
        invariant
            i <= descendants@.len(),
            targets@ == seq![root] + descendants@.take(i as int),
        decreases descendants@.len() - i,
    {
        targets.push(descendants[i]);
        assert(descendants@.take(i + 1) =~= descendants@.take(i as int).push(descendants@[i as int]));
        i = i + 1;
    }
    assert(descendants@.take(descendants@.len() as int) =~= descendants@);
    targets
}

/// Every text variant resolves, in every typography, to the style of the
/// same name.
pub proof fn law_each_variant_is_its_own_style<S>(typography: Typography<S>)
    ensures
        TextVariant::DisplayLarge.spec_resolve(typography) == typography.display_large,
        TextVariant::DisplayMedium.spec_resolve(typography) == typography.display_medium,
        TextVariant::DisplaySmall.spec_resolve(typography) == typography.display_small,
        TextVariant::HeadlineLarge.spec_resolve(typography) == typography.headline_large,
        TextVariant::HeadlineMedium.spec_resolve(typography) == typography.headline_medium,
        TextVariant::HeadlineSmall.spec_resolve(typography) == typography.headline_small,
        TextVariant::TitleLarge.spec_resolve(typography) == typography.title_large,
        TextVariant::TitleMedium.spec_resolve(typography) == typography.title_medium,
        TextVariant::TitleSmall.spec_resolve(typography) == typography.title_small,
        TextVariant::BodyLarge.spec_resolve(typography) == typography.body_large,
        TextVariant::BodyMedium.spec_resolve(typography) == typography.body_medium,
        TextVariant::BodySmall.spec_resolve(typography) == typography.body_small,
        TextVariant::LabelLarge.spec_resolve(typography) == typography.label_large,
        TextVariant::LabelMedium.spec_resolve(typography) == typography.label_medium,
        TextVariant::LabelSmall.spec_resolve(typography) == typography.label_small,
{
}

/// The elevation levels rise, each above the one before.
pub proof fn law_elevation_rises()
    ensures
        Elevation::Level0.spec_value() < Elevation::Level1.spec_value(),
        Elevation::Level1.spec_value() < Elevation::Level2.spec_value(),
        Elevation::Level2.spec_value() < Elevation::Level3.spec_value(),
        Elevation::Level3.spec_value() < Elevation::Level4.spec_value(),
        Elevation::Level4.spec_value() < Elevation::Level5.spec_value(),
{
}

/// The spacing steps grow, each wider than the one before.
pub proof fn law_spacing_grows()
    ensures
        Spacing::Space0.spec_value() < Spacing::Space25.spec_value(),
        Spacing::Space25.spec_value() < Spacing::Space50.spec_value(),
        Spacing::Space50.spec_value() < Spacing::Space75.spec_value(),
        Spacing::Space75.spec_value() < Spacing::Space100.spec_value(),
        Spacing::Space100.spec_value() < Spacing::Space125.spec_value(),
        Spacing::Space125.spec_value() < Spacing::Space150.spec_value(),
        Spacing::Space150.spec_value() < Spacing::Space175.spec_value(),
        Spacing::Space175.spec_value() < Spacing::Space200.spec_value(),
        Spacing::Space200.spec_value() < Spacing::Space250.spec_value(),
        Spacing::Space250.spec_value() < Spacing::Space300.spec_value(),
        Spacing::Space300.spec_value() < Spacing::Space400.spec_value(),
        Spacing::Space400.spec_value() < Spacing::Space450.spec_value(),
        Spacing::Space450.spec_value() < Spacing::Space500.spec_value(),
        Spacing::Space500.spec_value() < Spacing::Space600.spec_value(),
        Spacing::Space600.spec_value() < Spacing::Space700.spec_value(),
        Spacing::Space700.spec_value() < Spacing::Space800.spec_value(),
        Spacing::Space800.spec_value() < Spacing::Space900.spec_value(),
{
}

/// The weights step up the CSS scale by a hundred from thin.
pub proof fn law_weights_step_by_a_hundred()
    ensures
        FontWeight::Thin.spec_value() == 100,
        FontWeight::ExtraLight.spec_value() == 200,
        FontWeight::Light.spec_value() == 300,
        FontWeight::Regular.spec_value() == 400,
        FontWeight::Medium.spec_value() == 500,
        FontWeight::SemiBold.spec_value() == 600,
        FontWeight::Bold.spec_value() == 700,
        FontWeight::ExtraBold.spec_value() == 800,
{
}

/// Every shape but the pill has a fixed radius, each rounder than the
/// one before; the pill has none, its radius following the height.
pub proof fn law_shapes_round_in_order()
    ensures
        Shape::Square.spec_fixed_radius_dp() is Some,
        Shape::ExtraSmall.spec_fixed_radius_dp() is Some,
        Shape::Small.spec_fixed_radius_dp() is Some,
        Shape::Medium.spec_fixed_radius_dp() is Some,
        Shape::Large.spec_fixed_radius_dp() is Some,
        Shape::LargeIncreased.spec_fixed_radius_dp() is Some,
        Shape::ExtraLarge.spec_fixed_radius_dp() is Some,
        Shape::ExtraLargeIncreased.spec_fixed_radius_dp() is Some,
        Shape::ExtraExtraLarge.spec_fixed_radius_dp() is Some,
        Shape::Full.spec_fixed_radius_dp() is None,
        Shape::Square.spec_fixed_radius_dp().unwrap() < Shape::ExtraSmall.spec_fixed_radius_dp().unwrap(),
        Shape::ExtraSmall.spec_fixed_radius_dp().unwrap() < Shape::Small.spec_fixed_radius_dp().unwrap(),
        Shape::Small.spec_fixed_radius_dp().unwrap() < Shape::Medium.spec_fixed_radius_dp().unwrap(),
        Shape::Medium.spec_fixed_radius_dp().unwrap() < Shape::Large.spec_fixed_radius_dp().unwrap(),
        Shape::Large.spec_fixed_radius_dp().unwrap() < Shape::LargeIncreased.spec_fixed_radius_dp().unwrap(),
        Shape::LargeIncreased.spec_fixed_radius_dp().unwrap() < Shape::ExtraLarge.spec_fixed_radius_dp().unwrap(),
        Shape::ExtraLarge.spec_fixed_radius_dp().unwrap() < Shape::ExtraLargeIncreased.spec_fixed_radius_dp().unwrap(),
        Shape::ExtraLargeIncreased.spec_fixed_radius_dp().unwrap() < Shape::ExtraExtraLarge.spec_fixed_radius_dp().unwrap(),
{
}

} // verus!
