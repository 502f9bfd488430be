//! The colour roles of the theme and the two baseline schemes.
use vstd::prelude::*;

verus! {

/// A colour as the palette writes it: `0xRRGGBB`, opaque.
#[derive(Debug, Clone, Copy, PartialEq, Eq, Hash, Structural)]
pub struct Rgb(pub u32);

/// A colour for every role.
#[derive(Debug, Clone, Copy, PartialEq, Eq, Structural)]
pub struct ColorScheme {
    // Primary
    pub primary: Rgb,
    pub on_primary: Rgb,
    pub primary_container: Rgb,
    pub on_primary_container: Rgb,

    // Secondary
    pub secondary: Rgb,
    pub on_secondary: Rgb,
    pub secondary_container: Rgb,
    pub on_secondary_container: Rgb,

    // Error
    pub error: Rgb,
    pub on_error: Rgb,
    pub error_container: Rgb,
    pub on_error_container: Rgb,

    // Success
    pub success: Rgb,
    pub on_success: Rgb,
    pub success_container: Rgb,
    pub on_success_container: Rgb,

    // Fixed
    pub primary_fixed: Rgb,
    pub primary_fixed_dim: Rgb,
    pub on_primary_fixed: Rgb,
    pub on_primary_fixed_variant: Rgb,

    pub secondary_fixed: Rgb,
    pub secondary_fixed_dim: Rgb,
    pub on_secondary_fixed: Rgb,
    pub on_secondary_fixed_variant: Rgb,

    // Surface
    pub surface_dim: Rgb,
    pub surface: Rgb,
    pub surface_bright: Rgb,

    pub surface_container_lowest: Rgb,
    pub surface_container_low: Rgb,
    pub surface_container: Rgb,
    pub surface_container_high: Rgb,
    pub surface_container_highest: Rgb,

    pub on_surface: Rgb,
    pub on_surface_variant: Rgb,

    // Outline
    pub outline: Rgb,
    pub outline_variant: Rgb,

    // Inverse
    pub inverse_surface: Rgb,
    pub inverse_on_surface: Rgb,
    pub inverse_primary: Rgb,

    // Effects
    pub scrim: Rgb,
    pub shadow: Rgb,

    // Background
    pub background: Rgb,
    pub on_background: Rgb,

    // Additional
    pub surface_tint: Rgb,
}

/// The light baseline palette.
pub open spec fn light_palette() -> ColorScheme {
    ColorScheme {
        // Primary
        primary: Rgb(0xff7230),
        on_primary: Rgb(0x050505),
        primary_container: Rgb(0xe15b0e),
        on_primary_container: Rgb(0xf4f4f5),

        // Secondary
        secondary: Rgb(0xf4f4f5),
        on_secondary: Rgb(0xff7230),
        secondary_container: Rgb(0xdbdbdc),
        on_secondary_container: Rgb(0x75757a),

        // Error
        error: Rgb(0xff4242),
        on_error: Rgb(0xf4f4f5),
        error_container: Rgb(0xb80000),
        on_error_container: Rgb(0xffebeb),

        // Success
        success: Rgb(0x3cde18),
        on_success: Rgb(0xffffff),
        success_container: Rgb(0x8cf075),
        on_success_container: Rgb(0xf0fded),

        // Fixed
        primary_fixed: Rgb(0xe15b0e),
        primary_fixed_dim: Rgb(0xaa470e),
        on_primary_fixed: Rgb(0x414144),
        on_primary_fixed_variant: Rgb(0xdbdbdc),

        secondary_fixed: Rgb(0xdbdbdc),
        secondary_fixed_dim: Rgb(0xc8c8cb),
        on_secondary_fixed: Rgb(0x49494b),
        on_secondary_fixed_variant: Rgb(0x49494b),

        // Surface
        surface_dim: Rgb(0xffffff),
        surface: Rgb(0xdbdbdc),
        surface_bright: Rgb(0xffffff),

        surface_container_lowest: Rgb(0xf4f4f5),
        surface_container_low: Rgb(0xededee),
        surface_container: Rgb(0xededee),
        surface_container_high: Rgb(0xf4f4f5),
        surface_container_highest: Rgb(0xffffff),

        on_surface: Rgb(0x414144),
        on_surface_variant: Rgb(0xa5a5a7),

        // Outline
        outline: Rgb(0xc8c8cb),
        outline_variant: Rgb(0xf4f4f5),

        // Inverse
        inverse_surface: Rgb(0x050505),
        inverse_on_surface: Rgb(0xededee),
        inverse_primary: Rgb(0x242424),

        // Effects
        scrim: Rgb(0xa5a5a7),
        shadow: Rgb(0xa5a5a7),

        // Background
        background: Rgb(0xf4f4f5),
        on_background: Rgb(0x242424),

        // Additional
        surface_tint: Rgb(0xc8c8cb),
    }
}

/// The dark baseline palette.
pub open spec fn dark_palette() -> ColorScheme {
    ColorScheme {
        // Primary
        primary: Rgb(0xf9640d),
        on_primary: Rgb(0xffffff),
        primary_container: Rgb(0xfca67b),
        on_primary_container: Rgb(0x141415),

        // Secondary
        secondary: Rgb(0x141415),
        on_secondary: Rgb(0xff7230),
        secondary_container: Rgb(0x232325),
        on_secondary_container: Rgb(0xa1a1a5),

        // Error
        error: Rgb(0xff4242),
        on_error: Rgb(0xf5f5f5),
        error_container: Rgb(0xa80404),
        on_error_container: Rgb(0xfee9e9),

        // Success
        success: Rgb(0x40e830),
        on_success: Rgb(0xf5f5f5),
        success_container: Rgb(0x15730d),
        on_success_container: Rgb(0xfbfffc),

        // Fixed
        primary_fixed: Rgb(0xfc8845),
        primary_fixed_dim: Rgb(0xfca67b),
        on_primary_fixed: Rgb(0xe0e0e1),
        on_primary_fixed_variant: Rgb(0x232325),

        secondary_fixed: Rgb(0x19191a),
        secondary_fixed_dim: Rgb(0x373739),
        on_secondary_fixed: Rgb(0x8d8d91),
        on_secondary_fixed_variant: Rgb(0xa1a1a5),

        // Surface
        surface_dim: Rgb(0x050505),
        surface: Rgb(0x232325),
        surface_bright: Rgb(0x232325),

        surface_container_lowest: Rgb(0x050505),
        surface_container_low: Rgb(0x141415),
        surface_container: Rgb(0x19191a),
        surface_container_high: Rgb(0x232325),
        surface_container_highest: Rgb(0x373739),

        on_surface: Rgb(0xf5f5f5),
        on_surface_variant: Rgb(0x646468),

        // Outline
        outline: Rgb(0x373739),
        outline_variant: Rgb(0x141415),

        // Inverse
        inverse_surface: Rgb(0xffffff),
        inverse_on_surface: Rgb(0x19191a),
        inverse_primary: Rgb(0xf5f5f5),

        // Effects
        scrim: Rgb(0x050505),
        shadow: Rgb(0x050505),

        // Background
        background: Rgb(0x141415),
        on_background: Rgb(0xf5f5f5),

        // Additional
        surface_tint: Rgb(0x373739),
    }
}

impl ColorScheme {
    pub fn baseline_light() -> (s: Self)
        ensures
            s == light_palette(),
    {
        ColorScheme {
            // Primary
            primary: Rgb(0xff7230),
            on_primary: Rgb(0x050505),
            primary_container: Rgb(0xe15b0e),
            on_primary_container: Rgb(0xf4f4f5),

            // Secondary
            secondary: Rgb(0xf4f4f5),
            on_secondary: Rgb(0xff7230),
            secondary_container: Rgb(0xdbdbdc),
            on_secondary_container: Rgb(0x75757a),

            // Error
            error: Rgb(0xff4242),
            on_error: Rgb(0xf4f4f5),
            error_container: Rgb(0xb80000),
            on_error_container: Rgb(0xffebeb),

            // Success
            success: Rgb(0x3cde18),
            on_success: Rgb(0xffffff),
            success_container: Rgb(0x8cf075),
            on_success_container: Rgb(0xf0fded),

            // Fixed
            primary_fixed: Rgb(0xe15b0e),
            primary_fixed_dim: Rgb(0xaa470e),
            on_primary_fixed: Rgb(0x414144),
            on_primary_fixed_variant: Rgb(0xdbdbdc),

            secondary_fixed: Rgb(0xdbdbdc),
            secondary_fixed_dim: Rgb(0xc8c8cb),
            on_secondary_fixed: Rgb(0x49494b),
            on_secondary_fixed_variant: Rgb(0x49494b),

            // Surface
            surface_dim: Rgb(0xffffff),
            surface: Rgb(0xdbdbdc),
            surface_bright: Rgb(0xffffff),

            surface_container_lowest: Rgb(0xf4f4f5),
            surface_container_low: Rgb(0xededee),
            surface_container: Rgb(0xededee),
            surface_container_high: Rgb(0xf4f4f5),
            surface_container_highest: Rgb(0xffffff),

            on_surface: Rgb(0x414144),
            on_surface_variant: Rgb(0xa5a5a7),

            // Outline
            outline: Rgb(0xc8c8cb),
            outline_variant: Rgb(0xf4f4f5),

            // Inverse
            inverse_surface: Rgb(0x050505),
            inverse_on_surface: Rgb(0xededee),
            inverse_primary: Rgb(0x242424),

            // Effects
            scrim: Rgb(0xa5a5a7),
            shadow: Rgb(0xa5a5a7),

            // Background
            background: Rgb(0xf4f4f5),
            on_background: Rgb(0x242424),

            // Additional
            surface_tint: Rgb(0xc8c8cb),
        }
    }

    pub fn baseline_dark() -> (s: Self)
        ensures
            s == dark_palette(),
    {
        ColorScheme {
            // Primary
            primary: Rgb(0xf9640d),
            on_primary: Rgb(0xffffff),
            primary_container: Rgb(0xfca67b),
            on_primary_container: Rgb(0x141415),

            // Secondary
            secondary: Rgb(0x141415),
            on_secondary: Rgb(0xff7230),
            secondary_container: Rgb(0x232325),
            on_secondary_container: Rgb(0xa1a1a5),

            // Error
            error: Rgb(0xff4242),
            on_error: Rgb(0xf5f5f5),
            error_container: Rgb(0xa80404),
            on_error_container: Rgb(0xfee9e9),

            // Success
            success: Rgb(0x40e830),
            on_success: Rgb(0xf5f5f5),
            success_container: Rgb(0x15730d),
            on_success_container: Rgb(0xfbfffc),

            // Fixed
            primary_fixed: Rgb(0xfc8845),
            primary_fixed_dim: Rgb(0xfca67b),
            on_primary_fixed: Rgb(0xe0e0e1),
            on_primary_fixed_variant: Rgb(0x232325),

            secondary_fixed: Rgb(0x19191a),
            secondary_fixed_dim: Rgb(0x373739),
            on_secondary_fixed: Rgb(0x8d8d91),
            on_secondary_fixed_variant: Rgb(0xa1a1a5),

            // Surface
            surface_dim: Rgb(0x050505),
            surface: Rgb(0x232325),
            surface_bright: Rgb(0x232325),

            surface_container_lowest: Rgb(0x050505),
            surface_container_low: Rgb(0x141415),
            surface_container: Rgb(0x19191a),
            surface_container_high: Rgb(0x232325),
            surface_container_highest: Rgb(0x373739),

            on_surface: Rgb(0xf5f5f5),
            on_surface_variant: Rgb(0x646468),

            // Outline
            outline: Rgb(0x373739),
            outline_variant: Rgb(0x141415),

            // Inverse
            inverse_surface: Rgb(0xffffff),
            inverse_on_surface: Rgb(0x19191a),
            inverse_primary: Rgb(0xf5f5f5),

            // Effects
            scrim: Rgb(0x050505),
            shadow: Rgb(0x050505),

            // Background
            background: Rgb(0x141415),
            on_background: Rgb(0xf5f5f5),

            // Additional
            surface_tint: Rgb(0x373739),
        }
    }
}

impl Default for ColorScheme {
    /// The dark baseline.
    fn default() -> (s: Self)
        ensures
            s == dark_palette(),
    {
        Self::baseline_dark()
    }
}

#[non_exhaustive]
#[derive(Debug, Clone, Copy, PartialEq, Eq, Hash, Structural)]
pub enum ColorRole {
    // Primary
    Primary,
    OnPrimary,
    PrimaryContainer,
    OnPrimaryContainer,

    // Secondary
    Secondary,
    OnSecondary,
    SecondaryContainer,
    OnSecondaryContainer,

    // Error
    Error,
    OnError,
    ErrorContainer,
    OnErrorContainer,

    // Success
    Success,
    OnSuccess,
    SuccessContainer,
    OnSuccessContainer,

    // Fixed
    PrimaryFixed,
    PrimaryFixedDim,
    OnPrimaryFixed,
    OnPrimaryFixedVariant,

    SecondaryFixed,
    SecondaryFixedDim,
    OnSecondaryFixed,
    OnSecondaryFixedVariant,

    // Surface
    SurfaceDim,
    Surface,
    SurfaceBright,

    SurfaceContainerLowest,
    SurfaceContainerLow,
    SurfaceContainer,
    SurfaceContainerHigh,
    SurfaceContainerHighest,

    OnSurface,
    OnSurfaceVariant,

    // Outline
    Outline,
    OutlineVariant,

    // Inverse
    InverseSurface,
    InverseOnSurface,
    InversePrimary,

    // Effects
    Scrim,
    Shadow,

    // Background
    Background,
    OnBackground,

    // Additional
    SurfaceTint,
}

impl ColorRole {
    /// The scheme's colour for this role: the field of the same name.
    pub open spec fn spec_resolve(self, scheme: ColorScheme) -> Rgb {
        match self {
            ColorRole::Primary => scheme.primary,
            ColorRole::OnPrimary => scheme.on_primary,
            ColorRole::PrimaryContainer => scheme.primary_container,
            ColorRole::OnPrimaryContainer => scheme.on_primary_container,
            ColorRole::Secondary => scheme.secondary,
            ColorRole::OnSecondary => scheme.on_secondary,
            ColorRole::SecondaryContainer => scheme.secondary_container,
            ColorRole::OnSecondaryContainer => scheme.on_secondary_container,
            ColorRole::Error => scheme.error,
            ColorRole::OnError => scheme.on_error,
            ColorRole::ErrorContainer => scheme.error_container,
            ColorRole::OnErrorContainer => scheme.on_error_container,
            ColorRole::Success => scheme.success,
            ColorRole::OnSuccess => scheme.on_success,
            ColorRole::SuccessContainer => scheme.success_container,
            ColorRole::OnSuccessContainer => scheme.on_success_container,
            ColorRole::PrimaryFixed => scheme.primary_fixed,
            ColorRole::PrimaryFixedDim => scheme.primary_fixed_dim,
            ColorRole::OnPrimaryFixed => scheme.on_primary_fixed,
            ColorRole::OnPrimaryFixedVariant => scheme.on_primary_fixed_variant,
            ColorRole::SecondaryFixed => scheme.secondary_fixed,
            ColorRole::SecondaryFixedDim => scheme.secondary_fixed_dim,
            ColorRole::OnSecondaryFixed => scheme.on_secondary_fixed,
            ColorRole::OnSecondaryFixedVariant => scheme.on_secondary_fixed_variant,
            ColorRole::SurfaceDim => scheme.surface_dim,
            ColorRole::Surface => scheme.surface,
            ColorRole::SurfaceBright => scheme.surface_bright,
            ColorRole::SurfaceContainerLowest => scheme.surface_container_lowest,
            ColorRole::SurfaceContainerLow => scheme.surface_container_low,
            ColorRole::SurfaceContainer => scheme.surface_container,
            ColorRole::SurfaceContainerHigh => scheme.surface_container_high,
            ColorRole::SurfaceContainerHighest => scheme.surface_container_highest,
            ColorRole::OnSurface => scheme.on_surface,
            ColorRole::OnSurfaceVariant => scheme.on_surface_variant,
            ColorRole::Outline => scheme.outline,
            ColorRole::OutlineVariant => scheme.outline_variant,
            ColorRole::InverseSurface => scheme.inverse_surface,
            ColorRole::InverseOnSurface => scheme.inverse_on_surface,
            ColorRole::InversePrimary => scheme.inverse_primary,
            ColorRole::Scrim => scheme.scrim,
            ColorRole::Shadow => scheme.shadow,
            ColorRole::Background => scheme.background,
            ColorRole::OnBackground => scheme.on_background,
            ColorRole::SurfaceTint => scheme.surface_tint,
        }
    }

    pub fn resolve(self, scheme: &ColorScheme) -> (c: Rgb)
        ensures
            c == self.spec_resolve(*scheme),
    {
        match self {
            ColorRole::Primary => scheme.primary,
            ColorRole::OnPrimary => scheme.on_primary,
            ColorRole::PrimaryContainer => scheme.primary_container,
            ColorRole::OnPrimaryContainer => scheme.on_primary_container,
            ColorRole::Secondary => scheme.secondary,
            ColorRole::OnSecondary => scheme.on_secondary,
            ColorRole::SecondaryContainer => scheme.secondary_container,
            ColorRole::OnSecondaryContainer => scheme.on_secondary_container,
            ColorRole::Error => scheme.error,
            ColorRole::OnError => scheme.on_error,
            ColorRole::ErrorContainer => scheme.error_container,
            ColorRole::OnErrorContainer => scheme.on_error_container,
            ColorRole::Success => scheme.success,
            ColorRole::OnSuccess => scheme.on_success,
            ColorRole::SuccessContainer => scheme.success_container,
            ColorRole::OnSuccessContainer => scheme.on_success_container,
            ColorRole::PrimaryFixed => scheme.primary_fixed,
            ColorRole::PrimaryFixedDim => scheme.primary_fixed_dim,
            ColorRole::OnPrimaryFixed => scheme.on_primary_fixed,
            ColorRole::OnPrimaryFixedVariant => scheme.on_primary_fixed_variant,
            ColorRole::SecondaryFixed => scheme.secondary_fixed,
            ColorRole::SecondaryFixedDim => scheme.secondary_fixed_dim,
            ColorRole::OnSecondaryFixed => scheme.on_secondary_fixed,
            ColorRole::OnSecondaryFixedVariant => scheme.on_secondary_fixed_variant,
            ColorRole::SurfaceDim => scheme.surface_dim,
            ColorRole::Surface => scheme.surface,
            ColorRole::SurfaceBright => scheme.surface_bright,
            ColorRole::SurfaceContainerLowest => scheme.surface_container_lowest,
            ColorRole::SurfaceContainerLow => scheme.surface_container_low,
            ColorRole::SurfaceContainer => scheme.surface_container,
            ColorRole::SurfaceContainerHigh => scheme.surface_container_high,
            ColorRole::SurfaceContainerHighest => scheme.surface_container_highest,
            ColorRole::OnSurface => scheme.on_surface,
            ColorRole::OnSurfaceVariant => scheme.on_surface_variant,
            ColorRole::Outline => scheme.outline,
            ColorRole::OutlineVariant => scheme.outline_variant,
            ColorRole::InverseSurface => scheme.inverse_surface,
            ColorRole::InverseOnSurface => scheme.inverse_on_surface,
            ColorRole::InversePrimary => scheme.inverse_primary,
            ColorRole::Scrim => scheme.scrim,
            ColorRole::Shadow => scheme.shadow,
            ColorRole::Background => scheme.background,
            ColorRole::OnBackground => scheme.on_background,
            ColorRole::SurfaceTint => scheme.surface_tint,
        }
    }
}

/// Every role resolves, in every scheme, to the scheme's colour of the
/// same name: text on a container is the `on_` colour, never the
/// container's own.
pub proof fn law_each_role_is_its_own_colour(scheme: ColorScheme)
    ensures
        ColorRole::Primary.spec_resolve(scheme) == scheme.primary,
        ColorRole::OnPrimary.spec_resolve(scheme) == scheme.on_primary,
        ColorRole::PrimaryContainer.spec_resolve(scheme) == scheme.primary_container,
        ColorRole::OnPrimaryContainer.spec_resolve(scheme) == scheme.on_primary_container,
        ColorRole::Secondary.spec_resolve(scheme) == scheme.secondary,
        ColorRole::OnSecondary.spec_resolve(scheme) == scheme.on_secondary,
        ColorRole::SecondaryContainer.spec_resolve(scheme) == scheme.secondary_container,
        ColorRole::OnSecondaryContainer.spec_resolve(scheme) == scheme.on_secondary_container,
        ColorRole::Error.spec_resolve(scheme) == scheme.error,
        ColorRole::OnError.spec_resolve(scheme) == scheme.on_error,
        ColorRole::ErrorContainer.spec_resolve(scheme) == scheme.error_container,
        ColorRole::OnErrorContainer.spec_resolve(scheme) == scheme.on_error_container,
        ColorRole::Success.spec_resolve(scheme) == scheme.success,
        ColorRole::OnSuccess.spec_resolve(scheme) == scheme.on_success,
        ColorRole::SuccessContainer.spec_resolve(scheme) == scheme.success_container,
        ColorRole::OnSuccessContainer.spec_resolve(scheme) == scheme.on_success_container,
        ColorRole::PrimaryFixed.spec_resolve(scheme) == scheme.primary_fixed,
        ColorRole::PrimaryFixedDim.spec_resolve(scheme) == scheme.primary_fixed_dim,
        ColorRole::OnPrimaryFixed.spec_resolve(scheme) == scheme.on_primary_fixed,
        ColorRole::OnPrimaryFixedVariant.spec_resolve(scheme) == scheme.on_primary_fixed_variant,
        ColorRole::SecondaryFixed.spec_resolve(scheme) == scheme.secondary_fixed,
        ColorRole::SecondaryFixedDim.spec_resolve(scheme) == scheme.secondary_fixed_dim,
        ColorRole::OnSecondaryFixed.spec_resolve(scheme) == scheme.on_secondary_fixed,
        ColorRole::OnSecondaryFixedVariant.spec_resolve(scheme) == scheme.on_secondary_fixed_variant,
        ColorRole::SurfaceDim.spec_resolve(scheme) == scheme.surface_dim,
        ColorRole::Surface.spec_resolve(scheme) == scheme.surface,
        ColorRole::SurfaceBright.spec_resolve(scheme) == scheme.surface_bright,
        ColorRole::SurfaceContainerLowest.spec_resolve(scheme) == scheme.surface_container_lowest,
        ColorRole::SurfaceContainerLow.spec_resolve(scheme) == scheme.surface_container_low,
        ColorRole::SurfaceContainer.spec_resolve(scheme) == scheme.surface_container,
        ColorRole::SurfaceContainerHigh.spec_resolve(scheme) == scheme.surface_container_high,
        ColorRole::SurfaceContainerHighest.spec_resolve(scheme) == scheme.surface_container_highest,
        ColorRole::OnSurface.spec_resolve(scheme) == scheme.on_surface,
        ColorRole::OnSurfaceVariant.spec_resolve(scheme) == scheme.on_surface_variant,
        ColorRole::Outline.spec_resolve(scheme) == scheme.outline,
        ColorRole::OutlineVariant.spec_resolve(scheme) == scheme.outline_variant,
        ColorRole::InverseSurface.spec_resolve(scheme) == scheme.inverse_surface,
        ColorRole::InverseOnSurface.spec_resolve(scheme) == scheme.inverse_on_surface,
        ColorRole::InversePrimary.spec_resolve(scheme) == scheme.inverse_primary,
        ColorRole::Scrim.spec_resolve(scheme) == scheme.scrim,
        ColorRole::Shadow.spec_resolve(scheme) == scheme.shadow,
        ColorRole::Background.spec_resolve(scheme) == scheme.background,
        ColorRole::OnBackground.spec_resolve(scheme) == scheme.on_background,
        ColorRole::SurfaceTint.spec_resolve(scheme) == scheme.surface_tint,
{
}

} // verus!
