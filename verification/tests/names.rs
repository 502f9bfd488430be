use mechanix::wayland::names::{enum_ident, sender_name, to_pascal, variant_name};

#[test]
fn snake_case_becomes_pascal_case() {
    assert_eq!(to_pascal("wl_shm_pool"), "WlShmPool");
    assert_eq!(to_pascal("zwlr_layer_surface_v1"), "ZwlrLayerSurfaceV1");
    assert_eq!(to_pascal("a__b_"), "AB");
    assert_eq!(to_pascal(""), "");
}

#[test]
fn a_variant_that_would_start_with_a_digit_gets_an_n() {
    assert_eq!(variant_name("argb8888"), "Argb8888");
    assert_eq!(variant_name("270"), "N270");
    assert_eq!(variant_name("flipped_90"), "Flipped90");
}

#[test]
fn a_sender_loses_its_vendor_prefix_and_version() {
    assert_eq!(sender_name("wl_surface"), "surface");
    assert_eq!(sender_name("zwlr_layer_surface_v1"), "layer_surface");
    assert_eq!(sender_name("xdg_toplevel"), "toplevel");
    assert_eq!(sender_name("wp_viewporter"), "viewporter");
    assert_eq!(sender_name("zwp_linux_dmabuf_v1"), "linux_dmabuf");
    assert_eq!(sender_name("ext_foo_v"), "foo_v", "no digits, no version");
    assert_eq!(sender_name("thing_v2x"), "thing_v2x");
}

#[test]
fn an_enum_is_named_by_its_interface_and_its_own_name() {
    assert_eq!(enum_ident("wl_surface", "wl_output.transform"), "WlOutputTransform");
    assert_eq!(enum_ident("wl_shm", "format"), "WlShmFormat");
    assert_eq!(
        enum_ident("zwlr_layer_surface_v1", "anchor"),
        "ZwlrLayerSurfaceV1Anchor"
    );
}
