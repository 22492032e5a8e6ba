use ayude::graphics::MagFilter;
use ayude::graphics::MinFilter;
use ayude::graphics::TextureBuilder;
use ayude::graphics::TextureFormat;
use ayude::graphics::TextureWrap;

#[test]
fn wrap_modes_map_to_gl_constants() {
    assert_eq!(TextureWrap::ClampToEdge.into_gl(), 33071);
    assert_eq!(TextureWrap::MirroredRepeat.into_gl(), 33648);
    assert_eq!(TextureWrap::Repeat.into_gl(), 10497);
}

#[test]
fn min_filters_map_to_gl_constants() {
    assert_eq!(MinFilter::Nearest.into_gl(), 9728);
    assert_eq!(MinFilter::Linear.into_gl(), 9729);
    assert_eq!(MinFilter::NearestMipmapNearest.into_gl(), 9984);
    assert_eq!(MinFilter::LinearMipmapNearest.into_gl(), 9985);
    assert_eq!(MinFilter::NearestMipmapLinear.into_gl(), 9986);
    assert_eq!(MinFilter::LinearMipmapLinear.into_gl(), 9987);
}

#[test]
fn mag_filters_map_to_gl_constants() {
    assert_eq!(MagFilter::Nearest.into_gl(), 9728);
    assert_eq!(MagFilter::Linear.into_gl(), 9729);
}

#[test]
fn sampler_fields_resolve_with_defaults() {
    assert_eq!(TextureWrap::from_gltf(None), TextureWrap::ClampToEdge);
    assert_eq!(TextureWrap::from_gltf(Some(33648)), TextureWrap::MirroredRepeat);
    assert_eq!(TextureWrap::from_gltf(Some(10497)), TextureWrap::Repeat);
    assert_eq!(MinFilter::from_gltf(None), MinFilter::Linear);
    assert_eq!(MinFilter::from_gltf(Some(9728)), MinFilter::Nearest);
    assert_eq!(MinFilter::from_gltf(Some(9987)), MinFilter::LinearMipmapLinear);
    assert_eq!(MagFilter::from_gltf(None), MagFilter::Linear);
    assert_eq!(MagFilter::from_gltf(Some(9728)), MagFilter::Nearest);
}

#[test]
fn texture_builder_defaults_to_clamp_linear() {
    let data = vec![0u8; 4 * 2 * 2];
    let tex = TextureBuilder::new(data, 2, 2, TextureFormat::RGBA).build();
    assert_eq!(tex.width, 2);
    assert_eq!(tex.height, 2);
    assert_eq!(tex.wrap_s, TextureWrap::ClampToEdge);
    assert_eq!(tex.wrap_t, TextureWrap::ClampToEdge);
    assert_eq!(tex.min_filter, MinFilter::Linear);
    assert_eq!(tex.mag_filter, MagFilter::Linear);
    assert_eq!(tex.pixels.len(), 16);
}

#[test]
fn texture_builder_applies_sampler_settings() {
    let data = vec![7u8; 3 * 1 * 2];
    let tex = TextureBuilder::new(data, 1, 2, TextureFormat::RGB)
        .wrap_s(TextureWrap::Repeat)
        .wrap_t(TextureWrap::MirroredRepeat)
        .min_filter(MinFilter::Nearest)
        .mag_filter(MagFilter::Nearest)
        .build();
    assert_eq!(tex.format, TextureFormat::RGB);
    assert_eq!(tex.wrap_s, TextureWrap::Repeat);
    assert_eq!(tex.wrap_t, TextureWrap::MirroredRepeat);
    assert_eq!(tex.min_filter, MinFilter::Nearest);
    assert_eq!(tex.mag_filter, MagFilter::Nearest);
}
