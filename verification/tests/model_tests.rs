use luxifer::classic;
use luxifer::model::{image_layer_color, Layer, LayerMode, SWATCH_COLORS};

#[test]
fn nur_fill_und_raster_gefuellt() {
    assert!(!classic::LayerMode::Cut.is_filled());
    assert!(classic::LayerMode::Fill.is_filled());
    assert!(classic::LayerMode::Raster.is_filled());
}

#[test]
fn model_nur_fill_und_raster_gefuellt() {
    assert!(!LayerMode::Cut.is_filled());
    assert!(LayerMode::Fill.is_filled());
    assert!(LayerMode::Raster.is_filled());
    assert!(LayerMode::Image.is_filled());
}

#[test]
fn model_layer_vergibt_farben_reihum() {
    assert_eq!(Layer::new(0).color, SWATCH_COLORS[0]);
    assert_eq!(Layer::new(1).color, SWATCH_COLORS[1]);
    assert_eq!(Layer::new(14).color, SWATCH_COLORS[0]);
    assert_eq!(Layer::new(2).name, "Ebene 3");
}

#[test]
fn model_color_hex_formatiert() {
    assert_eq!(Layer::with_color(0, [0xEF, 0x44, 0x44]).color_hex(), "#EF4444");
    let l = Layer::with_color(0, [0xEF, 0x44, 0x0A]);
    assert_eq!(l.color_hex(), "#EF440A");
}

#[test]
fn classic_default_mode_is_cut() {
    assert_eq!(classic::LayerMode::default(), classic::LayerMode::Cut);
}

#[test]
fn image_layer_color_skips_palette_colours() {
    let candidates = vec![SWATCH_COLORS[0], SWATCH_COLORS[5], [1, 2, 3], [4, 5, 6]];
    assert_eq!(image_layer_color(&candidates), [1, 2, 3]);
}

#[test]
fn image_layer_color_falls_back_to_first_candidate() {
    let candidates = vec![SWATCH_COLORS[3], SWATCH_COLORS[4]];
    assert_eq!(image_layer_color(&candidates), SWATCH_COLORS[3]);
}
