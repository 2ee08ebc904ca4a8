use luxifer::import::{
    dxf_unreadable, dxf_without_entities, svg_unreadable, svg_without_paths, vector_format,
    VectorFormat,
};
use luxifer::text::{font_unreadable, font_without_units};
use luxifer::model::{needs_fill, LayerMode};

#[test]
fn unbekannte_endung_gibt_fehler() {
    assert!(vector_format("pdf").is_err());
    let e = vector_format("PDF").unwrap_err();
    assert_eq!(e.message(), "Nicht unterstütztes Format: .pdf");
}

#[test]
fn vector_formats_by_extension_ignore_case() {
    assert_eq!(vector_format("svg").unwrap(), VectorFormat::Svg);
    assert_eq!(vector_format("SVG").unwrap(), VectorFormat::Svg);
    assert_eq!(vector_format("Dxf").unwrap(), VectorFormat::Dxf);
}

#[test]
fn only_filling_modes_need_fill() {
    assert!(!needs_fill(LayerMode::Cut));
    assert!(needs_fill(LayerMode::Fill));
    assert!(needs_fill(LayerMode::Raster));
    assert!(needs_fill(LayerMode::Image));
}

#[test]
fn import_fehlertexte_nennen_den_grund() {
    assert_eq!(svg_unreadable("kaputt").message(), "SVG unlesbar: kaputt");
    assert_eq!(svg_without_paths().message(), "SVG enthält keine Pfade.");
    assert_eq!(dxf_unreadable("x").message(), "DXF unlesbar: x");
    assert_eq!(
        dxf_without_entities().message(),
        "DXF enthält keine unterstützten Entities (LINE/POLYLINE/CIRCLE/ARC)."
    );
}

#[test]
fn font_fehlertexte() {
    assert_eq!(font_unreadable("zu kurz").message(), "Font unlesbar: zu kurz");
    assert_eq!(font_without_units().0, "Font ohne units_per_em");
}
