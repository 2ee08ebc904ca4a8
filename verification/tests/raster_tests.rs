use luxifer::dither::{dither, is_dither, threshold_128};
use luxifer::geometry::ImageMode;
use luxifer::raster::{burn_runs, mask_transparent, raster_runs, scale_gray, texture_pixels, RasterImage};

#[test]
fn luecke_in_der_zeile_gibt_zwei_runs() {
    assert_eq!(burn_runs(&[0, 0, 255, 0, 255, 255]), vec![(0, 2), (3, 4)]);
    assert_eq!(burn_runs(&[255, 0, 0]), vec![(1, 3)]);
    assert!(burn_runs(&[255, 200]).is_empty());
    assert!(burn_runs(&[]).is_empty());
}

#[test]
fn weisse_flaeche_gibt_keine_zeilen() {
    let bw = vec![255u8; 6];
    assert!(raster_runs(&bw, 3, 2).is_empty());
}

#[test]
fn volle_schwarze_flaeche_gibt_zeilen_ueber_ganze_breite() {
    let bw = vec![0u8, 0, 0, 255, 255, 255, 0, 0, 0];
    let rows = raster_runs(&bw, 3, 3);
    assert_eq!(rows.len(), 2);
    assert_eq!(rows[0].row, 0);
    assert_eq!(rows[0].runs, vec![(0, 3)]);
    assert_eq!(rows[1].row, 2);
}

#[test]
fn texture_marks_burning_cells() {
    assert_eq!(texture_pixels(&vec![0, 127, 128, 255]), vec![255, 255, 0, 0]);
}

#[test]
fn transparente_pixel_brennen_nicht() {
    let mut cells = vec![0u8, 0, 0];
    mask_transparent(&mut cells, &vec![255, 10]);
    assert_eq!(cells, vec![0, 255, 0]);
}

#[test]
fn same_size_scaling_keeps_pixels() {
    let src = vec![1u8, 2, 3, 4];
    assert_eq!(scale_gray(&src, 2, 2, 2, 2), src);
    let short = vec![1u8];
    assert_eq!(scale_gray(&short, 2, 2, 1, 1), short);
}

#[test]
fn kante_bleibt_scharf_nach_schwelle() {
    let src = vec![0u8, 0, 255, 255, 0, 0, 255, 255];
    let scaled = scale_gray(&src, 4, 2, 2, 1);
    assert_eq!(scaled.len(), 2);
    assert_eq!(threshold_128(&scaled), vec![0, 255]);
}

#[test]
fn raster_image_usability() {
    let px = [1u8, 2, 3, 4];
    assert!(RasterImage { pixels: &px, alpha: None, px_w: 2, px_h: 2 }.is_usable());
    assert!(!RasterImage { pixels: &px, alpha: None, px_w: 3, px_h: 2 }.is_usable());
    assert!(!RasterImage { pixels: &px, alpha: None, px_w: 0, px_h: 2 }.is_usable());
}

#[test]
fn schwarz_und_weiss_bleiben_erhalten_exakt() {
    let black = vec![0u8; 64];
    let white = vec![255u8; 64];
    for mode in [ImageMode::Bayer, ImageMode::Threshold, ImageMode::Grayscale] {
        assert!(dither(&black, 8, 8, mode).unwrap().iter().all(|&v| v == 0));
        assert!(dither(&white, 8, 8, mode).unwrap().iter().all(|&v| v == 255));
    }
    assert!(dither(&black, 8, 8, ImageMode::Floyd).is_none());
}

#[test]
fn leere_oder_falsche_masse_sind_robust() {
    assert!(dither(&[], 0, 0, ImageMode::Floyd).unwrap().is_empty());
    let px = vec![10u8, 20];
    assert_eq!(dither(&px, 4, 4, ImageMode::Floyd).unwrap(), px);
}

#[test]
fn bayer_gives_pure_one_bit_pattern() {
    let px: Vec<u8> = (0..64).map(|i| (i * 4) as u8).collect();
    let out = dither(&px, 8, 8, ImageMode::Bayer).unwrap();
    assert!(out.iter().all(|&v| v == 0 || v == 255));
    assert_eq!(out[0], 0);
    assert!(is_dither(ImageMode::Bayer) && !is_dither(ImageMode::Threshold));
}

#[test]
fn schwarz_und_weiss_bleiben_erhalten() {
    // Reines Schwarz/Weiß bekommt kein Rauschen. Die Fehlerdiffusion
    // (Floyd, LaserRuns) rechnet außerhalb der Bibliothek; hier die
    // geordnete Methode und die Schwelle.
    let black = vec![0u8; 64];
    let white = vec![255u8; 64];
    for mode in [ImageMode::Bayer, ImageMode::Threshold, ImageMode::Grayscale] {
        assert!(dither(&black, 8, 8, mode).unwrap().iter().all(|&v| v == 0));
        assert!(dither(&white, 8, 8, mode).unwrap().iter().all(|&v| v == 255));
    }
    assert!(dither(&black, 8, 8, ImageMode::Floyd).is_none());
}
