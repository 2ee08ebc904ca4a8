use luxifer::trace::{boundary_edges, merge_collinear, trace_loops, twice_area};

fn img_rect(w: usize, h: usize, x0: usize, y0: usize, x1: usize, y1: usize) -> Vec<u8> {
    let mut px = vec![255u8; w * h];
    for y in y0..y1 {
        for x in x0..x1 {
            px[y * w + x] = 0;
        }
    }
    px
}

#[test]
fn rechteck_ergibt_eine_geschlossene_kontur() {
    let px = img_rect(6, 6, 1, 1, 4, 3);
    let loops = trace_loops(&px, 6, 6, 128, false);
    assert_eq!(loops.len(), 1);
    // 3 × 2 pixels: a perimeter of 10 unit edges.
    assert_eq!(loops[0].len(), 10);
    assert!(loops[0].contains(&(1, 1)) && loops[0].contains(&(4, 3)));
}

#[test]
fn loch_wird_eigene_kontur() {
    let mut px = img_rect(7, 7, 1, 1, 6, 6);
    px[3 * 7 + 3] = 255;
    let loops = trace_loops(&px, 7, 7, 128, false);
    assert_eq!(loops.len(), 2);
    let mut sizes: Vec<usize> = loops.iter().map(|l| l.len()).collect();
    sizes.sort();
    assert_eq!(sizes, vec![4, 20]);
}

#[test]
fn leeres_bild_ergibt_nichts() {
    let px = vec![255u8; 16];
    assert!(trace_loops(&px, 4, 4, 128, false).is_empty());
    assert!(trace_loops(&px, 3, 4, 128, false).is_empty(), "size mismatch");
}

#[test]
fn invert_tracet_helles_motiv() {
    let mut px = vec![0u8; 16];
    px[5] = 255;
    let loops = trace_loops(&px, 4, 4, 128, true);
    assert_eq!(loops.len(), 1);
    assert_eq!(loops[0].len(), 4);
}

#[test]
fn single_pixel_has_four_boundary_edges() {
    let edges = boundary_edges(&[0u8], 1, 1, 128, false);
    assert_eq!(
        edges,
        vec![((0, 0), (1, 0)), ((1, 1), (0, 1)), ((0, 1), (0, 0)), ((1, 0), (1, 1))]
    );
}

#[test]
fn diagonal_touch_gives_two_loops() {
    // Two pixels touching at one corner.
    let px = vec![0u8, 255, 255, 0];
    let loops = trace_loops(&px, 2, 2, 128, false);
    assert_eq!(loops.len(), 2);
    assert!(loops.iter().all(|l| l.len() == 4));
}

#[test]
fn gerade_laeufe_werden_zusammengefasst_und_flaeche_exakt() {
    // Quadrat 2×2 mit Zwischenpunkten auf den Kanten.
    let pts: Vec<(usize, usize)> = vec![(0, 0), (1, 0), (2, 0), (2, 1), (2, 2), (1, 2), (0, 2), (0, 1)];
    let merged = merge_collinear(&pts);
    assert_eq!(merged, vec![(0, 0), (2, 0), (2, 2), (0, 2)]);
    assert_eq!(twice_area(&merged), Some(8));
    assert_eq!(twice_area(&pts), Some(8));
    // Eine gerade Strecke bleibt, wie sie ist.
    let line: Vec<(usize, usize)> = vec![(0, 0), (1, 0), (2, 0)];
    assert_eq!(merge_collinear(&line), line);
}
