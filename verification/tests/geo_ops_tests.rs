use luxifer::state::AppState;

/// Two shapes on one layer, both selected.
fn state_two() -> AppState {
    let mut s = AppState::new();
    s.add_shape(1);
    let c = s.layers[0].color;
    s.selected.clear();
    s.activate_color(c);
    s.add_shape(2);
    s.selected = vec![0, 1];
    s
}

#[test]
fn boolean_selected_ersetzt_shapes_und_undo_stellt_wieder_her() {
    let mut s = state_two();
    let closed = vec![true, true];
    assert!(s.can_boolean(&closed));
    assert_eq!(s.boolean_operands(&closed), vec![0, 1]);
    s.boolean_selected(&closed, &vec![10]);
    assert_eq!(s.shapes.len(), 1, "zwei Rechtecke → eine Kontur");
    assert_eq!(s.shapes[0].geo, 10);
    assert_eq!(s.shapes[0].layer_id, 0);
    assert_eq!(s.selected, vec![0], "Ergebnis ist selektiert");
    assert!(s.undo());
    assert_eq!(s.shapes.len(), 2, "Undo stellt die Eingaben wieder her");
}

#[test]
fn boolean_braucht_zwei_geschlossene_konturen() {
    let mut s = state_two();
    let closed = vec![true, false];
    assert!(!s.can_boolean(&closed));
    let before = s.shapes.clone();
    s.boolean_selected(&closed, &vec![10]);
    assert_eq!(s.shapes, before);
}

#[test]
fn boolean_ohne_ergebnis_laesst_alles_stehen() {
    let mut s = state_two();
    let before = s.shapes.clone();
    s.boolean_selected(&vec![true, true], &vec![]);
    assert_eq!(s.shapes, before);
    assert_eq!(s.selected, vec![0, 1]);
}

#[test]
fn boolean_ergebnis_liegt_auf_dem_layer_des_subjekts() {
    let mut s = AppState::new();
    s.add_shape(1);
    s.selected.clear();
    s.activate_color([0, 200, 0]);
    s.add_shape(2);
    s.add_shape(3);
    s.shapes[1].layer_id = 1;
    s.shapes[2].layer_id = 1;
    // Subjekt ist die zuerst gewählte Form (Layer 1); Layer 0 wird leer.
    s.selected = vec![1, 0];
    s.boolean_selected(&vec![true, true, true], &vec![20, 21]);
    assert_eq!(s.layers.len(), 1);
    assert_eq!(s.layers[0].color, [0, 200, 0]);
    assert_eq!(s.shapes.len(), 3);
    assert_eq!(s.shapes[0].geo, 3);
    assert_eq!((s.shapes[1].geo, s.shapes[2].geo), (20, 21));
    assert!(s.shapes.iter().all(|sh| sh.layer_id == 0));
    assert_eq!(s.selected, vec![1, 2]);
}

#[test]
fn offset_behaelt_originale_und_waehlt_die_neuen() {
    let mut s = state_two();
    s.offset_selected(&vec![vec![30, 31], vec![]]);
    assert_eq!(s.shapes.len(), 4);
    assert_eq!((s.shapes[0].geo, s.shapes[1].geo), (1, 2));
    assert_eq!((s.shapes[2].geo, s.shapes[3].geo), (30, 31));
    assert_eq!(s.shapes[2].layer_id, s.shapes[0].layer_id);
    assert_eq!(s.selected, vec![2, 3]);
    assert!(s.undo());
    assert_eq!(s.shapes.len(), 2);
}

#[test]
fn offset_ohne_kontur_aendert_nichts() {
    let mut s = state_two();
    s.offset_selected(&vec![vec![], vec![]]);
    assert_eq!(s.shapes.len(), 2);
    assert_eq!(s.selected, vec![0, 1]);
}

#[test]
fn bridge_stroke_ersetzt_getroffene_kontur_durch_teilstuecke() {
    let mut s = state_two();
    s.shapes[1].group_id = Some(4);
    let hit = s.bridge_stroke(&vec![None, Some(vec![40, 41])]);
    assert!(hit);
    assert!(s.dirty);
    assert_eq!(s.shapes.len(), 3);
    assert_eq!(s.shapes[0].geo, 1);
    assert_eq!((s.shapes[1].geo, s.shapes[2].geo), (40, 41));
    assert_eq!(s.shapes[1].group_id, Some(4));
    assert_eq!(s.selected, vec![1, 2]);
}

#[test]
fn bridge_ohne_treffer_ist_false() {
    let mut s = state_two();
    assert!(!s.bridge_stroke(&vec![None, None]));
    assert_eq!(s.shapes.len(), 2);
    assert_eq!(s.selected, vec![0, 1]);
}

#[test]
fn bridge_schneidet_von_hinten_nach_vorn() {
    let mut s = state_two();
    assert!(s.bridge_stroke(&vec![Some(vec![50]), Some(vec![60, 61])]));
    // Form 1 zuerst: [A, p, q]; dann Form 0: [p, q, r].
    let geos: Vec<u64> = s.shapes.iter().map(|sh| sh.geo).collect();
    assert_eq!(geos, vec![60, 61, 50]);
    assert_eq!(s.selected, vec![1, 2, 2]);
}

#[test]
fn align_braucht_mindestens_zwei() {
    let mut s = AppState::new();
    s.add_shape(1);
    assert!(!s.can_align());
    s.align_selection(&vec![Some(9)]);
    assert_eq!(s.shapes[0].geo, 1);
    let mut t = state_two();
    assert!(t.can_align());
    t.align_selection(&vec![Some(7), None]);
    assert_eq!((t.shapes[0].geo, t.shapes[1].geo), (7, 2));
    assert!(t.undo());
    assert_eq!(t.shapes[0].geo, 1);
}

#[test]
fn mirror_ohne_auswahl_ist_noop() {
    let mut s = state_two();
    s.selected.clear();
    assert!(!s.can_mirror());
    let before = s.shapes.clone();
    s.mirror_selection(&vec![Some(5)]);
    assert_eq!(s.shapes, before);
}

#[test]
fn mirror_und_verteilen_setzen_neue_umrisse() {
    let mut s = state_two();
    s.mirror_selection(&vec![Some(5), Some(6)]);
    assert_eq!((s.shapes[0].geo, s.shapes[1].geo), (5, 6));
    s.add_shape(3);
    s.selected = vec![0, 1, 2];
    s.distribute_selection(&vec![None, Some(8), None]);
    assert_eq!(s.shapes[1].geo, 8);
    assert_eq!(s.shapes[2].geo, 3);
}

#[test]
fn nest_selected_verschiebt_nur_platzierte() {
    let mut s = state_two();
    let before = s.shapes.clone();
    s.nest_selected(&vec![None, None]);
    assert_eq!(s.shapes, before);
    s.nest_selected(&vec![Some(11), None]);
    assert_eq!((s.shapes[0].geo, s.shapes[1].geo), (11, 2));
}

#[test]
fn fillet_selected_nur_mit_verrundbarer_form() {
    let mut s = state_two();
    s.fillet_selected(&vec![false, false], &vec![Some(70), Some(71)]);
    assert_eq!((s.shapes[0].geo, s.shapes[1].geo), (1, 2));
    s.fillet_selected(&vec![true, false], &vec![Some(70), None]);
    assert_eq!((s.shapes[0].geo, s.shapes[1].geo), (70, 2));
    assert!(s.undo());
    assert_eq!(s.shapes[0].geo, 1);
}

#[test]
fn fillet_shape_corners_ersetzt_eine_form() {
    let mut s = state_two();
    s.fillet_shape_corners(1, 80);
    assert_eq!(s.shapes[1].geo, 80);
    s.fillet_shape_corners(9, 81);
    assert_eq!(s.shapes.len(), 2);
    assert!(s.undo());
    assert_eq!(s.shapes[1].geo, 2);
}

#[test]
fn nest_fill_kopiert_die_erste_form() {
    let mut s = state_two();
    s.shapes[0].group_id = Some(3);
    s.nest_fill_selected(&vec![90, 91, 92]);
    assert_eq!(s.shapes.len(), 4);
    assert_eq!(s.shapes[0].geo, 90);
    assert_eq!(s.shapes[0].group_id, Some(3));
    assert_eq!((s.shapes[2].geo, s.shapes[3].geo), (91, 92));
    assert_eq!(s.shapes[2].group_id, None);
    assert_eq!(s.selected, vec![0, 2, 3]);
}

#[test]
fn untersetzer_werden_eingefuegt_und_gewaehlt() {
    let mut s = AppState::new();
    s.insert_coasters(&(100..108).collect());
    assert_eq!(s.shapes.len(), 8);
    assert_eq!(s.layers.len(), 1);
    assert_eq!(s.selected, (0..8).collect::<Vec<usize>>());
    assert!(s.can_undo());
}

#[test]
fn trim_ersetzt_form_durch_reststuecke() {
    let mut s = state_two();
    s.shapes[0].group_id = Some(2);
    assert!(s.can_trim(0, false));
    assert!(!s.can_trim(0, true));
    assert!(s.trim_at(0, &vec![(20, 2), (21, 1), (22, 3)]));
    let geos: Vec<u64> = s.shapes.iter().map(|sh| sh.geo).collect();
    assert_eq!(geos, vec![2, 20, 22]);
    assert_eq!(s.shapes[1].group_id, Some(2));
    assert!(s.selected.is_empty());
    assert!(s.undo());
    assert_eq!(s.shapes.len(), 2);
    assert_eq!(s.shapes[0].geo, 1);
}

#[test]
fn trim_ohne_ziel_und_auf_gesperrtem_layer() {
    let mut s = state_two();
    assert!(!s.trim_at(5, &vec![(20, 2)]));
    assert_eq!(s.shapes.len(), 2);
    s.layers[0].locked = true;
    assert!(!s.can_trim(1, false));
    s.layers[0].locked = false;
    s.shapes[1].fill_only = true;
    assert!(!s.can_trim(1, false));
}

#[test]
fn trim_in_offener_geste_ohne_eigenen_undo_punkt() {
    let mut s = state_two();
    assert!(s.trim_at_in_edit(1, &vec![(30, 2)]));
    assert_eq!(s.shapes.len(), 2);
    assert_eq!(s.shapes[1].geo, 30);
    assert!(s.dirty);
    // Das Undo nimmt den letzten aufgezeichneten Schritt zurück (das Zeichnen).
    assert!(s.undo());
    assert_eq!(s.shapes.len(), 1);
}
