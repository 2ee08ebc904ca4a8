use luxifer::model::LayerMode;
use luxifer::state::AppState;

const RECT: u64 = 1;

#[test]
fn state_add_shape_ohne_layer_legt_layer_an() {
    let mut s = AppState::new();
    assert!(s.layers.is_empty());
    s.add_shape(RECT);
    assert_eq!(s.layers.len(), 1);
    assert_eq!(s.shapes.len(), 1);
    assert_eq!(s.shapes[0].layer_id, 0);
    assert_eq!(s.selected, vec![0]);
}

#[test]
fn state_pending_color_ohne_auswahl_erstellt_keinen_leeren_layer() {
    let mut s = AppState::new();
    s.activate_color([0x3B, 0x82, 0xF6]);
    assert!(s.layers.is_empty());
    assert_eq!(s.pending_color, Some([0x3B, 0x82, 0xF6]));
    s.add_shape(RECT);
    assert_eq!(s.layers.len(), 1);
    assert_eq!(s.layers[0].color, [0x3B, 0x82, 0xF6]);
}

#[test]
fn state_farbe_auf_selektiertes_shape_verschiebt_in_farb_layer() {
    let mut s = AppState::new();
    s.add_shape(RECT);
    let first_color = s.layers[0].color;
    let blue = [0x3B, 0x82, 0xF6];
    assert_ne!(first_color, blue);
    s.activate_color(blue);
    assert_eq!(s.layers.len(), 1);
    assert_eq!(s.layers[0].color, blue);
    assert_eq!(s.shapes[0].layer_id, 0);
}

#[test]
fn state_zwei_shapes_verschiedene_farben_zwei_layer() {
    let mut s = AppState::new();
    s.add_shape(RECT);
    s.selected.clear();
    s.activate_color([0x3B, 0x82, 0xF6]);
    s.add_shape(2);
    assert_eq!(s.layers.len(), 2);
    assert_ne!(s.shapes[0].layer_id, s.shapes[1].layer_id);
}

#[test]
fn state_gleiche_farbe_zweimal_teilt_layer() {
    let mut s = AppState::new();
    s.add_shape(RECT);
    let c = s.layers[0].color;
    s.selected.clear();
    s.activate_color(c);
    s.add_shape(2);
    assert_eq!(s.layers.len(), 1);
    assert_eq!(s.shapes[0].layer_id, s.shapes[1].layer_id);
}

#[test]
fn state_undo_redo_stellt_zustand_wieder_her() {
    let mut s = AppState::new();
    s.add_shape(RECT);
    assert_eq!(s.shapes.len(), 1);
    assert!(s.undo());
    assert_eq!(s.shapes.len(), 0);
    assert!(s.redo());
    assert_eq!(s.shapes.len(), 1);
    assert!(!s.redo());
}

#[test]
fn state_delete_selected_entfernt_und_raeumt_layer() {
    let mut s = AppState::new();
    s.add_shape(RECT);
    s.delete_selected();
    assert_eq!(s.shapes.len(), 0);
    assert!(s.layers.is_empty());
    s.add_shape(RECT);
    assert_eq!(s.layers.len(), 1);
}

#[test]
fn state_hit_test_ueberspringt_gesperrte_layer() {
    let mut s = AppState::new();
    s.add_shape(RECT);
    assert_eq!(s.hit_test(&vec![true]), Some(0));
    s.layers[0].locked = true;
    assert_eq!(s.hit_test(&vec![true]), None);
}

#[test]
fn state_add_image_legt_eigenen_image_layer_an() {
    let mut s = AppState::new();
    s.add_shape(RECT);
    let n = s.layers.len();
    let idx = s.add_image(10, [1, 2, 3]);
    assert_eq!(s.layers.len(), n + 1);
    let li = s.shapes[idx].layer_id;
    assert_eq!(s.layers[li].mode, LayerMode::Image);
    assert_eq!(s.layers[li].color, [1, 2, 3]);
    assert_eq!(s.shapes[idx].geo, 10);
    let idx2 = s.add_image(11, [4, 5, 6]);
    let li2 = s.shapes[idx2].layer_id;
    assert_ne!(li, li2);
    assert_ne!(s.layers[li].color, s.layers[li2].color);
}

#[test]
fn state_rect_nach_bild_landet_nicht_auf_image_layer() {
    let mut s = AppState::new();
    let img_idx = s.add_image(10, [1, 2, 3]);
    let img_layer = s.shapes[img_idx].layer_id;
    assert_eq!(s.selected, vec![img_idx]);
    let rect_idx = s.add_shape(RECT);
    let rect_layer = s.shapes[rect_idx].layer_id;
    assert_ne!(rect_layer, img_layer);
    assert_ne!(s.layers[rect_layer].mode, LayerMode::Image);
    assert_eq!(s.selected, vec![rect_idx]);
}

#[test]
fn state_einziges_bild_loeschen_entfernt_image_layer() {
    let mut s = AppState::new();
    let img_idx = s.add_image(10, [1, 2, 3]);
    assert_eq!(s.layers.len(), 1);
    assert_eq!(s.layers[0].mode, LayerMode::Image);
    s.selected = vec![img_idx];
    s.delete_selected();
    assert_eq!(s.shapes.len(), 0);
    assert!(!s.layers.iter().any(|l| l.mode == LayerMode::Image));
}

#[test]
fn state_bild_loeschen_entfernt_leeren_image_layer() {
    let mut s = AppState::new();
    s.add_shape(RECT);
    let img_idx = s.add_image(10, [1, 2, 3]);
    assert_eq!(s.layers.len(), 2);
    s.selected = vec![img_idx];
    s.delete_selected();
    assert_eq!(s.shapes.len(), 1);
    assert_eq!(s.layers.len(), 1);
    assert_ne!(s.layers[0].mode, LayerMode::Image);
}

fn state_three_layers() -> AppState {
    let mut s = AppState::new();
    let colors = [[10, 0, 0], [0, 20, 0], [0, 0, 30]];
    for (i, c) in colors.iter().enumerate() {
        s.selected.clear();
        s.activate_color(*c);
        s.add_shape(i as u64 + 1);
    }
    assert_eq!(s.layers.len(), 3);
    for i in 0..3 {
        assert_eq!(s.shapes[i].layer_id, i);
    }
    s
}

#[test]
fn state_move_layer_aendert_reihenfolge_und_haelt_shape_zuordnung() {
    let mut s = state_three_layers();
    let farbe_von = |s: &AppState, i: usize| s.layers[s.shapes[i].layer_id].color;
    let f0 = farbe_von(&s, 0);
    let f2 = farbe_von(&s, 2);
    s.move_layer(2, 0);
    assert_eq!(s.layers[0].color, [0, 0, 30]);
    assert_eq!(s.layers[1].color, [10, 0, 0]);
    assert_eq!(s.layers[2].color, [0, 20, 0]);
    assert_eq!(farbe_von(&s, 0), f0);
    assert_eq!(farbe_von(&s, 2), f2);
}

#[test]
fn state_move_layer_vorwaerts_remappt_korrekt() {
    let mut s = state_three_layers();
    s.move_layer(0, 2);
    assert_eq!(s.layers[0].color, [0, 20, 0]);
    assert_eq!(s.layers[1].color, [0, 0, 30]);
    assert_eq!(s.layers[2].color, [10, 0, 0]);
    assert_eq!(s.shapes[0].layer_id, 2);
    assert_eq!(s.shapes[1].layer_id, 0);
    assert_eq!(s.shapes[2].layer_id, 1);
}

#[test]
fn state_move_layer_haelt_active_layer_stabil() {
    let mut s = state_three_layers();
    s.active_layer = 2;
    let aktive_farbe = s.layers[s.active_layer].color;
    s.move_layer(2, 0);
    assert_eq!(s.layers[s.active_layer].color, aktive_farbe);
    assert_eq!(s.active_layer, 0);
}

#[test]
fn state_move_layer_noop_bei_gleichem_index_oder_ungueltig() {
    let mut s = state_three_layers();
    let colors: Vec<[u8; 3]> = s.layers.iter().map(|l| l.color).collect();
    let mut depth = 0;
    {
        let mut probe = state_three_layers();
        while probe.undo() {
            depth += 1;
        }
    }
    s.move_layer(1, 1);
    s.move_layer(0, 9);
    s.move_layer(5, 0);
    let after: Vec<[u8; 3]> = s.layers.iter().map(|l| l.color).collect();
    assert_eq!(after, colors);
    let mut n = 0;
    while s.undo() {
        n += 1;
    }
    assert_eq!(n, depth, "a no-op adds no undo point");
}

#[test]
fn state_move_layer_ist_per_undo_zuruecknehmbar() {
    let mut s = state_three_layers();
    let colors: Vec<[u8; 3]> = s.layers.iter().map(|l| l.color).collect();
    let shapes_before = s.shapes.clone();
    s.move_layer(2, 0);
    assert!(s.undo());
    let after: Vec<[u8; 3]> = s.layers.iter().map(|l| l.color).collect();
    assert_eq!(after, colors);
    assert_eq!(s.shapes, shapes_before);
}

#[test]
fn state_group_and_ungroup() {
    let mut s = AppState::new();
    s.add_shape(1);
    s.add_shape(2);
    s.selected = vec![0, 1];
    s.group_selected();
    assert!(s.shapes[0].group_id.is_some());
    assert_eq!(s.shapes[0].group_id, s.shapes[1].group_id);
    s.selected = vec![0];
    s.expand_selection_to_groups();
    assert_eq!(s.selected.len(), 2);
    s.ungroup_selected();
    assert!(s.shapes[0].group_id.is_none() && s.shapes[1].group_id.is_none());
}

#[test]
fn state_from_project_activates_last_layer() {
    let mut s = AppState::new();
    s.add_shape(1);
    s.selected.clear();
    s.activate_color([0, 0, 1]);
    s.add_shape(2);
    let loaded = AppState::from_project(s.layers.clone(), s.shapes.clone());
    assert_eq!(loaded.active_layer, 1);
    assert!(!loaded.dirty);
    assert!(!loaded.can_undo());
    assert!(loaded.selected.is_empty());
}

#[test]
fn state_can_align_and_distribute_need_enough_shapes() {
    let mut s = AppState::new();
    s.add_shape(1);
    assert!(!s.can_align());
    s.add_shape(2);
    s.selected = vec![0, 1];
    assert!(s.can_align());
    assert!(!s.can_distribute());
    s.add_shape(3);
    s.selected = vec![0, 1, 2];
    assert!(s.can_distribute());
}
